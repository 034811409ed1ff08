use jwt_hack::{banner, execute, parse_key_value, Cli, Commands, CrackMode, Task, UsageError, Workers, VERSION};

fn crack(mode: &str, wordlist: Option<&str>, concurrency: usize, max: usize, power: bool) -> Cli {
    Cli {
        command: Some(Commands::Crack {
            token: "t.o.k".to_string(),
            mode: mode.to_string(),
            wordlist: wordlist.map(|w| w.to_string()),
            chars: "abc".to_string(),
            concurrency,
            max,
            power,
            verbose: true,
        }),
    }
}

#[test]
fn key_value_splits_at_first_equals() {
    assert_eq!(parse_key_value("kid=abc"), Some(("kid".to_string(), "abc".to_string())));
    assert_eq!(parse_key_value("a=b=c"), Some(("a".to_string(), "b=c".to_string())));
    assert_eq!(parse_key_value("=v"), Some((String::new(), "v".to_string())));
    assert_eq!(parse_key_value("k="), Some(("k".to_string(), String::new())));
    assert_eq!(parse_key_value("novalue"), None);
}

#[test]
fn crack_command_in_dictionary_mode() {
    match execute(&crack("dict", Some("words.txt"), 4, 4, false)) {
        Task::Crack(job) => {
            assert_eq!(job.token, "t.o.k");
            assert_eq!(job.workers, Workers::Fixed(4));
            assert!(job.verbose);
            match job.mode {
                CrackMode::Dictionary { wordlist } => assert_eq!(wordlist, "words.txt"),
                other => panic!("unexpected mode {:?}", other),
            }
        }
        other => panic!("unexpected task {:?}", other),
    }
}

#[test]
fn crack_command_in_bruteforce_mode_with_all_cores() {
    match execute(&crack("brute", None, 0, 3, true)) {
        Task::Crack(job) => {
            assert_eq!(job.workers, Workers::AllCores);
            match job.mode {
                CrackMode::Bruteforce { chars, max } => {
                    assert_eq!(chars, "abc");
                    assert_eq!(max, 3);
                }
                other => panic!("unexpected mode {:?}", other),
            }
        }
        other => panic!("unexpected task {:?}", other),
    }
}

fn rejection(cli: &Cli) -> Option<UsageError> {
    match execute(cli) {
        Task::Reject(e) => Some(e),
        _ => None,
    }
}

#[test]
fn crack_command_rejections() {
    assert_eq!(rejection(&crack("rainbow", Some("w"), 4, 4, false)), Some(UsageError::UnknownMode));
    assert_eq!(rejection(&crack("dict", None, 4, 4, false)), Some(UsageError::MissingWordlist));
    assert_eq!(rejection(&crack("brute", None, 4, 0, false)), Some(UsageError::ZeroMaxLength));
    assert_eq!(rejection(&crack("brute", None, 0, 2, false)), Some(UsageError::ZeroConcurrency));
    assert_eq!(rejection(&crack("dict", Some("w"), 4, 0, false)), None);
    assert_eq!(rejection(&Cli { command: None }), Some(UsageError::NoCommand));
}

#[test]
fn other_commands_are_passed_on() {
    let decode = Cli { command: Some(Commands::Decode { token: "a.b.c".to_string() }) };
    assert!(matches!(execute(&decode), Task::Decode { token } if token == "a.b.c"));
    let verify = Cli {
        command: Some(Commands::Verify {
            token: "a.b.c".to_string(),
            secret: Some("s".to_string()),
            private_key: None,
            validate_exp: false,
        }),
    };
    assert!(matches!(execute(&verify), Task::Verify { token, secret } if token == "a.b.c" && secret.as_deref() == Some("s")));
    assert!(matches!(execute(&Cli { command: Some(Commands::Version) }), Task::Version));
}

#[test]
fn banner_ends_with_version() {
    let lines = banner();
    assert_eq!(lines.len(), 6);
    assert_eq!(lines[4], "-------------------------");
    assert_eq!(lines[5], format!("Hack the JWT(JSON Web Token) | by @hahwul | {}", VERSION));
}

#[test]
fn large_banner_has_title_and_link() {
    let lines = jwt_hack::printing::banner();
    assert_eq!(lines.len(), 8);
    assert!(lines[0].starts_with("      ██╗██╗"));
    assert_eq!(lines[6], format!("          JSON Web Token Hack Toolkit - {} by @hahwul", VERSION));
    assert_eq!(lines[7], "          https://github.com/hahwul/jwt-hack");
}
