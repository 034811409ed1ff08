//! The command surface: the parsed commands, and the decisions taken on them
//! before any work starts.
use vstd::prelude::*;

use vstd::string::{StrSliceExecFns, StringExecFns};

verus! {

/// Whether `s` spells `w`, character by character.
pub fn same_text(s: &str, w: &str) -> (r: bool)
    ensures
        r == (s@ == w@),
{
    let n = s.unicode_len();
    if n != w.unicode_len() {
        return false;
    }
    let mut i: usize = 0;
    while i < n
        invariant
            n == s@.len() == w@.len(),
            i <= n,
            forall|k: int| 0 <= k < i ==> s@[k] == w@[k],
        decreases n - i,
    {
        if s.get_char(i) != w.get_char(i) {
            return false;
        }
        i = i + 1;
    }
    assert(s@ =~= w@);
    true
}

/// Splits `KEY=value` at its first `=`; `None` where there is none.
pub fn parse_key_value(s: &str) -> (r: Option<(String, String)>)
    ensures
        match r {
            Some((k, v)) => s@ == k@ + seq!['='] + v@ && !k@.contains('='),
            None => !s@.contains('='),
        },
{
    let n = s.unicode_len();
    let mut i: usize = 0;
    while i < n
        invariant
            n == s@.len(),
            i <= n,
            forall|k: int| 0 <= k < i ==> s@[k] != '=',
        decreases n - i,
    {
        if s.get_char(i) == '=' {
            let key = String::from_str(s.substring_char(0, i));
            let value = String::from_str(s.substring_char(i + 1, n));
            assert(s@ =~= key@ + seq!['='] + value@);
            return Some((key, value));
        }
        i = i + 1;
    }
    None
}

/// The commands of the tool.
#[derive(Debug)]
pub enum Commands {
    /// Show a token's header, payload and signature.
    Decode { token: String },
    /// Build a token from JSON claims.
    Encode {
        json: String,
        secret: Option<String>,
        private_key: Option<String>,
        algorithm: String,
        no_signature: bool,
        header: Vec<(String, String)>,
    },
    /// Check a token's signature, and optionally its expiry.
    Verify { token: String, secret: Option<String>, private_key: Option<String>, validate_exp: bool },
    /// Search for the secret a token was signed with.
    Crack {
        token: String,
        mode: String,
        wordlist: Option<String>,
        chars: String,
        concurrency: usize,
        max: usize,
        power: bool,
        verbose: bool,
    },
    /// Derive attack variants of a token.
    Payload {
        token: String,
        jwk_trust: Option<String>,
        jwk_attack: Option<String>,
        jwk_protocol: String,
        target: Option<String>,
    },
    /// Show version information.
    Version,
}

/// A parsed command line.
#[derive(Debug)]
pub struct Cli {
    pub command: Option<Commands>,
}

/// Where the candidates of a crack run come from.
#[derive(Debug)]
pub enum CrackMode {
    /// One candidate per line of the wordlist file at this path.
    Dictionary { wordlist: String },
    /// Every string over `chars` of length 1 through `max`.
    Bruteforce { chars: String, max: usize },
}

/// How many workers a crack run uses.
#[derive(Clone, Copy, Debug, PartialEq, Eq, Structural)]
pub enum Workers {
    Fixed(usize),
    AllCores,
}

/// A validated crack request.
#[derive(Debug)]
pub struct CrackJob {
    pub token: String,
    pub mode: CrackMode,
    pub workers: Workers,
    pub verbose: bool,
}

/// Why a command line was turned down.
#[derive(Clone, Copy, Debug, PartialEq, Eq, Structural)]
pub enum UsageError {
    NoCommand,
    UnknownMode,
    MissingWordlist,
    ZeroConcurrency,
    ZeroMaxLength,
}

/// What to do for a command line.
#[derive(Debug)]
pub enum Task {
    Decode { token: String },
    Encode,
    Verify { token: String, secret: Option<String> },
    Crack(CrackJob),
    Payload,
    Version,
    Reject(UsageError),
}

pub open spec fn opt_view(o: Option<String>) -> Option<Seq<char>> {
    match o {
        Some(s) => Some(s@),
        None => None,
    }
}

/// Copies an optional string.
fn copy_opt(o: &Option<String>) -> (r: Option<String>)
    ensures
        opt_view(r) == opt_view(*o),
{
    match o {
        Some(s) => Some(String::from_str(s.as_str())),
        None => None,
    }
}

/// The decision for a crack command.
pub open spec fn crack_decision(
    token: Seq<char>,
    mode: Seq<char>,
    wordlist: Option<Seq<char>>,
    chars: Seq<char>,
    concurrency: usize,
    max: usize,
    power: bool,
    job: CrackJob,
) -> bool {
    &&& job.token@ == token
    &&& job.workers == (if power { Workers::AllCores } else { Workers::Fixed(concurrency) })
    &&& if mode == "dict"@ {
        match job.mode {
            CrackMode::Dictionary { wordlist: w } => Some(w@) == wordlist,
            _ => false,
        }
    } else {
        match job.mode {
            CrackMode::Bruteforce { chars: c, max: m } => c@ == chars && m == max,
            _ => false,
        }
    }
}

/// Decides what a command line asks for. A crack command is checked here:
/// its mode must be `dict` (with a wordlist) or `brute` (with a positive
/// maximum length), and its worker count positive unless all cores are asked.
pub fn execute(cli: &Cli) -> (r: Task)
    ensures
        match &cli.command {
            None => r == Task::Reject(UsageError::NoCommand),
            Some(Commands::Decode { token }) => match r {
                Task::Decode { token: t } => t@ == token@,
                _ => false,
            },
            Some(Commands::Encode { .. }) => r is Encode,
            Some(Commands::Verify { token, secret, .. }) => match r {
                Task::Verify { token: t, secret: s } => t@ == token@ && opt_view(s) == opt_view(*secret),
                _ => false,
            },
            Some(Commands::Crack { token, mode, wordlist, chars, concurrency, max, power, verbose }) => {
                if mode@ != "dict"@ && mode@ != "brute"@ {
                    r == Task::Reject(UsageError::UnknownMode)
                } else if mode@ == "dict"@ && wordlist.is_none() {
                    r == Task::Reject(UsageError::MissingWordlist)
                } else if mode@ == "brute"@ && *max == 0 {
                    r == Task::Reject(UsageError::ZeroMaxLength)
                } else if !*power && *concurrency == 0 {
                    r == Task::Reject(UsageError::ZeroConcurrency)
                } else {
                    match r {
                        Task::Crack(job) => job.verbose == *verbose && crack_decision(
                            token@,
                            mode@,
                            opt_view(*wordlist),
                            chars@,
                            *concurrency,
                            *max,
                            *power,
                            job,
                        ),
                        _ => false,
                    }
                }
            },
            Some(Commands::Payload { .. }) => r is Payload,
            Some(Commands::Version) => r is Version,
        },
{
    match &cli.command {
        None => Task::Reject(UsageError::NoCommand),
        Some(Commands::Decode { token }) => Task::Decode { token: String::from_str(token.as_str()) },
        Some(Commands::Encode { .. }) => Task::Encode,
        Some(Commands::Verify { token, secret, .. }) => Task::Verify {
            token: String::from_str(token.as_str()),
            secret: copy_opt(secret),
        },
        Some(Commands::Crack { token, mode, wordlist, chars, concurrency, max, power, verbose }) => {
            proof {
                reveal_strlit("dict");
                reveal_strlit("brute");
                assert("dict"@.len() != "brute"@.len());
            }
            let is_dict = same_text(mode.as_str(), "dict");
            let is_brute = same_text(mode.as_str(), "brute");
            if !is_dict && !is_brute {
                return Task::Reject(UsageError::UnknownMode);
            }
            let crack_mode = if is_dict {
                match wordlist {
                    Some(w) => CrackMode::Dictionary { wordlist: String::from_str(w.as_str()) },
                    None => {
                        return Task::Reject(UsageError::MissingWordlist);
                    },
                }
            } else {
                if *max == 0 {
                    return Task::Reject(UsageError::ZeroMaxLength);
                }
                CrackMode::Bruteforce { chars: String::from_str(chars.as_str()), max: *max }
            };
            if !*power && *concurrency == 0 {
                return Task::Reject(UsageError::ZeroConcurrency);
            }
            let workers = if *power {
                Workers::AllCores
            } else {
                Workers::Fixed(*concurrency)
            };
            Task::Crack(CrackJob { token: String::from_str(token.as_str()), mode: crack_mode, workers, verbose: *verbose })
        },
        Some(Commands::Payload { .. }) => Task::Payload,
        Some(Commands::Version) => Task::Version,
    }
}

} // verus!
