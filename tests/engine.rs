use base64::Engine;
use hmac::Mac;
use jwt_hack::bytes::fixed_time_eq;
use jwt_hack::keyspace::{dedup_alphabet, keyspace_len, word_at};
use jwt_hack::oracle::{mac, verify_candidate};
use jwt_hack::{
    run_job, CrackJob, CrackMode, Workers, candidate_from_line, crack_bruteforce, crack_dictionary, decompose, verify_secret, Algorithm, CrackError,
    Outcome,
};

const HEADER_HS256: &str = r#"{"alg":"HS256","typ":"JWT"}"#;
const PAYLOAD: &str = r#"{"sub":"1234567890","name":"John Doe","iat":1516239022}"#;

fn b64(data: &[u8]) -> String {
    base64::engine::general_purpose::URL_SAFE_NO_PAD.encode(data)
}

fn sign(header: &str, secret: &[u8]) -> String {
    let input = format!("{}.{}", b64(header.as_bytes()), b64(PAYLOAD.as_bytes()));
    let tag = if header.contains("HS384") {
        let mut m = hmac::Hmac::<sha2::Sha384>::new_from_slice(secret).unwrap();
        m.update(input.as_bytes());
        m.finalize().into_bytes().to_vec()
    } else if header.contains("HS512") {
        let mut m = hmac::Hmac::<sha2::Sha512>::new_from_slice(secret).unwrap();
        m.update(input.as_bytes());
        m.finalize().into_bytes().to_vec()
    } else {
        let mut m = hmac::Hmac::<sha2::Sha256>::new_from_slice(secret).unwrap();
        m.update(input.as_bytes());
        m.finalize().into_bytes().to_vec()
    };
    format!("{}.{}", input, b64(&tag))
}

fn words(list: &[&str]) -> Vec<Vec<u8>> {
    list.iter().map(|w| w.as_bytes().to_vec()).collect()
}

fn found(o: &Outcome) -> Option<Vec<u8>> {
    match o {
        Outcome::Found(w) => Some(w.clone()),
        Outcome::Exhausted => None,
    }
}

#[test]
fn dictionary_finds_listed_secret() {
    let token = sign(HEADER_HS256, b"s3cr3t");
    let r = crack_dictionary(&token, &words(&["wrong1", "s3cr3t", "wrong2"])).unwrap();
    assert_eq!(found(&r.outcome), Some(b"s3cr3t".to_vec()));
    assert_eq!(r.attempts, 2);
}

#[test]
fn dictionary_finds_secret_at_any_position() {
    let token = sign(HEADER_HS256, b"hunter2");
    for pos in 0..4 {
        let mut list = vec!["a", "b", "c"];
        list.insert(pos, "hunter2");
        let r = crack_dictionary(&token, &words(&list)).unwrap();
        assert_eq!(found(&r.outcome), Some(b"hunter2".to_vec()));
        assert_eq!(r.attempts, pos + 1);
    }
}

#[test]
fn dictionary_without_secret_is_exhausted() {
    let token = sign(HEADER_HS256, b"s3cr3t");
    let r = crack_dictionary(&token, &words(&["one", "two", "three", "four"])).unwrap();
    assert!(found(&r.outcome).is_none());
    assert_eq!(r.attempts, 4);
}

#[test]
fn empty_dictionary_is_exhausted() {
    let token = sign(HEADER_HS256, b"s3cr3t");
    let r = crack_dictionary(&token, &Vec::new()).unwrap();
    assert!(found(&r.outcome).is_none());
    assert_eq!(r.attempts, 0);
}

#[test]
fn bruteforce_finds_short_secret() {
    let token = sign(HEADER_HS256, b"cab");
    let r = crack_bruteforce(&token, "abc", 3).unwrap();
    assert_eq!(found(&r.outcome), Some(b"cab".to_vec()));
    // 3 + 9 words of length 1 and 2, then "cab" is number 2*9+0*3+1 of length 3.
    assert_eq!(r.attempts, 3 + 9 + 19 + 1);
}

#[test]
fn bruteforce_ignores_repeated_alphabet_symbols() {
    let token = sign(HEADER_HS256, b"ba");
    let r = crack_bruteforce(&token, "abab", 2).unwrap();
    assert_eq!(found(&r.outcome), Some(b"ba".to_vec()));
    assert_eq!(r.attempts, 5);
}

#[test]
fn bruteforce_too_short_is_exhausted_over_whole_keyspace() {
    let token = sign(HEADER_HS256, b"s3cr3t");
    let r = crack_bruteforce(&token, "abcdefghijklmnopqrstuvwxyz0123456789", 3).unwrap();
    assert!(found(&r.outcome).is_none());
    assert_eq!(r.attempts, 36 + 36 * 36 + 36 * 36 * 36);
}

#[test]
fn bruteforce_secret_outside_alphabet_is_exhausted() {
    let token = sign(HEADER_HS256, b"xy");
    let r = crack_bruteforce(&token, "ab", 3).unwrap();
    assert!(found(&r.outcome).is_none());
    assert_eq!(r.attempts, 2 + 4 + 8);
}

#[test]
fn rerun_gives_same_outcome() {
    let token = sign(HEADER_HS256, b"ab");
    let a = crack_bruteforce(&token, "ab", 2).unwrap();
    let b = crack_bruteforce(&token, "ab", 2).unwrap();
    assert_eq!(found(&a.outcome), found(&b.outcome));
    assert_eq!(a.attempts, b.attempts);
    let list = words(&["x", "ab", "y"]);
    let c = crack_dictionary(&token, &list).unwrap();
    let d = crack_dictionary(&token, &list).unwrap();
    assert_eq!(found(&c.outcome), found(&d.outcome));
    assert_eq!(found(&c.outcome), Some(b"ab".to_vec()));
}

#[test]
fn enumeration_order_is_length_then_counter() {
    let alpha = dedup_alphabet("ab");
    let seq: Vec<Vec<u8>> = (0..6).map(|g| word_at(&alpha, g)).collect();
    assert_eq!(seq, words(&["a", "b", "aa", "ab", "ba", "bb"]));
    assert_eq!(keyspace_len(2, 2), Some(6));
    assert_eq!(word_at(&alpha, 6), b"aaa".to_vec());
}

#[test]
fn keyspace_sizes() {
    assert_eq!(keyspace_len(36, 3), Some(47988));
    assert_eq!(keyspace_len(1, 5), Some(5));
    assert_eq!(keyspace_len(0, 5), Some(0));
    assert_eq!(keyspace_len(10, 0), Some(0));
    assert_eq!(keyspace_len(256, 8), None);
    assert_eq!(keyspace_len(2, 63), Some(usize::MAX - 1));
    assert_eq!(keyspace_len(2, 64), None);
}

#[test]
fn alphabet_repeats_are_dropped_in_order() {
    assert_eq!(dedup_alphabet("abcabcd").symbols, vec!['a', 'b', 'c', 'd']);
    assert_eq!(dedup_alphabet("").symbols, Vec::<char>::new());
    assert_eq!(dedup_alphabet("zzz").symbols, vec!['z']);
    let mixed = dedup_alphabet("éaé€");
    assert_eq!(mixed.symbols, vec!['é', 'a', '€']);
    assert_eq!(mixed.encodings, vec!["é".as_bytes().to_vec(), b"a".to_vec(), "€".as_bytes().to_vec()]);
}

#[test]
fn two_segment_token_is_a_format_error() {
    let token = format!("{}.{}", b64(HEADER_HS256.as_bytes()), b64(PAYLOAD.as_bytes()));
    assert_eq!(crack_dictionary(&token, &words(&["a"])).unwrap_err(), CrackError::TokenFormatError);
    assert_eq!(crack_bruteforce(&token, "ab", 2).unwrap_err(), CrackError::TokenFormatError);
}

#[test]
fn bad_segments_are_format_errors() {
    let good = sign(HEADER_HS256, b"k");
    assert_eq!(decompose(&format!("{}.x", good)).unwrap_err(), CrackError::TokenFormatError);
    assert_eq!(decompose("a!b.c.d").unwrap_err(), CrackError::TokenFormatError);
    let not_json = format!("{}.{}.{}", b64(b"nope"), b64(PAYLOAD.as_bytes()), b64(b"sig"));
    assert_eq!(decompose(&not_json).unwrap_err(), CrackError::TokenFormatError);
    let no_alg = format!("{}.{}.{}", b64(br#"{"typ":"JWT"}"#), b64(PAYLOAD.as_bytes()), b64(b"sig"));
    assert_eq!(decompose(&no_alg).unwrap_err(), CrackError::TokenFormatError);
    assert_eq!(decompose("").unwrap_err(), CrackError::TokenFormatError);
}

#[test]
fn asymmetric_algorithm_is_unsupported() {
    for alg in ["RS256", "ES256", "none", "hs256"] {
        let header = format!(r#"{{"alg":"{}"}}"#, alg);
        let token = format!("{}.{}.{}", b64(header.as_bytes()), b64(PAYLOAD.as_bytes()), b64(b"sig"));
        assert_eq!(decompose(&token).unwrap_err(), CrackError::UnsupportedAlgorithm);
        assert_eq!(crack_bruteforce(&token, "ab", 1).unwrap_err(), CrackError::UnsupportedAlgorithm);
    }
}

#[test]
fn decompose_keeps_signing_input_and_decodes_signature() {
    let token = sign(HEADER_HS256, b"s3cr3t");
    let tk = decompose(&token).unwrap();
    let cut = token.rfind('.').unwrap();
    assert_eq!(tk.signing_input, token.as_bytes()[..cut].to_vec());
    assert_eq!(tk.algorithm, Algorithm::HS256);
    assert_eq!(tk.signature.len(), 32);
    assert_eq!(b64(&tk.signature), token[cut + 1..].to_string());
}

#[test]
fn every_hmac_variant_is_checked() {
    for (header, alg, len) in [
        (r#"{"alg":"HS256"}"#, Algorithm::HS256, 32),
        (r#"{"alg":"HS384"}"#, Algorithm::HS384, 48),
        (r#"{"alg":"HS512"}"#, Algorithm::HS512, 64),
    ] {
        let token = sign(header, b"key");
        let tk = decompose(&token).unwrap();
        assert_eq!(tk.algorithm, alg);
        assert_eq!(tk.signature.len(), len);
        assert!(verify_candidate(&tk, b"key"));
        assert!(!verify_candidate(&tk, b"kez"));
        assert_eq!(verify_secret(&token, "key"), Ok(true));
        assert_eq!(verify_secret(&token, "other"), Ok(false));
        let r = crack_dictionary(&token, &words(&["x", "key"])).unwrap();
        assert_eq!(found(&r.outcome), Some(b"key".to_vec()));
    }
}

#[test]
fn mac_matches_known_vector() {
    // RFC 4231, test case 2.
    let tag = mac(Algorithm::HS256, b"Jefe", b"what do ya want for nothing?");
    let hex: String = tag.iter().map(|b| format!("{:02x}", b)).collect();
    assert_eq!(hex, "5bdcc146bf60754e6a042426089575c75a003f089d2739839dec58b964ec3843");
}

#[test]
fn fixed_time_comparison() {
    assert!(fixed_time_eq(b"abc", b"abc"));
    assert!(!fixed_time_eq(b"abc", b"abd"));
    assert!(!fixed_time_eq(b"abc", b"ab"));
    assert!(fixed_time_eq(b"", b""));
}

#[test]
fn wordlist_lines_become_candidates() {
    assert_eq!(candidate_from_line(b"secret\n"), Some(b"secret".to_vec()));
    assert_eq!(candidate_from_line(b"secret\r\n"), Some(b"secret".to_vec()));
    assert_eq!(candidate_from_line(b"secret"), Some(b"secret".to_vec()));
    assert_eq!(candidate_from_line(b" spaced \n"), Some(b" spaced ".to_vec()));
    assert_eq!(candidate_from_line(b"\n"), None);
    assert_eq!(candidate_from_line(b"\r\n"), None);
    assert_eq!(candidate_from_line(b""), None);
}

#[test]
fn bruteforce_works_on_characters_not_bytes() {
    let token = sign(HEADER_HS256, "é".as_bytes());
    let r = crack_bruteforce(&token, "é", 1).unwrap();
    assert_eq!(found(&r.outcome), Some("é".as_bytes().to_vec()));
    assert_eq!(r.attempts, 1);
    let token = sign(HEADER_HS256, "aé".as_bytes());
    let r = crack_bruteforce(&token, "éa", 2).unwrap();
    assert_eq!(found(&r.outcome), Some("aé".as_bytes().to_vec()));
    assert_eq!(r.attempts, 2 + 2 + 1);
    let other = sign(HEADER_HS256, b"zz");
    let r = crack_bruteforce(&other, "éé", 2).unwrap();
    assert!(found(&r.outcome).is_none());
    assert_eq!(r.attempts, 2);
    let alpha = dedup_alphabet("é€");
    assert_eq!(word_at(&alpha, 3), "é€".as_bytes().to_vec());
}

fn job(token: &str, mode: CrackMode, workers: Workers) -> CrackJob {
    CrackJob { token: token.to_string(), mode, workers, verbose: false }
}

#[test]
fn run_job_in_both_modes() {
    let token = sign(HEADER_HS256, b"s3cr3t");
    let list = words(&["wrong1", "s3cr3t", "wrong2"]);
    for workers in [Workers::Fixed(1), Workers::Fixed(4), Workers::AllCores] {
        let d = job(&token, CrackMode::Dictionary { wordlist: "w.txt".to_string() }, workers);
        let r = run_job(&d, &list).unwrap();
        assert_eq!(found(&r.outcome), Some(b"s3cr3t".to_vec()));
        assert_eq!(r.attempts, 2);
    }
    let b = job(&token, CrackMode::Bruteforce { chars: "st".to_string(), max: 2 }, Workers::Fixed(4));
    let r = run_job(&b, &Vec::new()).unwrap();
    assert!(found(&r.outcome).is_none());
    assert_eq!(r.attempts, 6);
}

#[test]
fn run_job_rejects_oversized_keyspace_and_bad_tokens() {
    let token = sign(HEADER_HS256, b"s3cr3t");
    let big = job(&token, CrackMode::Bruteforce { chars: "abcdefghijklmnopqrstuvwxyz0123456789".to_string(), max: 20 }, Workers::AllCores);
    assert_eq!(run_job(&big, &Vec::new()).unwrap_err(), CrackError::KeyspaceTooLarge);
    let bad = job("a.b", CrackMode::Bruteforce { chars: "ab".to_string(), max: 50 }, Workers::AllCores);
    assert_eq!(run_job(&bad, &Vec::new()).unwrap_err(), CrackError::TokenFormatError);
    let bad_dict = job("a.b", CrackMode::Dictionary { wordlist: "w".to_string() }, Workers::Fixed(1));
    assert_eq!(run_job(&bad_dict, &words(&["x"])).unwrap_err(), CrackError::TokenFormatError);
}
