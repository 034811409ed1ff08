//! The search itself: candidates are tried in order until one reproduces the
//! token's signature or none is left.
use vstd::prelude::*;

use crate::keyspace::{
    candidates, dedup, dedup_alphabet, index_of, keyspace_len, keyspace_size, lemma_dedup_contains, lemma_empty_alphabet,
    lemma_index_of, lemma_keyspace_monotone, lemma_nth_word_in_bound, nth_word, word_at, Alphabet,
};
use vstd::utf8::encode_utf8;

use crate::cli::{CrackJob, CrackMode, Workers};
use crate::oracle::{confirms, verify_candidate};
use crate::token::{accepted, decompose, rejection_of, token_view_of, CrackError, Token, TokenView};
use vstd::string::StringSliceAdditionalSpecFns;

verus! {

/// How a search ended.
#[derive(Debug)]
pub enum Outcome {
    /// A candidate that reproduces the signature.
    Found(Vec<u8>),
    /// Every candidate was tried and none matched.
    Exhausted,
}

/// The outcome of a search with the number of candidates tried.
#[derive(Debug)]
pub struct CrackResult {
    pub outcome: Outcome,
    pub attempts: usize,
}

/// The secret an outcome reports, if any.
pub open spec fn found_of(o: &Outcome) -> Option<Seq<u8>> {
    match o {
        Outcome::Found(w) => Some(w@),
        Outcome::Exhausted => None,
    }
}

/// The candidates of a list, as byte strings.
pub open spec fn views(words: Seq<Vec<u8>>) -> Seq<Seq<u8>> {
    Seq::new(words.len(), |i: int| words[i]@)
}

/// `words[i]` is the first candidate that the token confirms.
pub open spec fn is_first_match(tk: TokenView, words: Seq<Seq<u8>>, i: int) -> bool {
    &&& 0 <= i < words.len()
    &&& confirms(tk, words[i])
    &&& forall|j: int| 0 <= j < i ==> !confirms(tk, #[trigger] words[j])
}

/// What a search of `words` in order reports: the first confirmed candidate
/// after as many attempts as its position plus one, or no secret after
/// trying every candidate.
pub open spec fn search_reports(tk: TokenView, words: Seq<Seq<u8>>, found: Option<Seq<u8>>, attempts: nat) -> bool {
    match found {
        Some(w) => attempts >= 1 && is_first_match(tk, words, attempts - 1) && w == words[attempts - 1],
        None => attempts == words.len() && forall|j: int| 0 <= j < words.len() ==> !confirms(tk, #[trigger] words[j]),
    }
}

/// Tries the candidates of a list in order.
pub fn search_words(tk: &Token, words: &Vec<Vec<u8>>) -> (r: CrackResult)
    ensures
        search_reports(tk@, views(words@), found_of(&r.outcome), r.attempts as nat),
{
    let ghost ws = views(words@);
    let mut i: usize = 0;
    while i < words.len()
        invariant
            i <= words@.len(),
            ws == views(words@),
            forall|j: int| 0 <= j < i ==> !confirms(tk@, #[trigger] ws[j]),
        decreases words@.len() - i,
    {
        if verify_candidate(tk, words[i].as_slice()) {
            let w = words[i].clone();
            assert(w@ == ws[i as int]);
            return CrackResult { outcome: Outcome::Found(w), attempts: i + 1 };
        }
        i = i + 1;
    }
    CrackResult { outcome: Outcome::Exhausted, attempts: i }
}

/// Tries every candidate of the enumeration over `alpha` up to length
/// `max`, whose size is `total`.
pub fn search_keyspace(tk: &Token, alpha: &Alphabet, max: usize, total: usize) -> (r: CrackResult)
    requires
        alpha.wf(),
        alpha.symbols@.len() >= 1,
        total == keyspace_size(alpha.symbols@.len(), max as nat),
    ensures
        search_reports(tk@, candidates(alpha.symbols@, max as nat), found_of(&r.outcome), r.attempts as nat),
{
    let ghost ws = candidates(alpha.symbols@, max as nat);
    let mut g: usize = 0;
    while g < total
        invariant
            g <= total,
            total == ws.len(),
            ws == candidates(alpha.symbols@, max as nat),
            alpha.wf(),
            alpha.symbols@.len() >= 1,
            forall|j: int| 0 <= j < g ==> !confirms(tk@, #[trigger] ws[j]),
        decreases total - g,
    {
        let w = word_at(alpha, g);
        assert(w@ == ws[g as int]);
        if verify_candidate(tk, w.as_slice()) {
            return CrackResult { outcome: Outcome::Found(w), attempts: g + 1 };
        }
        g = g + 1;
    }
    CrackResult { outcome: Outcome::Exhausted, attempts: g }
}

/// Dictionary mode: decodes the token, then tries the words in order.
pub fn crack_dictionary(token: &str, words: &Vec<Vec<u8>>) -> (r: Result<CrackResult, CrackError>)
    ensures
        match r {
            Ok(res) => {
                &&& accepted(token.spec_bytes())
                &&& search_reports(
                    token_view_of(token.spec_bytes()),
                    views(words@),
                    found_of(&res.outcome),
                    res.attempts as nat,
                )
            },
            Err(e) => !accepted(token.spec_bytes()) && e == rejection_of(token.spec_bytes()),
        },
{
    let tk = decompose(token)?;
    Ok(search_words(&tk, words))
}

/// Brute-force mode over the strings of the characters of `chars` (repeats
/// dropped) up to length `max`. The keyspace size must fit in a `usize`.
pub fn crack_bruteforce(token: &str, chars: &str, max: usize) -> (r: Result<CrackResult, CrackError>)
    requires
        keyspace_size(dedup(chars@).len(), max as nat) <= usize::MAX,
    ensures
        match r {
            Ok(res) => {
                &&& accepted(token.spec_bytes())
                &&& search_reports(
                    token_view_of(token.spec_bytes()),
                    candidates(dedup(chars@), max as nat),
                    found_of(&res.outcome),
                    res.attempts as nat,
                )
            },
            Err(e) => !accepted(token.spec_bytes()) && e == rejection_of(token.spec_bytes()),
        },
{
    let tk = decompose(token)?;
    let alpha = dedup_alphabet(chars);
    let total = match keyspace_len(alpha.symbols.len(), max) {
        Some(k) => k,
        // ruled out by the precondition
        None => {
            return Ok(CrackResult { outcome: Outcome::Exhausted, attempts: 0 });
        },
    };
    if alpha.symbols.len() == 0 {
        proof {
            lemma_empty_alphabet(max as nat);
        }
        return Ok(CrackResult { outcome: Outcome::Exhausted, attempts: 0 });
    }
    Ok(search_keyspace(&tk, &alpha, max, total))
}

/// `line` without its trailing line terminators (`\n` and `\r`).
pub open spec fn strip_terminators(line: Seq<u8>) -> Seq<u8>
    decreases line.len(),
{
    if line.len() > 0 && (line.last() == 10u8 || line.last() == 13u8) {
        strip_terminators(line.drop_last())
    } else {
        line
    }
}

/// The candidate a wordlist line holds: the line without its terminators,
/// or `None` for a line that is then empty.
pub fn candidate_from_line(line: &[u8]) -> (r: Option<Vec<u8>>)
    ensures
        match r {
            Some(w) => w@ == strip_terminators(line@) && w@.len() > 0,
            None => strip_terminators(line@).len() == 0,
        },
{
    let mut end: usize = line.len();
    assert(line@.take(end as int) =~= line@);
    while end > 0 && (line[end - 1] == 10u8 || line[end - 1] == 13u8)
        invariant
            end <= line@.len(),
            strip_terminators(line@) == strip_terminators(line@.take(end as int)),
        decreases end,
    {
        assert(line@.take(end as int).drop_last() =~= line@.take(end - 1));
        end = end - 1;
    }
    if end == 0 {
        assert(line@.take(0) =~= Seq::<u8>::empty());
        return None;
    }
    let w = crate::bytes::copy_range(line, 0, end);
    assert(w@ =~= line@.take(end as int));
    Some(w)
}

/// Checks one secret against a token.
pub fn verify_secret(token: &str, secret: &str) -> (r: Result<bool, CrackError>)
    ensures
        match r {
            Ok(b) => accepted(token.spec_bytes()) && b == confirms(token_view_of(token.spec_bytes()), secret.spec_bytes()),
            Err(e) => !accepted(token.spec_bytes()) && e == rejection_of(token.spec_bytes()),
        },
{
    let tk = decompose(token)?;
    Ok(verify_candidate(&tk, secret.as_bytes()))
}

/// The candidates a crack request searches, in order: the wordlist's
/// candidates in dictionary mode, the brute-force enumeration otherwise.
pub open spec fn job_candidates(job: &CrackJob, words: Seq<Vec<u8>>) -> Seq<Seq<u8>> {
    match job.mode {
        CrackMode::Dictionary { .. } => views(words),
        CrackMode::Bruteforce { chars, max } => candidates(dedup(chars@), max as nat),
    }
}

/// Runs a validated crack request. In dictionary mode `words` are the
/// wordlist's candidates in file order; brute-force mode ignores them. The
/// result depends on the token, the mode and the candidates alone, not on
/// the worker count.
pub fn run_job(job: &CrackJob, words: &Vec<Vec<u8>>) -> (r: Result<CrackResult, CrackError>)
    ensures
        match r {
            Ok(res) => accepted(encode_utf8(job.token@)) && search_reports(
                token_view_of(encode_utf8(job.token@)),
                job_candidates(job, words@),
                found_of(&res.outcome),
                res.attempts as nat,
            ),
            Err(CrackError::KeyspaceTooLarge) => match job.mode {
                CrackMode::Bruteforce { chars, max } => accepted(encode_utf8(job.token@))
                    && keyspace_size(dedup(chars@).len(), max as nat) > usize::MAX,
                CrackMode::Dictionary { .. } => false,
            },
            Err(e) => !accepted(encode_utf8(job.token@)) && e == rejection_of(encode_utf8(job.token@)),
        },
{
    match &job.mode {
        CrackMode::Dictionary { .. } => crack_dictionary(job.token.as_str(), words),
        CrackMode::Bruteforce { chars, max } => {
            decompose(job.token.as_str())?;
            let alpha = dedup_alphabet(chars.as_str());
            if keyspace_len(alpha.symbols.len(), *max).is_none() {
                return Err(CrackError::KeyspaceTooLarge);
            }
            crack_bruteforce(job.token.as_str(), chars.as_str(), *max)
        },
    }
}

/// A search reports one thing only: given the token and the candidates in
/// order, the reported secret and the attempt count are determined.
pub proof fn lemma_search_deterministic(
    tk: TokenView,
    words: Seq<Seq<u8>>,
    found1: Option<Seq<u8>>,
    attempts1: nat,
    found2: Option<Seq<u8>>,
    attempts2: nat,
)
    requires
        search_reports(tk, words, found1, attempts1),
        search_reports(tk, words, found2, attempts2),
    ensures
        found1 == found2,
        attempts1 == attempts2,
{
    match (found1, found2) {
        (Some(_), Some(_)) => {
            let i = attempts1 - 1;
            let j = attempts2 - 1;
            if i < j {
                assert(!confirms(tk, words[i]));
            } else if j < i {
                assert(!confirms(tk, words[j]));
            }
        },
        (Some(_), None) => {
            assert(!confirms(tk, words[attempts1 - 1]));
        },
        (None, Some(_)) => {
            assert(!confirms(tk, words[attempts2 - 1]));
        },
        (None, None) => {},
    }
}

/// A secret that the token confirms and that no other candidate rivals is
/// reported whenever it is among the candidates.
pub proof fn lemma_found_when_listed(
    tk: TokenView,
    words: Seq<Seq<u8>>,
    secret: Seq<u8>,
    found: Option<Seq<u8>>,
    attempts: nat,
)
    requires
        confirms(tk, secret),
        words.contains(secret),
        forall|i: int| 0 <= i < words.len() && confirms(tk, #[trigger] words[i]) ==> words[i] == secret,
        search_reports(tk, words, found, attempts),
    ensures
        found == Some(secret),
{
    let k = choose|k: int| 0 <= k < words.len() && words[k] == secret;
    if found is None {
        assert(!confirms(tk, words[k]));
    }
}

/// When no candidate is confirmed, the search reports no secret after
/// trying every candidate.
pub proof fn lemma_exhausted_when_absent(
    tk: TokenView,
    words: Seq<Seq<u8>>,
    found: Option<Seq<u8>>,
    attempts: nat,
)
    requires
        forall|i: int| 0 <= i < words.len() ==> !confirms(tk, #[trigger] words[i]),
        search_reports(tk, words, found, attempts),
    ensures
        found is None,
        attempts == words.len(),
{
    if found is Some {
        assert(confirms(tk, words[attempts - 1]));
    }
}

/// Dictionary mode finds a listed secret that no other listed word rivals.
pub proof fn lemma_dictionary_finds_secret(token: Seq<u8>, words: Seq<Seq<u8>>, secret: Seq<u8>, res: CrackResult)
    requires
        accepted(token),
        confirms(token_view_of(token), secret),
        words.contains(secret),
        forall|i: int| 0 <= i < words.len() && confirms(token_view_of(token), #[trigger] words[i]) ==> words[i] == secret,
        search_reports(token_view_of(token), words, found_of(&res.outcome), res.attempts as nat),
    ensures
        found_of(&res.outcome) == Some(secret),
{
    lemma_found_when_listed(token_view_of(token), words, secret, found_of(&res.outcome), res.attempts as nat);
}

/// Brute-force mode finds a secret of 1 through `max` characters, all from
/// the alphabet, when no other candidate of the keyspace rivals it.
pub proof fn lemma_bruteforce_finds_secret(
    tk: TokenView,
    chars: Seq<char>,
    max: nat,
    secret: Seq<char>,
    found: Option<Seq<u8>>,
    attempts: nat,
)
    requires
        1 <= secret.len() <= max,
        forall|k: int| 0 <= k < secret.len() ==> chars.contains(#[trigger] secret[k]),
        confirms(tk, encode_utf8(secret)),
        forall|g: int|
            0 <= g < keyspace_size(dedup(chars).len(), max) && confirms(
                tk,
                #[trigger] encode_utf8(nth_word(dedup(chars), g as nat)),
            ) ==> nth_word(dedup(chars), g as nat) == secret,
        search_reports(tk, candidates(dedup(chars), max), found, attempts),
    ensures
        found == Some(encode_utf8(secret)),
{
    let alpha = dedup(chars);
    let ws = candidates(alpha, max);
    assert forall|k: int| 0 <= k < secret.len() implies alpha.contains(#[trigger] secret[k]) by {
        lemma_dedup_contains(chars, secret[k]);
    }
    lemma_index_of(alpha, secret);
    let g = index_of(alpha, secret);
    lemma_keyspace_monotone(alpha.len(), secret.len(), max);
    assert(ws[g as int] == encode_utf8(secret));
    assert forall|i: int| 0 <= i < ws.len() && confirms(tk, #[trigger] ws[i]) implies ws[i] == encode_utf8(secret) by {
        assert(ws[i] == encode_utf8(nth_word(alpha, i as nat)));
    }
    lemma_found_when_listed(tk, ws, encode_utf8(secret), found, attempts);
}

/// Brute-force mode without a match tries the whole keyspace, the sum of
/// `n^L` for `L` from 1 to `max`, `n` the number of distinct characters.
pub proof fn lemma_bruteforce_exhausts_keyspace(
    tk: TokenView,
    chars: Seq<char>,
    max: nat,
    found: Option<Seq<u8>>,
    attempts: nat,
)
    requires
        forall|g: int|
            0 <= g < keyspace_size(dedup(chars).len(), max) ==> !confirms(
                tk,
                #[trigger] encode_utf8(nth_word(dedup(chars), g as nat)),
            ),
        search_reports(tk, candidates(dedup(chars), max), found, attempts),
    ensures
        found is None,
        attempts == keyspace_size(dedup(chars).len(), max),
{
    let ws = candidates(dedup(chars), max);
    assert forall|i: int| 0 <= i < ws.len() implies !confirms(tk, #[trigger] ws[i]) by {
        assert(ws[i] == encode_utf8(nth_word(dedup(chars), i as nat)));
    }
    lemma_exhausted_when_absent(tk, ws, found, attempts);
}

/// Two runs of requests that differ at most in worker count and verbosity,
/// over the same candidates, report the same secret (or none) after the
/// same number of attempts.
pub proof fn lemma_job_outcome_ignores_workers(
    job1: &CrackJob,
    job2: &CrackJob,
    words: Seq<Vec<u8>>,
    found1: Option<Seq<u8>>,
    attempts1: nat,
    found2: Option<Seq<u8>>,
    attempts2: nat,
)
    requires
        job1.token@ == job2.token@,
        job_candidates(job1, words) == job_candidates(job2, words),
        search_reports(token_view_of(encode_utf8(job1.token@)), job_candidates(job1, words), found1, attempts1),
        search_reports(token_view_of(encode_utf8(job2.token@)), job_candidates(job2, words), found2, attempts2),
    ensures
        found1 == found2,
        attempts1 == attempts2,
{
    lemma_search_deterministic(
        token_view_of(encode_utf8(job1.token@)),
        job_candidates(job1, words),
        found1,
        attempts1,
        found2,
        attempts2,
    );
}

/// The candidates of a request do not depend on its worker count or
/// verbosity.
pub proof fn lemma_job_candidates_ignore_workers(job: &CrackJob, workers: Workers, verbose: bool, words: Seq<Vec<u8>>)
    ensures
        job_candidates(
            &CrackJob { token: job.token, mode: job.mode, workers, verbose },
            words,
        ) == job_candidates(job, words),
{
}

/// A secret that brute-force mode reports is the encoding of a string of 1
/// through `max` characters of the alphabet, at most the keyspace size
/// being tried.
pub proof fn lemma_bruteforce_found_is_candidate(
    tk: TokenView,
    chars: Seq<char>,
    max: nat,
    found: Seq<u8>,
    attempts: nat,
)
    requires
        search_reports(tk, candidates(dedup(chars), max), Some(found), attempts),
    ensures
        attempts <= keyspace_size(dedup(chars).len(), max),
        found == encode_utf8(nth_word(dedup(chars), (attempts - 1) as nat)),
        1 <= nth_word(dedup(chars), (attempts - 1) as nat).len() <= max,
        forall|k: int|
            0 <= k < nth_word(dedup(chars), (attempts - 1) as nat).len() ==> chars.contains(
                #[trigger] nth_word(dedup(chars), (attempts - 1) as nat)[k],
            ),
{
    let alpha = dedup(chars);
    let g = (attempts - 1) as nat;
    let w = nth_word(alpha, g);
    if alpha.len() == 0 {
        lemma_empty_alphabet(max);
    }
    lemma_nth_word_in_bound(alpha, max, g);
    assert forall|k: int| 0 <= k < w.len() implies chars.contains(#[trigger] w[k]) by {
        lemma_dedup_contains(chars, w[k]);
    }
}

} // verus!
