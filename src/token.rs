//! Splitting a compact JWS token into what the signature oracle needs.
use vstd::prelude::*;
use vstd::string::StringSliceAdditionalSpecFns;

use base64::Engine;

use crate::bytes::{copy_range, fixed_time_eq};

verus! {

/// What `base64`'s URL-safe, unpadded engine decodes from the given text
/// (`None` where the text is not valid in that encoding).
pub uninterp spec fn b64url_decoded(text: Seq<u8>) -> Option<Seq<u8>>;

/// The bytes of the string that the JSON document `doc` holds under the
/// key `alg` (`None` where `doc` is no JSON object or holds no such string).
pub uninterp spec fn json_alg_of(doc: Seq<u8>) -> Option<Seq<u8>>;

/// Relies on `base64::engine::general_purpose::URL_SAFE_NO_PAD.decode`:
/// the decoded bytes, or an error on text outside the encoding.
#[verifier::external_body]
fn decode_segment(text: &[u8]) -> (r: Option<Vec<u8>>)
    ensures
        match r {
            Some(v) => b64url_decoded(text@) == Some(v@),
            None => b64url_decoded(text@) is None,
        },
{
    base64::engine::general_purpose::URL_SAFE_NO_PAD.decode(text).ok()
}

/// Relies on `serde_json::from_slice` into a `serde_json::Value`, then
/// `Value::get("alg")` and `Value::as_str`: the declared algorithm name.
#[verifier::external_body]
fn header_alg(doc: &[u8]) -> (r: Option<Vec<u8>>)
    ensures
        match r {
            Some(v) => json_alg_of(doc@) == Some(v@),
            None => json_alg_of(doc@) is None,
        },
{
    match serde_json::from_slice::<serde_json::Value>(doc) {
        Ok(v) => v.get("alg").and_then(serde_json::Value::as_str).map(|s| s.as_bytes().to_vec()),
        Err(_) => None,
    }
}

/// The HMAC variants whose secret can be searched for.
#[derive(Clone, Copy, Debug, PartialEq, Eq, Structural)]
pub enum Algorithm {
    HS256,
    HS384,
    HS512,
}

/// Why a token or a request was turned down before any candidate was tried.
#[derive(Clone, Copy, Debug, PartialEq, Eq, Structural)]
pub enum CrackError {
    /// Not three dot-separated base64url segments, or a header without `alg`.
    TokenFormatError,
    /// The header declares an algorithm other than HS256, HS384 or HS512.
    UnsupportedAlgorithm,
    /// The wordlist could not be opened or read.
    SourceError,
    /// The brute-force keyspace has more than `usize::MAX` candidates.
    KeyspaceTooLarge,
}

/// A decoded token: the bytes that were signed, the declared algorithm and
/// the signature bytes.
#[derive(Debug)]
pub struct Token {
    pub signing_input: Vec<u8>,
    pub algorithm: Algorithm,
    pub signature: Vec<u8>,
}

/// A token as the proofs see it.
pub struct TokenView {
    pub algorithm: Algorithm,
    pub signing_input: Seq<u8>,
    pub signature: Seq<u8>,
}

impl View for Token {
    type V = TokenView;

    open spec fn view(&self) -> TokenView {
        TokenView {
            algorithm: self.algorithm,
            signing_input: self.signing_input@,
            signature: self.signature@,
        }
    }
}

pub open spec fn is_dot(b: u8) -> bool {
    b == 46u8
}

/// The positions of the dots of `s`, in increasing order.
pub open spec fn dot_positions(s: Seq<u8>) -> Seq<int>
    decreases s.len(),
{
    if s.len() == 0 {
        seq![]
    } else if is_dot(s.last()) {
        dot_positions(s.drop_last()).push(s.len() - 1)
    } else {
        dot_positions(s.drop_last())
    }
}

/// The name an algorithm carries in a token header.
pub open spec fn alg_name(a: Algorithm) -> Seq<u8> {
    match a {
        Algorithm::HS256 => seq![72u8, 83u8, 50u8, 53u8, 54u8],
        Algorithm::HS384 => seq![72u8, 83u8, 51u8, 56u8, 52u8],
        Algorithm::HS512 => seq![72u8, 83u8, 53u8, 49u8, 50u8],
    }
}

/// The supported algorithm with the given header name, if any.
pub open spec fn alg_of_name(n: Seq<u8>) -> Option<Algorithm> {
    if n == alg_name(Algorithm::HS256) {
        Some(Algorithm::HS256)
    } else if n == alg_name(Algorithm::HS384) {
        Some(Algorithm::HS384)
    } else if n == alg_name(Algorithm::HS512) {
        Some(Algorithm::HS512)
    } else {
        None
    }
}

/// The three segments of a token with exactly two dots.
pub open spec fn header_seg(t: Seq<u8>) -> Seq<u8> {
    t.subrange(0, dot_positions(t)[0])
}

pub open spec fn payload_seg(t: Seq<u8>) -> Seq<u8> {
    t.subrange(dot_positions(t)[0] + 1, dot_positions(t)[1])
}

pub open spec fn signature_seg(t: Seq<u8>) -> Seq<u8> {
    t.subrange(dot_positions(t)[1] + 1, t.len() as int)
}

/// A token is well-formed when it has three segments that all decode and a
/// header that names an algorithm.
pub open spec fn well_formed(t: Seq<u8>) -> bool {
    &&& dot_positions(t).len() == 2
    &&& b64url_decoded(header_seg(t)) is Some
    &&& b64url_decoded(payload_seg(t)) is Some
    &&& b64url_decoded(signature_seg(t)) is Some
    &&& json_alg_of(b64url_decoded(header_seg(t))->0) is Some
}

/// The algorithm name declared by a well-formed token.
pub open spec fn declared_alg(t: Seq<u8>) -> Seq<u8> {
    json_alg_of(b64url_decoded(header_seg(t))->0)->0
}

/// The signing input of a token: everything before its second dot.
pub open spec fn signing_input_of(t: Seq<u8>) -> Seq<u8> {
    t.subrange(0, dot_positions(t)[1])
}

/// A token is accepted when it is well-formed and declares a supported
/// algorithm.
pub open spec fn accepted(t: Seq<u8>) -> bool {
    well_formed(t) && alg_of_name(declared_alg(t)) is Some
}

/// What an accepted token decodes to.
pub open spec fn token_view_of(t: Seq<u8>) -> TokenView {
    TokenView {
        algorithm: alg_of_name(declared_alg(t))->0,
        signing_input: signing_input_of(t),
        signature: b64url_decoded(signature_seg(t))->0,
    }
}

/// The error a token that is not accepted is turned down with.
pub open spec fn rejection_of(t: Seq<u8>) -> CrackError {
    if !well_formed(t) {
        CrackError::TokenFormatError
    } else {
        CrackError::UnsupportedAlgorithm
    }
}

proof fn lemma_dot_positions_bounded(s: Seq<u8>)
    ensures
        forall|k: int| 0 <= k < dot_positions(s).len() ==> 0 <= #[trigger] dot_positions(s)[k] < s.len(),
        forall|k: int, l: int| 0 <= k < l < dot_positions(s).len() ==> dot_positions(s)[k] < dot_positions(s)[l],
    decreases s.len(),
{
    if s.len() > 0 {
        let p = dot_positions(s.drop_last());
        lemma_dot_positions_bounded(s.drop_last());
        if is_dot(s.last()) {
            let q = p.push(s.len() - 1);
            assert(dot_positions(s) == q);
            assert forall|k: int| 0 <= k < q.len() implies 0 <= #[trigger] q[k] < s.len() by {
                if k < p.len() {
                    assert(q[k] == p[k]);
                }
            }
            assert forall|k: int, l: int| 0 <= k < l < q.len() implies q[k] < q[l] by {
                assert(q[k] == p[k]);
                if l < p.len() {
                    assert(q[l] == p[l]);
                }
            }
        }
    }
}

/// Finds the dots of `t`: their count, and the first two positions.
fn scan_dots(t: &[u8]) -> (r: (usize, usize, usize))
    ensures
        r.0 == dot_positions(t@).len(),
        r.0 >= 1 ==> r.1 == dot_positions(t@)[0],
        r.0 >= 2 ==> r.2 == dot_positions(t@)[1],
{
    let mut count: usize = 0;
    let mut first: usize = 0;
    let mut second: usize = 0;
    let mut k: usize = 0;
    while k < t.len()
        invariant
            k <= t@.len(),
            count == dot_positions(t@.take(k as int)).len(),
            count <= k,
            count >= 1 ==> first == dot_positions(t@.take(k as int))[0],
            count >= 2 ==> second == dot_positions(t@.take(k as int))[1],
        decreases t@.len() - k,
    {
        assert(t@.take(k + 1).drop_last() =~= t@.take(k as int));
        if t[k] == 46u8 {
            if count == 0 {
                first = k;
            } else if count == 1 {
                second = k;
            }
            count = count + 1;
        }
        k = k + 1;
    }
    assert(t@.take(t@.len() as int) =~= t@);
    (count, first, second)
}

/// Splits and decodes a token.
pub fn decompose(token: &str) -> (r: Result<Token, CrackError>)
    ensures
        match r {
            Ok(tk) => accepted(token.spec_bytes()) && tk@ == token_view_of(token.spec_bytes()),
            Err(e) => !accepted(token.spec_bytes()) && e == rejection_of(token.spec_bytes()),
        },
{
    let t: &[u8] = token.as_bytes();
    let n: usize = t.len();
    let (count, first, second) = scan_dots(t);
    if count != 2 {
        return Err(CrackError::TokenFormatError);
    }
    proof {
        lemma_dot_positions_bounded(t@);
        assert(dot_positions(t@)[0] < dot_positions(t@)[1] < t@.len());
    }
    let header_text = copy_range(t, 0, first);
    let payload_text = copy_range(t, first + 1, second);
    let signature_text = copy_range(t, second + 1, n);
    let header = match decode_segment(header_text.as_slice()) {
        Some(h) => h,
        None => return Err(CrackError::TokenFormatError),
    };
    if decode_segment(payload_text.as_slice()).is_none() {
        return Err(CrackError::TokenFormatError);
    }
    let signature = match decode_segment(signature_text.as_slice()) {
        Some(s) => s,
        None => return Err(CrackError::TokenFormatError),
    };
    let name = match header_alg(header.as_slice()) {
        Some(n) => n,
        None => return Err(CrackError::TokenFormatError),
    };
    let algorithm = match algorithm_named(name.as_slice()) {
        Some(a) => a,
        None => return Err(CrackError::UnsupportedAlgorithm),
    };
    let signing_input = copy_range(t, 0, second);
    Ok(Token { signing_input, algorithm, signature })
}

/// The supported algorithm that a header names, if any.
pub fn algorithm_named(name: &[u8]) -> (r: Option<Algorithm>)
    ensures
        r == alg_of_name(name@),
{
    let hs256: [u8; 5] = [72u8, 83u8, 50u8, 53u8, 54u8];
    let hs384: [u8; 5] = [72u8, 83u8, 51u8, 56u8, 52u8];
    let hs512: [u8; 5] = [72u8, 83u8, 53u8, 49u8, 50u8];
    assert(hs256@ =~= alg_name(Algorithm::HS256));
    assert(hs384@ =~= alg_name(Algorithm::HS384));
    assert(hs512@ =~= alg_name(Algorithm::HS512));
    if fixed_time_eq(name, hs256.as_slice()) {
        Some(Algorithm::HS256)
    } else if fixed_time_eq(name, hs384.as_slice()) {
        Some(Algorithm::HS384)
    } else if fixed_time_eq(name, hs512.as_slice()) {
        Some(Algorithm::HS512)
    } else {
        None
    }
}

} // verus!
