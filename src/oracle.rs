//! The signature oracle: does a candidate secret reproduce a token's signature?
use vstd::prelude::*;

use hmac::Mac;

use crate::bytes::fixed_time_eq;
use crate::token::{Algorithm, Token, TokenView};

verus! {

/// HMAC-SHA-256 of `msg` under `key`, as the `hmac` and `sha2` crates compute it.
pub uninterp spec fn hmac_sha256_of(key: Seq<u8>, msg: Seq<u8>) -> Seq<u8>;

/// HMAC-SHA-384 of `msg` under `key`, as the `hmac` and `sha2` crates compute it.
pub uninterp spec fn hmac_sha384_of(key: Seq<u8>, msg: Seq<u8>) -> Seq<u8>;

/// HMAC-SHA-512 of `msg` under `key`, as the `hmac` and `sha2` crates compute it.
pub uninterp spec fn hmac_sha512_of(key: Seq<u8>, msg: Seq<u8>) -> Seq<u8>;

/// Relies on `hmac::Hmac<sha2::Sha256>`: `new_from_slice` (which accepts a
/// key of any length), `update` and `finalize`; the tag is 32 bytes.
#[verifier::external_body]
fn hmac_sha256(key: &[u8], msg: &[u8]) -> (r: Vec<u8>)
    ensures
        r@ == hmac_sha256_of(key@, msg@),
        r@.len() == 32,
{
    let mut m = hmac::Hmac::<sha2::Sha256>::new_from_slice(key).expect("HMAC accepts any key length");
    m.update(msg);
    m.finalize().into_bytes().to_vec()
}

/// Relies on `hmac::Hmac<sha2::Sha384>`: `new_from_slice` (which accepts a
/// key of any length), `update` and `finalize`; the tag is 48 bytes.
#[verifier::external_body]
fn hmac_sha384(key: &[u8], msg: &[u8]) -> (r: Vec<u8>)
    ensures
        r@ == hmac_sha384_of(key@, msg@),
        r@.len() == 48,
{
    let mut m = hmac::Hmac::<sha2::Sha384>::new_from_slice(key).expect("HMAC accepts any key length");
    m.update(msg);
    m.finalize().into_bytes().to_vec()
}

/// Relies on `hmac::Hmac<sha2::Sha512>`: `new_from_slice` (which accepts a
/// key of any length), `update` and `finalize`; the tag is 64 bytes.
#[verifier::external_body]
fn hmac_sha512(key: &[u8], msg: &[u8]) -> (r: Vec<u8>)
    ensures
        r@ == hmac_sha512_of(key@, msg@),
        r@.len() == 64,
{
    let mut m = hmac::Hmac::<sha2::Sha512>::new_from_slice(key).expect("HMAC accepts any key length");
    m.update(msg);
    m.finalize().into_bytes().to_vec()
}

/// The tag that `alg` computes over `msg` with `key`.
pub open spec fn mac_of(alg: Algorithm, key: Seq<u8>, msg: Seq<u8>) -> Seq<u8> {
    match alg {
        Algorithm::HS256 => hmac_sha256_of(key, msg),
        Algorithm::HS384 => hmac_sha384_of(key, msg),
        Algorithm::HS512 => hmac_sha512_of(key, msg),
    }
}

/// A candidate secret is confirmed when it reproduces the token's signature.
pub open spec fn confirms(tk: TokenView, candidate: Seq<u8>) -> bool {
    mac_of(tk.algorithm, candidate, tk.signing_input) == tk.signature
}

/// Computes the tag of `msg` under `key` with the given algorithm.
pub fn mac(alg: Algorithm, key: &[u8], msg: &[u8]) -> (r: Vec<u8>)
    ensures
        r@ == mac_of(alg, key@, msg@),
{
    match alg {
        Algorithm::HS256 => hmac_sha256(key, msg),
        Algorithm::HS384 => hmac_sha384(key, msg),
        Algorithm::HS512 => hmac_sha512(key, msg),
    }
}

/// Checks one candidate secret against a token, comparing the tags in
/// fixed time.
pub fn verify_candidate(tk: &Token, candidate: &[u8]) -> (r: bool)
    ensures
        r == confirms(tk@, candidate@),
{
    let tag = mac(tk.algorithm, candidate, tk.signing_input.as_slice());
    tag_matches(tk, tag.as_slice())
}

/// Checks a tag already computed with `mac` against a token's signature.
pub fn tag_matches(tk: &Token, tag: &[u8]) -> (r: bool)
    ensures
        r == (tag@ == tk.signature@),
{
    fixed_time_eq(tag, tk.signature.as_slice())
}

} // verus!
