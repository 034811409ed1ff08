//! The brute-force keyspace: every string over an alphabet of characters, of
//! length 1 up to a bound, shortest first and, within one length, in counter
//! order. A candidate is the UTF-8 encoding of such a string.
use vstd::prelude::*;

use vstd::arithmetic::power::pow;
use vstd::string::{StrSliceExecFns, StringSliceAdditionalSpecFns};
use vstd::utf8::encode_utf8;

use crate::bytes::copy_range;

verus! {

/// `s` with every repeated byte dropped, first occurrences kept in order.
pub open spec fn dedup(s: Seq<char>) -> Seq<char>
    decreases s.len(),
{
    if s.len() == 0 {
        seq![]
    } else if dedup(s.drop_last()).contains(s.last()) {
        dedup(s.drop_last())
    } else {
        dedup(s.drop_last()).push(s.last())
    }
}

/// The word at position `g` of the enumeration over `alpha`: the bijective
/// base-`n` numeral of `g + 1`, with `alpha[d]` standing for digit `d + 1`.
pub open spec fn nth_word(alpha: Seq<char>, g: nat) -> Seq<char>
    decreases g
    via nth_word_decreases
{
    let n = alpha.len();
    if n == 0 {
        seq![]
    } else if g < n {
        seq![alpha[g as int]]
    } else {
        nth_word(alpha, (g / n - 1) as nat).push(alpha[(g % n) as int])
    }
}

#[via_fn]
proof fn nth_word_decreases(alpha: Seq<char>, g: nat) {
    let n = alpha.len();
    if n != 0 && g >= n {
        vstd::arithmetic::div_mod::lemma_div_nonincreasing(g as int, n as int);
        vstd::arithmetic::div_mod::lemma_div_is_ordered(n as int, g as int, n as int);
        vstd::arithmetic::div_mod::lemma_div_by_self(n as int);
    }
}

/// The number of strings of length 1 through `max` over `n` symbols.
pub open spec fn keyspace_size(n: nat, max: nat) -> nat
    decreases max,
{
    if max == 0 {
        0
    } else {
        keyspace_size(n, (max - 1) as nat) + pow(n as int, max) as nat
    }
}

/// The whole enumeration, in order.
pub open spec fn enumeration(alpha: Seq<char>, max: nat) -> Seq<Seq<char>> {
    Seq::new(keyspace_size(alpha.len(), max), |g: int| nth_word(alpha, g as nat))
}

/// The candidates of the enumeration: the UTF-8 encoding of each word.
pub open spec fn candidates(alpha: Seq<char>, max: nat) -> Seq<Seq<u8>> {
    Seq::new(keyspace_size(alpha.len(), max), |g: int| encode_utf8(nth_word(alpha, g as nat)))
}

/// Encoding a concatenation concatenates the encodings.
pub proof fn lemma_encode_concat(a: Seq<char>, b: Seq<char>)
    ensures
        encode_utf8(a + b) == encode_utf8(a) + encode_utf8(b),
    decreases a.len(),
{
    if a.len() == 0 {
        assert(a + b =~= b);
        assert(encode_utf8(a) =~= Seq::<u8>::empty());
        assert(encode_utf8(a) + encode_utf8(b) =~= encode_utf8(b));
    } else {
        lemma_encode_concat(a.drop_first(), b);
        assert((a + b).drop_first() =~= a.drop_first() + b);
        assert((a + b)[0] == a[0]);
        let e0 = vstd::utf8::encode_scalar(a[0] as u32);
        assert(e0 + (encode_utf8(a.drop_first()) + encode_utf8(b)) =~= (e0 + encode_utf8(a.drop_first())) + encode_utf8(b));
    }
}

/// The position of a symbol in `alpha`.
pub open spec fn digit_of(alpha: Seq<char>, c: char) -> int {
    choose|i: int| 0 <= i < alpha.len() && alpha[i] == c
}

/// Where a word over `alpha` stands in the enumeration.
pub open spec fn index_of(alpha: Seq<char>, w: Seq<char>) -> nat
    decreases w.len(),
{
    if w.len() <= 1 {
        digit_of(alpha, w.last()) as nat
    } else {
        ((index_of(alpha, w.drop_last()) + 1) * alpha.len() + digit_of(alpha, w.last())) as nat
    }
}

proof fn lemma_pow_nonneg(n: nat, e: nat)
    ensures
        pow(n as int, e) >= 0,
{
    if n == 0 {
        if e == 0 {
            vstd::arithmetic::power::lemma_pow0(0);
        } else {
            vstd::arithmetic::power::lemma0_pow(e);
        }
    } else {
        vstd::arithmetic::power::lemma_pow_positive(n as int, e);
    }
}

/// `keyspace_size(n, L) == n * (keyspace_size(n, L - 1) + 1)`.
proof fn lemma_keyspace_step(n: nat, max: nat)
    requires
        max >= 1,
    ensures
        keyspace_size(n, max) == n * (keyspace_size(n, (max - 1) as nat) + 1),
    decreases max,
{
    vstd::arithmetic::power::lemma_pow_adds(n as int, 1, (max - 1) as nat);
    vstd::arithmetic::power::lemma_pow1(n as int);
    assert(pow(n as int, max) == n * pow(n as int, (max - 1) as nat));
    lemma_pow_nonneg(n, max);
    lemma_pow_nonneg(n, (max - 1) as nat);
    if max == 1 {
        assert(keyspace_size(n, 0) == 0);
        assert(pow(n as int, 0) == 1) by {
            vstd::arithmetic::power::lemma_pow0(n as int);
        }
    } else {
        lemma_keyspace_step(n, (max - 1) as nat);
        let k2 = keyspace_size(n, (max - 2) as nat);
        let p = pow(n as int, (max - 1) as nat);
        assert(n * (k2 + p + 1) == n * (k2 + 1) + n * p) by (nonlinear_arith);
    }
}

/// Dropping repeats keeps exactly the symbols that occur.
pub proof fn lemma_dedup_contains(s: Seq<char>, c: char)
    ensures
        dedup(s).contains(c) <==> s.contains(c),
    decreases s.len(),
{
    if s.len() > 0 {
        let t = s.drop_last();
        lemma_dedup_contains(t, c);
        lemma_dedup_contains(t, s.last());
        if t.contains(c) {
            let k = choose|k: int| 0 <= k < t.len() && t[k] == c;
            assert(s[k] == c);
        }
        if s.contains(c) && c != s.last() {
            let k = choose|k: int| 0 <= k < s.len() && s[k] == c;
            assert(t[k] == c);
        }
        if !dedup(t).contains(s.last()) {
            let d = dedup(t).push(s.last());
            assert(d[d.len() - 1] == s.last());
            if dedup(t).contains(c) {
                let k = choose|k: int| 0 <= k < dedup(t).len() && dedup(t)[k] == c;
                assert(d[k] == c);
            }
            if d.contains(c) && c != s.last() {
                let k = choose|k: int| 0 <= k < d.len() && d[k] == c;
                assert(dedup(t)[k] == c);
            }
        }
        assert(s[s.len() - 1] == s.last());
    }
}

/// An empty alphabet spells no word.
pub proof fn lemma_empty_alphabet(max: nat)
    ensures
        keyspace_size(0, max) == 0,
{
    if max >= 1 {
        lemma_keyspace_step(0, max);
    }
}

/// The keyspace never shrinks as the bound grows.
pub proof fn lemma_keyspace_monotone(n: nat, a: nat, b: nat)
    requires
        a <= b,
    ensures
        keyspace_size(n, a) <= keyspace_size(n, b),
    decreases b,
{
    if a < b {
        lemma_keyspace_monotone(n, a, (b - 1) as nat);
        lemma_pow_nonneg(n, b);
    }
}

/// Every word of length 1 through `max` over `alpha` has a position in the
/// enumeration below the keyspace size, and the word found there is itself.
pub proof fn lemma_index_of(alpha: Seq<char>, w: Seq<char>)
    requires
        1 <= w.len(),
        forall|k: int| 0 <= k < w.len() ==> alpha.contains(#[trigger] w[k]),
    ensures
        index_of(alpha, w) < keyspace_size(alpha.len(), w.len()),
        nth_word(alpha, index_of(alpha, w)) == w,
    decreases w.len(),
{
    let n = alpha.len();
    assert(alpha.contains(w[w.len() - 1]));
    let d = digit_of(alpha, w.last());
    assert(0 <= d < n && alpha[d] == w.last());
    lemma_keyspace_step(n, w.len());
    if w.len() == 1 {
        assert(keyspace_size(n, 0) == 0);
        assert(index_of(alpha, w) == d);
        assert(n * (0nat + 1) == n) by (nonlinear_arith);
        assert(seq![alpha[d]] =~= w);
    } else {
        let u = w.drop_last();
        assert forall|k: int| 0 <= k < u.len() implies alpha.contains(#[trigger] u[k]) by {
            assert(u[k] == w[k]);
        }
        lemma_index_of(alpha, u);
        let i = index_of(alpha, u);
        let g = index_of(alpha, w);
        let ku = keyspace_size(n, u.len());
        assert(g == (i + 1) * n + d);
        assert(g >= n) by (nonlinear_arith)
            requires
                g == (i + 1) * n + d,
                d >= 0,
                i >= 0,
        ;
        vstd::arithmetic::div_mod::lemma_fundamental_div_mod_converse(g as int, n as int, (i + 1) as int, d);
        assert(g / n - 1 == i);
        assert(g % n == d);
        assert(nth_word(alpha, g) == nth_word(alpha, i).push(alpha[d]));
        assert(u.push(w.last()) =~= w);
        assert(g < n * (ku + 1)) by (nonlinear_arith)
            requires
                g == (i + 1) * n + d,
                d < n,
                i < ku,
        ;
    }
}

/// Every position below the keyspace size holds a word of length 1 through
/// `max`, made of symbols of `alpha` only.
pub proof fn lemma_nth_word_in_bound(alpha: Seq<char>, max: nat, g: nat)
    requires
        alpha.len() >= 1,
        g < keyspace_size(alpha.len(), max),
    ensures
        1 <= nth_word(alpha, g).len() <= max,
        forall|k: int| 0 <= k < nth_word(alpha, g).len() ==> alpha.contains(#[trigger] nth_word(alpha, g)[k]),
    decreases g,
{
    let n = alpha.len();
    lemma_keyspace_step(n, max);
    if max == 0 {
        assert(false);
    } else if g < n {
        let w = nth_word(alpha, g);
        assert(w[0] == alpha[g as int]);
    } else {
        let h = (g / n - 1) as nat;
        let km = keyspace_size(n, (max - 1) as nat);
        assert(g / n < km + 1) by {
            vstd::arithmetic::div_mod::lemma_multiply_divide_lt(g as int, n as int, (km + 1) as int);
        }
        assert(g / n >= 1) by {
            vstd::arithmetic::div_mod::lemma_div_is_ordered(n as int, g as int, n as int);
            vstd::arithmetic::div_mod::lemma_div_by_self(n as int);
        }
        lemma_nth_word_in_bound(alpha, (max - 1) as nat, h);
        let u = nth_word(alpha, h);
        let w = nth_word(alpha, g);
        vstd::arithmetic::div_mod::lemma_mod_bound(g as int, n as int);
        assert(w == u.push(alpha[(g % n) as int]));
        assert forall|k: int| 0 <= k < w.len() implies alpha.contains(#[trigger] w[k]) by {
            if k < u.len() {
                assert(w[k] == u[k]);
            } else {
                assert(w[k] == alpha[(g % n) as int]);
            }
        }
    }
}

/// The `len`-digit base-`n` numeral of `k` over `alpha`, most significant
/// digit first, zero-padded, with `alpha[0]` as digit 0.
pub open spec fn numeral(alpha: Seq<char>, len: nat, k: nat) -> Seq<char>
    decreases len,
{
    if len == 0 || alpha.len() == 0 {
        seq![]
    } else {
        numeral(alpha, (len - 1) as nat, k / alpha.len()).push(alpha[(k % alpha.len()) as int])
    }
}

/// The enumeration in counter form: the words of length `len` follow all
/// shorter ones, and the `k`-th of them is the `len`-digit numeral of `k`.
pub proof fn lemma_counter_order(alpha: Seq<char>, len: nat, k: nat)
    requires
        alpha.len() >= 1,
        len >= 1,
        k < pow(alpha.len() as int, len),
    ensures
        nth_word(alpha, keyspace_size(alpha.len(), (len - 1) as nat) + k) == numeral(alpha, len, k),
    decreases len,
{
    let n = alpha.len();
    let g = keyspace_size(n, (len - 1) as nat) + k;
    vstd::arithmetic::power::lemma_pow_adds(n as int, 1, (len - 1) as nat);
    vstd::arithmetic::power::lemma_pow1(n as int);
    lemma_pow_nonneg(n, (len - 1) as nat);
    let p = pow(n as int, (len - 1) as nat);
    assert(pow(n as int, len) == n * p);
    vstd::arithmetic::div_mod::lemma_fundamental_div_mod(k as int, n as int);
    vstd::arithmetic::div_mod::lemma_mod_bound(k as int, n as int);
    vstd::arithmetic::div_mod::lemma_div_pos_is_pos(k as int, n as int);
    if len == 1 {
        assert(keyspace_size(n, 0) == 0);
        vstd::arithmetic::power::lemma_pow0(n as int);
        assert(k < n);
        vstd::arithmetic::div_mod::lemma_basic_div(k as int, n as int);
        vstd::arithmetic::div_mod::lemma_small_mod(k, n);
        assert(k / n == 0);
        assert(numeral(alpha, 0, 0) == Seq::<char>::empty());
        assert(seq![alpha[k as int]] =~= Seq::<char>::empty().push(alpha[(k % n) as int]));
    } else {
        let kp = keyspace_size(n, (len - 2) as nat);
        lemma_keyspace_step(n, (len - 1) as nat);
        assert(keyspace_size(n, (len - 1) as nat) == n * (kp + 1));
        let q = kp + 1 + k / n;
        assert(g == n * q + k % n) by (nonlinear_arith)
            requires
                g == n * (kp + 1) + k,
                k == n * (k / n) + k % n,
                q == kp + 1 + k / n,
        ;
        vstd::arithmetic::div_mod::lemma_fundamental_div_mod_converse(g as int, n as int, q as int, (k % n) as int);
        assert(g >= n) by (nonlinear_arith)
            requires
                g == n * q + k % n,
                q >= 1,
                k % n >= 0,
        ;
        vstd::arithmetic::div_mod::lemma_multiply_divide_lt(k as int, n as int, p);
        lemma_counter_order(alpha, (len - 1) as nat, k / n);
        assert(g / n - 1 == kp + k / n);
    }
}

/// Whether `c` occurs in `v`.
fn holds(v: &Vec<char>, c: char) -> (r: bool)
    ensures
        r == v@.contains(c),
{
    let mut i: usize = 0;
    while i < v.len()
        invariant
            i <= v@.len(),
            forall|k: int| 0 <= k < i ==> v@[k] != c,
        decreases v@.len() - i,
    {
        if v[i] == c {
            return true;
        }
        i = i + 1;
    }
    false
}

/// The symbols of a brute-force run, each with its UTF-8 encoding.
pub struct Alphabet {
    pub symbols: Vec<char>,
    pub encodings: Vec<Vec<u8>>,
}

impl Alphabet {
    /// Each symbol sits beside its own encoding.
    pub open spec fn wf(&self) -> bool {
        &&& self.symbols@.len() == self.encodings@.len()
        &&& forall|k: int|
            0 <= k < self.symbols@.len() ==> #[trigger] self.encodings@[k]@ == encode_utf8(seq![self.symbols@[k]])
    }
}

/// The characters of `chars` with repeats dropped, first occurrences kept in
/// order, each with its UTF-8 encoding.
pub fn dedup_alphabet(chars: &str) -> (r: Alphabet)
    ensures
        r.wf(),
        r.symbols@ == dedup(chars@),
{
    let n = chars.unicode_len();
    let mut r = Alphabet { symbols: Vec::new(), encodings: Vec::new() };
    let mut i: usize = 0;
    while i < n
        invariant
            n == chars@.len(),
            i <= n,
            r.wf(),
            r.symbols@ == dedup(chars@.take(i as int)),
        decreases n - i,
    {
        let c = chars.get_char(i);
        assert(chars@.take(i + 1).drop_last() =~= chars@.take(i as int));
        if !holds(&r.symbols, c) {
            let piece = chars.substring_char(i, i + 1);
            assert(piece@ =~= seq![c]);
            let b = piece.as_bytes();
            let enc = copy_range(b, 0, b.len());
            assert(enc@ =~= b@);
            r.symbols.push(c);
            r.encodings.push(enc);
        }
        i = i + 1;
    }
    assert(chars@.take(n as int) =~= chars@);
    r
}

/// The candidate at position `g` of the enumeration over the alphabet: the
/// UTF-8 encoding of its word.
pub fn word_at(alpha: &Alphabet, g: usize) -> (r: Vec<u8>)
    requires
        alpha.wf(),
        alpha.symbols@.len() >= 1,
    ensures
        r@ == encode_utf8(nth_word(alpha.symbols@, g as nat)),
{
    let ghost a = alpha.symbols@;
    let n: usize = alpha.symbols.len();
    let mut m: usize = g;
    let mut w: Vec<u8> = Vec::new();
    assert(encode_utf8(nth_word(a, g as nat)) + w@ =~= encode_utf8(nth_word(a, g as nat)));
    while m >= n
        invariant
            alpha.wf(),
            a == alpha.symbols@,
            n == a.len() >= 1,
            encode_utf8(nth_word(a, g as nat)) == encode_utf8(nth_word(a, m as nat)) + w@,
        decreases m,
    {
        let d: usize = m % n;
        proof {
            vstd::arithmetic::div_mod::lemma_div_nonincreasing(m as int, n as int);
            vstd::arithmetic::div_mod::lemma_div_is_ordered(n as int, m as int, n as int);
            vstd::arithmetic::div_mod::lemma_div_by_self(n as int);
        }
        let ghost head = nth_word(a, (m / n - 1) as nat);
        assert(nth_word(a, m as nat) == head.push(a[d as int]));
        proof {
            assert(head.push(a[d as int]) =~= head + seq![a[d as int]]);
            lemma_encode_concat(head, seq![a[d as int]]);
        }
        let e = &alpha.encodings[d];
        let mut nw = copy_range(e.as_slice(), 0, e.len());
        let ghost prev = w@;
        nw.append(&mut w);
        assert(encode_utf8(head) + encode_utf8(seq![a[d as int]]) + prev =~= encode_utf8(head) + nw@);
        w = nw;
        m = m / n - 1;
    }
    assert(nth_word(a, m as nat) == seq![a[m as int]]);
    let e = &alpha.encodings[m];
    let mut nw = copy_range(e.as_slice(), 0, e.len());
    nw.append(&mut w);
    nw
}

/// The keyspace size, or `None` where it exceeds `usize::MAX`.
pub fn keyspace_len(n: usize, max: usize) -> (r: Option<usize>)
    ensures
        match r {
            Some(k) => k == keyspace_size(n as nat, max as nat),
            None => keyspace_size(n as nat, max as nat) > usize::MAX,
        },
{
    let mut k: usize = 0;
    let mut l: usize = 0;
    while l < max
        invariant
            l <= max,
            k == keyspace_size(n as nat, l as nat),
        decreases max - l,
    {
        proof {
            lemma_keyspace_step(n as nat, (l + 1) as nat);
        }
        let next = match k.checked_add(1) {
            Some(k1) => n.checked_mul(k1),
            None => None,
        };
        match next {
            Some(k2) => {
                k = k2;
            },
            None => {
                proof {
                    let kn = keyspace_size(n as nat, (l + 1) as nat);
                    assert(kn == n * (k + 1));
                    if n == 0 && l >= 1 {
                        lemma_keyspace_step(n as nat, l as nat);
                    }
                    if k == usize::MAX {
                        assert(n != 0);
                        assert(n * (k + 1) >= k + 1) by (nonlinear_arith)
                            requires
                                n >= 1,
                        ;
                    }
                    assert(kn > usize::MAX);
                    lemma_keyspace_monotone(n as nat, (l + 1) as nat, max as nat);
                }
                return None;
            },
        }
        l = l + 1;
    }
    Some(k)
}

} // verus!
