//! Byte-string helpers shared by the token codec and the signature oracle.
use vstd::prelude::*;

verus! {

/// Copies `s[from..to]` into a fresh vector.
pub fn copy_range(s: &[u8], from: usize, to: usize) -> (r: Vec<u8>)
    requires
        from <= to <= s@.len(),
    ensures
        r@ == s@.subrange(from as int, to as int),
{
    let mut r: Vec<u8> = Vec::new();
    let mut i: usize = from;
    while i < to
        invariant
            from <= i <= to <= s@.len(),
            r@ == s@.subrange(from as int, i as int),
        decreases to - i,
    {
        r.push(s[i]);
        assert(r@ =~= s@.subrange(from as int, i + 1));
        i = i + 1;
    }
    r
}

/// Compares two byte strings in time that depends on their lengths only:
/// every byte pair is visited, with no early exit on the first difference.
pub fn fixed_time_eq(a: &[u8], b: &[u8]) -> (r: bool)
    ensures
        r == (a@ == b@),
{
    if a.len() != b.len() {
        return false;
    }
    let mut diff: u8 = 0;
    let mut i: usize = 0;
    assert(a@.subrange(0, 0) =~= b@.subrange(0, 0));
    while i < a.len()
        invariant
            a@.len() == b@.len(),
            i <= a@.len(),
            (diff == 0) == (a@.subrange(0, i as int) == b@.subrange(0, i as int)),
        decreases a@.len() - i,
    {
        let ai: u8 = a[i];
        let bi: u8 = b[i];
        let x: u8 = ai ^ bi;
        let d: u8 = diff | x;
        assert((d == 0) == (diff == 0 && x == 0)) by (bit_vector)
            requires
                d == diff | x,
        ;
        assert(x == 0 <==> ai == bi) by (bit_vector)
            requires
                x == ai ^ bi,
        ;
        proof {
            let sa = a@.subrange(0, i as int);
            let sb = b@.subrange(0, i as int);
            assert(a@.subrange(0, i + 1) =~= sa.push(a[i as int]));
            assert(b@.subrange(0, i + 1) =~= sb.push(b[i as int]));
            if sa.push(a[i as int]) == sb.push(b[i as int]) {
                assert(sa =~= sa.push(a[i as int]).drop_last());
                assert(sb =~= sb.push(b[i as int]).drop_last());
                assert(sa.push(a[i as int]).last() == a[i as int]);
            }
        }
        diff = d;
        i = i + 1;
    }
    assert(a@.subrange(0, a@.len() as int) =~= a@);
    assert(b@.subrange(0, b@.len() as int) =~= b@);
    diff == 0
}

} // verus!
