//! Small byte-sequence helpers shared across the crate.

use vstd::prelude::*;

verus! {

/// Byte-for-byte equality of two byte vectors.
pub fn bytes_eq(a: &Vec<u8>, b: &Vec<u8>) -> (r: bool)
    ensures
        r == (a@ == b@),
{
    let n = a.len();
    if n != b.len() {
        assert(a@.len() != b@.len());
        return false;
    }
    let mut i: usize = 0;
    loop
        invariant
            i <= n,
            n == a@.len(),
            n == b@.len(),
            forall|k: int| 0 <= k < i ==> a@[k] == b@[k],
        decreases n - i,
    {
        if i >= n {
            assert(a@ =~= b@);
            return true;
        }
        if a[i] != b[i] {
            return false;
        }
        i = i + 1;
    }
}

/// Appends the bytes `src[start .. end]` to `out`.
pub fn push_range(out: &mut Vec<u8>, src: &Vec<u8>, start: usize, end: usize)
    requires
        start <= end <= src@.len(),
    ensures
        final(out)@ == old(out)@ + src@.subrange(start as int, end as int),
{
    let mut i: usize = start;
    loop
        invariant
            start <= i <= end <= src@.len(),
            out@ == old(out)@ + src@.subrange(start as int, i as int),
        decreases end - i,
    {
        if i >= end {
            assert(out@ =~= old(out)@ + src@.subrange(start as int, end as int));
            return;
        }
        out.push(src[i]);
        proof {
            assert(out@ =~= old(out)@ + src@.subrange(start as int, (i + 1) as int));
        }
        i = i + 1;
    }
}

/// A copy of the byte vector.
pub fn copy_bytes(v: &Vec<u8>) -> (r: Vec<u8>)
    ensures
        r@ == v@,
{
    let mut r: Vec<u8> = Vec::new();
    let n = v.len();
    push_range(&mut r, v, 0, n);
    assert(r@ =~= v@);
    r
}

/// Whether `p` is a prefix of `v`.
pub fn has_prefix(v: &Vec<u8>, p: &Vec<u8>) -> (r: bool)
    ensures
        r == p@.is_prefix_of(v@),
{
    let pn = p.len();
    if pn > v.len() {
        return false;
    }
    let mut i: usize = 0;
    loop
        invariant
            i <= pn,
            pn == p@.len(),
            pn <= v@.len(),
            forall|k: int| 0 <= k < i ==> p@[k] == v@[k],
        decreases pn - i,
    {
        if i >= pn {
            assert(p@ =~= v@.subrange(0, pn as int));
            return true;
        }
        if p[i] != v[i] {
            proof {
                if p@.is_prefix_of(v@) {
                    assert(p@[i as int] == v@.subrange(0, pn as int)[i as int]);
                }
            }
            return false;
        }
        i = i + 1;
    }
}

} // verus!
