//! Copying runs of bytes.

use vstd::prelude::*;

verus! {

/// `a` and `b` both have at least `n` bytes and agree on the first `n`.
pub open spec fn same_front(a: Seq<u8>, b: Seq<u8>, n: nat) -> bool {
    &&& n <= a.len()
    &&& n <= b.len()
    &&& forall|i: int|
        #![trigger a[i]]
        #![trigger b[i]]
        0 <= i < n ==> a[i] == b[i]
}

/// Dropping the same number of bytes from two sequences that agree on
/// their front leaves sequences that agree on the rest of that front.
pub proof fn lemma_same_front_skip(a: Seq<u8>, b: Seq<u8>, n: nat, k: nat)
    requires
        same_front(a, b, n),
        k <= n,
    ensures
        same_front(a.skip(k as int), b.skip(k as int), (n - k) as nat),
{
    assert forall|i: int| 0 <= i < n - k implies a.skip(k as int)[i] == b.skip(k as int)[i] by {
        assert(a[k + i] == b[k + i]);
    }
}

/// Appends `src[from..to]` to `out`.
pub(crate) fn append_range(out: &mut Vec<u8>, src: &[u8], from: usize, to: usize)
    requires
        from <= to <= src@.len(),
    ensures
        final(out)@ == old(out)@ + src@.subrange(from as int, to as int),
{
    let mut i: usize = from;
    while i < to
        invariant
            from <= i <= to <= src@.len(),
            out@ == old(out)@ + src@.subrange(from as int, i as int),
        decreases to - i,
    {
        out.push(src[i]);
        i += 1;
        assert(out@ =~= old(out)@ + src@.subrange(from as int, i as int));
    }
}

/// A fresh vector that holds `src[from..to]`.
pub(crate) fn copy_range(src: &[u8], from: usize, to: usize) -> (out: Vec<u8>)
    requires
        from <= to <= src@.len(),
    ensures
        out@ == src@.subrange(from as int, to as int),
{
    let mut out: Vec<u8> = Vec::new();
    append_range(&mut out, src, from, to);
    assert(out@ =~= src@.subrange(from as int, to as int));
    out
}

} // verus!
