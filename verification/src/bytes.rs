//! Small helpers on bytes, and what a list of byte vectors holds.

use vstd::prelude::*;
use vstd::slice::{slice_subrange, slice_to_vec};

verus! {

/// What each of the byte vectors holds.
pub open spec fn views(vectors: Seq<Vec<u8>>) -> Seq<Seq<u8>> {
    Seq::new(vectors.len(), |i: int| vectors[i]@)
}

/// Whether the bytes of `list` from `start` up to `end` are `name`.
pub(crate) fn range_is(list: &[u8], start: usize, end: usize, name: &[u8]) -> (same: bool)
    requires
        start <= end <= list@.len(),
    ensures
        same == (list@.subrange(start as int, end as int) == name@),
{
    if end - start != name.len() {
        return false;
    }
    let mut k: usize = 0;
    while k < name.len()
        invariant
            start <= end <= list@.len(),
            end - start == name@.len(),
            0 <= k <= name@.len(),
            forall|j: int| 0 <= j < k ==> list@[start + j] == name@[j],
        decreases name@.len() - k,
    {
        if list[start + k] != name[k] {
            assert(list@.subrange(start as int, end as int)[k as int] != name@[k as int]);
            return false;
        }
        k += 1;
    }
    assert(list@.subrange(start as int, end as int) =~= name@);
    true
}

/// Adds the bytes of `more` behind those of `bytes`.
pub(crate) fn append_bytes(bytes: &mut Vec<u8>, more: &[u8])
    ensures
        final(bytes)@ == old(bytes)@ + more@,
{
    let mut k: usize = 0;
    while k < more.len()
        invariant
            0 <= k <= more@.len(),
            bytes@ == old(bytes)@ + more@.take(k as int),
        decreases more@.len() - k,
    {
        bytes.push(more[k]);
        proof {
            assert(more@.take(k + 1) =~= more@.take(k as int).push(more@[k as int]));
        }
        k += 1;
    }
    proof {
        assert(more@.take(k as int) =~= more@);
    }
}

/// Whether two runs of bytes are the same.
pub(crate) fn same_bytes(first: &[u8], second: &[u8]) -> (same: bool)
    ensures
        same == (first@ == second@),
{
    assert(first@.subrange(0, first@.len() as int) =~= first@);
    range_is(first, 0, first.len(), second)
}

/// A copy of the bytes from `start` up to `end`.
pub(crate) fn copy_of_range(bytes: &[u8], start: usize, end: usize) -> (copy: Vec<u8>)
    requires
        start <= end <= bytes@.len(),
    ensures
        copy@ == bytes@.subrange(start as int, end as int),
{
    slice_to_vec(slice_subrange(bytes, start, end))
}

} // verus!
