//! Parts of a buffer, and what writing through one of them does to the buffer.

use vstd::prelude::*;

verus! {

/// The buffer after `written` took the place of the elements from `start` up to `end`.
pub open spec fn spliced<T>(before: Seq<T>, start: int, end: int, written: Seq<T>) -> Seq<T> {
    before.subrange(0, start) + written + before.subrange(end, before.len() as int)
}

/// What is written through the slice of one range leaves every range apart from it as it
/// was: the holders of two ranges that do not overlap never see each other's writes.
pub proof fn lemma_write_leaves_others<T>(
    before: Seq<T>,
    start: int,
    end: int,
    written: Seq<T>,
    other_start: int,
    other_end: int,
)
    requires
        0 <= start <= end <= before.len(),
        written.len() == end - start,
        0 <= other_start <= other_end <= before.len(),
        other_end <= start || end <= other_start,
    ensures
        spliced(before, start, end, written).len() == before.len(),
        spliced(before, start, end, written).subrange(start, end) == written,
        spliced(before, start, end, written).subrange(other_start, other_end) == before.subrange(
            other_start,
            other_end,
        ),
{
    let after = spliced(before, start, end, written);
    assert(after.subrange(start, end) =~= written);
    assert(after.subrange(other_start, other_end) =~= before.subrange(other_start, other_end));
}

/// Calls the range indexing of `Vec` (`IndexMut<Range<usize>>`) with `start..end`. The
/// slice that comes back holds the elements from `start` up to `end`; what is written
/// through it lands at those places of the vector, the rest of the vector stays as it
/// is, and the slice keeps its length.
#[verifier::external_body]
pub(crate) fn slice_mut<T>(data: &mut Vec<T>, start: usize, end: usize) -> (s: &mut [T])
    requires
        start <= end <= old(data)@.len(),
    ensures
        s@ == old(data)@.subrange(start as int, end as int),
        final(s)@.len() == s@.len(),
        final(data)@ == spliced(old(data)@, start as int, end as int, final(s)@),
{
    &mut data[start..end]
}

} // verus!
