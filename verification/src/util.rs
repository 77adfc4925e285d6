//! Range expressions and their normal form.

use crate::lockedranges::spec_overlaps;
use std::ops::Range;
use vstd::prelude::*;

verus! {

/// One endpoint of a range expression.
#[derive(Clone, Copy, Debug, PartialEq, Eq)]
pub enum RangeBound {
    /// The endpoint itself belongs to the range.
    Included(usize),
    /// The endpoint is the first index outside the range.
    Excluded(usize),
    /// The range is open on this side.
    Unbounded,
}

/// The range expressions that have a normal form: the start is not `Excluded`, and an
/// `Included` end is below `usize::MAX`.
pub open spec fn bounds_ok(start: RangeBound, end: RangeBound) -> bool {
    &&& !(start is Excluded)
    &&& end != RangeBound::Included(usize::MAX)
}

/// The inclusive start of a range expression.
pub open spec fn spec_start(start: RangeBound) -> int {
    match start {
        RangeBound::Included(x) => x as int,
        RangeBound::Excluded(x) => x + 1,
        RangeBound::Unbounded => 0,
    }
}

/// The exclusive end of a range expression; `length` stands in for an open end.
pub open spec fn spec_end(end: RangeBound, length: usize) -> int {
    match end {
        RangeBound::Included(x) => x + 1,
        RangeBound::Excluded(x) => x as int,
        RangeBound::Unbounded => length as int,
    }
}

/// The normal form of a range expression: the half-open range from its inclusive start
/// to its exclusive end.
pub open spec fn spec_bounds(start: RangeBound, end: RangeBound, length: usize) -> Range<usize> {
    Range { start: spec_start(start) as usize, end: spec_end(end, length) as usize }
}

/// Normalizes a range expression to `(start, end)`, `start` inclusive and `end` exclusive.
/// `length` is used for the end of a range that is open at its end, and for nothing else.
pub fn get_bounds(start: RangeBound, end: RangeBound, length: usize) -> (r: (usize, usize))
    requires
        bounds_ok(start, end),
    ensures
        r.0 == spec_start(start),
        r.1 == spec_end(end, length),
{
    let range_start = match start {
        RangeBound::Included(x) => x,
        RangeBound::Excluded(_) => unreached(),
        RangeBound::Unbounded => 0,
    };
    let range_end = match end {
        RangeBound::Included(x) => {
            if x == usize::MAX {
                unreached()
            } else {
                x + 1
            }
        },
        RangeBound::Excluded(x) => x,
        RangeBound::Unbounded => length,
    };
    (range_start, range_end)
}

/// Whether the normal form of the range expression overlaps `ranges[i]` for some `i`.
pub open spec fn spec_overlaps_any(ranges: Seq<Range<usize>>, start: RangeBound, end: RangeBound) -> bool {
    exists|i: int|
        0 <= i < ranges.len() && spec_overlaps(
            spec_start(start),
            spec_end(end, usize::MAX),
            (#[trigger] ranges[i]).start as int,
            ranges[i].end as int,
        )
}

/// Checks whether the range expression overlaps any range in `ranges`.
pub fn overlaps_any(ranges: &[Range<usize>], start: RangeBound, end: RangeBound) -> (r: bool)
    requires
        bounds_ok(start, end),
    ensures
        r == spec_overlaps_any(ranges@, start, end),
{
    let (range_start, range_end) = get_bounds(start, end, usize::MAX);
    let mut i: usize = 0;
    while i < ranges.len()
        invariant
            i <= ranges.len(),
            range_start == spec_start(start),
            range_end == spec_end(end, usize::MAX),
            forall|j: int|
                0 <= j < i ==> !spec_overlaps(
                    range_start as int,
                    range_end as int,
                    (#[trigger] ranges@[j]).start as int,
                    ranges@[j].end as int,
                ),
        decreases ranges.len() - i,
    {
        if range_end > ranges[i].start && range_start < ranges[i].end {
            return true;
        }
        i += 1;
    }
    false
}

} // verus!
