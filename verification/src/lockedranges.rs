//! The interval set behind the general range lock.

use std::collections::BTreeMap;
use std::ops::Range;
use vstd::prelude::*;

verus! {

/// Whether the half-open ranges `[a_start, a_end)` and `[b_start, b_end)` share an index,
/// for ranges with `start <= end`. Written so that it is also defined on any other pair.
pub open spec fn spec_overlaps(a_start: int, a_end: int, b_start: int, b_end: int) -> bool {
    a_end > b_start && a_start < b_end
}

/// Whether the index `i` lies in the half-open range `range`.
pub open spec fn within(range: Range<usize>, i: int) -> bool {
    range.start <= i < range.end
}

/// Whether `[start, end)` overlaps one of the ranges in `locked`, a map from each
/// range's start to its end.
pub open spec fn any_overlaps(locked: Map<usize, usize>, start: usize, end: usize) -> bool {
    exists|s: usize| #[trigger]
        locked.contains_key(s) && spec_overlaps(s as int, locked[s] as int, start as int, end as int)
}

/// Whether no two ranges in `locked` overlap.
pub open spec fn pairwise_disjoint(locked: Map<usize, usize>) -> bool {
    forall|s: usize, t: usize|
        #[trigger] locked.contains_key(s) && #[trigger] locked.contains_key(t) && s != t
            ==> !spec_overlaps(s as int, locked[s] as int, t as int, locked[t] as int)
}

/// Two non-empty ranges overlap exactly when some index lies in both.
pub proof fn lemma_overlaps_shares_index(a: Range<usize>, b: Range<usize>)
    requires
        a.start < a.end,
        b.start < b.end,
    ensures
        spec_overlaps(a.start as int, a.end as int, b.start as int, b.end as int) <==> exists|
            i: int,
        |
            #[trigger] within(a, i) && within(b, i),
{
    if spec_overlaps(a.start as int, a.end as int, b.start as int, b.end as int) {
        let i = if a.start <= b.start {
            b.start as int
        } else {
            a.start as int
        };
        assert(within(a, i) && within(b, i));
    }
}

/// Tells whether two half-open ranges overlap.
pub fn overlaps(a: &Range<usize>, b: &Range<usize>) -> (r: bool)
    ensures
        r == spec_overlaps(a.start as int, a.end as int, b.start as int, b.end as int),
{
    a.end > b.start && a.start < b.end
}

/// The set of the ranges that are locked at the moment, ordered by their start.
#[derive(Debug)]
pub struct LockedRanges {
    tree: BTreeMap<usize, usize>,
}

impl View for LockedRanges {
    type V = Map<usize, usize>;

    /// The locked ranges as a map from each range's start to its end.
    closed spec fn view(&self) -> Map<usize, usize> {
        self.tree@
    }
}

/// The iterator that `BTreeMap::range` returns, carried through as an opaque value.
#[verifier::external_type_specification]
#[verifier::external_body]
#[verifier::reject_recursive_types(K)]
#[verifier::reject_recursive_types(V)]
pub struct ExTreeRange<'a, K, V>(std::collections::btree_map::Range<'a, K, V>);

/// The entries that a `BTreeMap::range` iterator has not handed out yet, as `(key, value)`
/// pairs in the order in which `next` would hand them out.
pub uninterp spec fn range_entries(it: std::collections::btree_map::Range<usize, usize>) -> Seq<
    (usize, usize),
>;

/// Whether `entries` are the entries of `locked` whose key is below `end`, each once,
/// in ascending order of their keys.
pub open spec fn is_entries_below(
    entries: Seq<(usize, usize)>,
    locked: Map<usize, usize>,
    end: usize,
) -> bool {
    &&& forall|i: int|
        0 <= i < entries.len() ==> (#[trigger] entries[i]).0 < end && locked.contains_pair(
            entries[i].0,
            entries[i].1,
        )
    &&& forall|k: usize| #[trigger]
        locked.contains_key(k) && k < end ==> exists|i: int|
            0 <= i < entries.len() && (#[trigger] entries[i]).0 == k
    &&& forall|i: int, j: int|
        0 <= i < j < entries.len() ==> (#[trigger] entries[i]).0 < (#[trigger] entries[j]).0
}

/// Calls `BTreeMap::range` with the bounds `..end`. The iterator holds exactly the entries
/// of the map whose key is below `end`, each once, in ascending order of their keys.
#[verifier::external_body]
fn entries_below<'a>(tree: &'a BTreeMap<usize, usize>, end: usize) -> (it:
    std::collections::btree_map::Range<'a, usize, usize>)
    ensures
        is_entries_below(range_entries(it), tree@, end),
{
    tree.range(..end)
}

/// Calls `DoubleEndedIterator::next_back` on a `BTreeMap::range` iterator: it takes the last
/// of the remaining entries off and returns it, or returns `None` when none remains.
#[verifier::external_body]
fn next_back_entry(it: &mut std::collections::btree_map::Range<usize, usize>) -> (r: Option<
    (usize, usize),
>)
    ensures
        match r {
            Some(e) => {
                &&& range_entries(*old(it)).len() > 0
                &&& e == range_entries(*old(it)).last()
                &&& range_entries(*final(it)) == range_entries(*old(it)).drop_last()
            },
            None => range_entries(*old(it)).len() == 0 && range_entries(*final(it)).len() == 0,
        },
{
    match it.next_back() {
        Some((begin, end)) => Some((*begin, *end)),
        None => None,
    }
}

impl LockedRanges {
    /// Every range has its start at or before its end, and no two of them overlap.
    pub open spec fn wf(&self) -> bool {
        &&& forall|s: usize| #[trigger] self@.contains_key(s) ==> s <= self@[s]
        &&& pairwise_disjoint(self@)
    }

    /// An empty set.
    pub fn new() -> (r: Self)
        ensures
            r@ == Map::<usize, usize>::empty(),
            r.wf(),
    {
        LockedRanges { tree: BTreeMap::new() }
    }

    /// Whether no range is locked.
    pub fn is_empty(&self) -> (r: bool)
        ensures
            r == self@.is_empty(),
    {
        self.tree.is_empty()
    }

    /// Whether `range` is one of the locked ranges.
    pub fn contains(&self, range: &Range<usize>) -> (r: bool)
        ensures
            r == self@.contains_pair(range.start, range.end),
    {
        match self.tree.get(&range.start) {
            Some(end) => *end == range.end,
            None => false,
        }
    }

    /// Locks `range` unless it overlaps a locked range: either the range goes in, or
    /// nothing changes.
    ///
    /// The locked ranges are walked from the last one that starts below `range.end`
    /// towards smaller starts, up to the first one that ends at or before `range.start`:
    /// no range before that one can reach into `range`.
    pub fn insert(&mut self, range: &Range<usize>) -> (r: bool)
        requires
            old(self).wf(),
        ensures
            r == !any_overlaps(old(self)@, range.start, range.end),
            r ==> final(self)@ == old(self)@.insert(range.start, range.end),
            !r ==> final(self)@ == old(self)@,
            final(self).wf() <==> !r || range.start <= range.end,
    {
        let mut below = entries_below(&self.tree, range.end);
        let ghost all = range_entries(below);
        loop
            invariant
                self.tree@ == old(self).tree@,
                old(self).wf(),
                range_entries(below).len() <= all.len(),
                range_entries(below) == all.take(range_entries(below).len() as int),
                is_entries_below(all, old(self)@, range.end),
                forall|i: int|
                    range_entries(below).len() <= i < all.len() ==> !spec_overlaps(
                        (#[trigger] all[i]).0 as int,
                        all[i].1 as int,
                        range.start as int,
                        range.end as int,
                    ),
            ensures
                self.tree@ == old(self).tree@,
                !any_overlaps(old(self)@, range.start, range.end),
            decreases range_entries(below).len(),
        {
            match next_back_entry(&mut below) {
                None => {
                    break;
                },
                Some((begin, end)) => {
                    if end <= range.start {
                        break;
                    }
                    if overlaps(&(begin..end), range) {
                        // The range overlaps with a locked one.
                        return false;
                    }
                },
            }
        }
        // The range overlaps with no locked one.
        self.tree.insert(range.start, range.end);
        assert(self@.contains_key(range.start));
        true
    }

    /// Unlocks `range`, which must be locked: the entry that starts at `range.start`
    /// goes out.
    pub fn remove(&mut self, range: &Range<usize>)
        requires
            old(self).wf(),
            old(self)@.contains_pair(range.start, range.end),
        ensures
            final(self)@ == old(self)@.remove(range.start),
            final(self).wf(),
    {
        let end = self.tree.remove(&range.start);
        assert(end == Some(range.end));
    }
}

} // verus!
