//! The general range lock: any half-open range of the buffer can be reserved, as long
//! as it overlaps no range that is reserved already.

use crate::lockedranges::{any_overlaps, pairwise_disjoint, spec_overlaps, within, LockedRanges};
use crate::slices::{slice_mut, spliced};
use crate::util::{bounds_ok, get_bounds, spec_bounds, RangeBound};
use std::ops::Range;
use vstd::multiset::Multiset;
use vstd::prelude::*;

verus! {

/// Why a locking attempt handed out no ordinary guard.
#[derive(Debug)]
pub enum LockError<G> {
    /// What was asked for is reserved at the moment. The attempt may be repeated.
    WouldBlock,
    /// The bookkeeping of the lock is poisoned. The guard gives access to what was asked
    /// for, but nothing was reserved for it.
    Poisoned(G),
}

/// What a `VecRangeLock` stands for: its buffer, the reserved ranges as a map from
/// each range's start to its end, and whether its bookkeeping is poisoned.
pub struct VecRangeLockView<T> {
    pub data: Seq<T>,
    pub reserved: Map<usize, usize>,
    pub poisoned: bool,
}

impl<T> VecRangeLockView<T> {
    /// Every reserved range is non-empty and lies within the buffer, and no two
    /// reserved ranges overlap.
    pub open spec fn valid(self) -> bool {
        &&& forall|s: usize| #[trigger]
            self.reserved.contains_key(s) ==> s < self.reserved[s] <= self.data.len()
        &&& pairwise_disjoint(self.reserved)
    }

    /// Whether `range` lies within the buffer, its start at or before its end.
    pub open spec fn covers(self, range: Range<usize>) -> bool {
        range.start <= range.end <= self.data.len()
    }

    /// Whether `range` overlaps a reserved range.
    pub open spec fn conflicts(self, range: Range<usize>) -> bool {
        any_overlaps(self.reserved, range.start, range.end)
    }

    /// Whether an attempt to lock `range` is granted: an empty range always is, any other
    /// one if the bookkeeping is not poisoned and the range overlaps no reserved range.
    pub open spec fn grants(self, range: Range<usize>) -> bool {
        range.start == range.end || (!self.poisoned && !self.conflicts(range))
    }

    /// Whether a guard for `range` is live: an empty range needs no reservation, any other
    /// one is reserved.
    pub open spec fn holds(self, range: Range<usize>) -> bool {
        &&& self.covers(range)
        &&& range.start == range.end || self.reserved.contains_pair(range.start, range.end)
    }

    /// Whether a guard for `range` gives access to the buffer: a live guard does, and
    /// on a poisoned lock so does the guard that came with `LockError::Poisoned`, for
    /// which nothing is reserved.
    pub open spec fn admits(self, range: Range<usize>) -> bool {
        self.holds(range) || (self.poisoned && self.covers(range))
    }

    /// The lock after `range` was granted.
    pub open spec fn after_lock(self, range: Range<usize>) -> Self {
        if range.start == range.end {
            self
        } else {
            VecRangeLockView { reserved: self.reserved.insert(range.start, range.end), ..self }
        }
    }

    /// The lock after the guard for `range` was given back.
    pub open spec fn after_unlock(self, range: Range<usize>) -> Self {
        if range.start == range.end {
            self
        } else {
            VecRangeLockView { reserved: self.reserved.remove(range.start), ..self }
        }
    }
}

impl<T> VecRangeLockView<T> {
    /// Whether `guards` are the guards that are live on this lock: each of them is held,
    /// no non-empty range has two guards, and every reserved range has its guard.
    pub open spec fn tracks(self, guards: Multiset<Range<usize>>) -> bool {
        &&& forall|r: Range<usize>| #[trigger] guards.count(r) > 0 ==> self.holds(r)
        &&& forall|r: Range<usize>| r.start != r.end ==> #[trigger] guards.count(r) <= 1
        &&& forall|s: usize| #[trigger]
            self.reserved.contains_key(s) ==> guards.count(
                Range { start: s, end: self.reserved[s] },
            ) > 0
    }

    /// Two different ranges that are held at the same time share no index, and do not
    /// overlap if neither is empty.
    pub proof fn lemma_held_ranges_disjoint(self, a: Range<usize>, b: Range<usize>)
        requires
            self.valid(),
            self.holds(a),
            self.holds(b),
            a != b,
        ensures
            forall|i: int| !(#[trigger] within(a, i) && within(b, i)),
            a.start < a.end && b.start < b.end ==> !spec_overlaps(
                a.start as int,
                a.end as int,
                b.start as int,
                b.end as int,
            ),
    {
        if a.start < a.end && b.start < b.end {
            assert(self.reserved.contains_key(a.start));
            assert(self.reserved.contains_key(b.start));
        }
    }

    /// While a non-empty range is held, no non-empty range that overlaps it is granted.
    pub proof fn lemma_overlap_not_granted(self, held: Range<usize>, wanted: Range<usize>)
        requires
            self.holds(held),
            held.start < held.end,
            wanted.start < wanted.end,
            spec_overlaps(
                held.start as int,
                held.end as int,
                wanted.start as int,
                wanted.end as int,
            ),
        ensures
            !self.grants(wanted),
    {
        assert(self.reserved.contains_key(held.start));
    }

    /// A range that is granted and given back leaves the lock as it was, so that the same
    /// range is granted again.
    pub proof fn lemma_round_trip(self, range: Range<usize>)
        requires
            self.valid(),
            self.covers(range),
            self.grants(range),
        ensures
            self.after_lock(range).valid(),
            self.after_lock(range).holds(range),
            self.after_lock(range).after_unlock(range) == self,
            self.after_lock(range).after_unlock(range).grants(range),
    {
        if range.start != range.end {
            if self.reserved.contains_key(range.start) {
                assert(spec_overlaps(
                    range.start as int,
                    self.reserved[range.start] as int,
                    range.start as int,
                    range.end as int,
                ));
            }
            assert(self.reserved.insert(range.start, range.end).remove(range.start)
                =~= self.reserved);
            let locked = self.after_lock(range);
            assert forall|s: usize, t: usize|
                #[trigger] locked.reserved.contains_key(s) && #[trigger] locked.reserved.contains_key(
                    t,
                ) && s != t implies !spec_overlaps(
                s as int,
                locked.reserved[s] as int,
                t as int,
                locked.reserved[t] as int,
            ) by {
                if s != range.start {
                    assert(self.reserved.contains_key(s));
                }
                if t != range.start {
                    assert(self.reserved.contains_key(t));
                }
            }
        }
    }

    /// An empty range within the buffer is granted in every state of the lock, whatever
    /// is reserved and however many guards for empty ranges are out, and reserves nothing.
    pub proof fn lemma_empty_range_granted(self, at: usize)
        requires
            at <= self.data.len(),
        ensures
            self.grants(Range { start: at, end: at }),
            self.after_lock(Range { start: at, end: at }) == self,
            self.holds(Range { start: at, end: at }),
    {
    }

    /// A lock that was just made has no live guard.
    pub proof fn lemma_tracks_none(self)
        requires
            self.reserved == Map::<usize, usize>::empty(),
        ensures
            self.tracks(Multiset::empty()),
    {
    }

    /// Granting a range adds its guard to the live guards.
    pub proof fn lemma_tracks_lock(self, guards: Multiset<Range<usize>>, range: Range<usize>)
        requires
            self.valid(),
            self.tracks(guards),
            self.covers(range),
            self.grants(range),
        ensures
            self.after_lock(range).tracks(guards.insert(range)),
    {
        let locked = self.after_lock(range);
        let more = guards.insert(range);
        if range.start != range.end {
            if guards.count(range) > 0 {
                assert(self.reserved.contains_key(range.start));
            }
            assert forall|s: usize| #[trigger] locked.reserved.contains_key(s) implies more.count(
                Range { start: s, end: locked.reserved[s] },
            ) > 0 by {
                if s != range.start {
                    assert(self.reserved.contains_key(s));
                }
            }
            assert forall|r: Range<usize>| #[trigger] more.count(r) > 0 implies locked.holds(
                r,
            ) by {
                if r != range {
                    assert(guards.count(r) > 0);
                    if r.start != r.end && r.start == range.start {
                        assert(self.reserved.contains_key(r.start));
                    }
                }
            }
        }
    }

    /// Giving a live guard back takes it from the live guards.
    pub proof fn lemma_tracks_unlock(self, guards: Multiset<Range<usize>>, range: Range<usize>)
        requires
            self.valid(),
            self.tracks(guards),
            guards.count(range) > 0,
        ensures
            self.holds(range),
            self.after_unlock(range).valid(),
            self.after_unlock(range).tracks(guards.remove(range)),
    {
        let unlocked = self.after_unlock(range);
        let fewer = guards.remove(range);
        if range.start != range.end {
            assert forall|s: usize| #[trigger] unlocked.reserved.contains_key(s) implies fewer.count(
                Range { start: s, end: unlocked.reserved[s] },
            ) > 0 by {
                assert(self.reserved.contains_key(s));
            }
            assert forall|r: Range<usize>| #[trigger] fewer.count(r) > 0 implies unlocked.holds(
                r,
            ) by {
                assert(guards.count(r) > 0);
                if r.start != r.end && r.start == range.start {
                    assert(self.reserved.contains_key(r.start));
                }
            }
            assert forall|s: usize, t: usize|
                #[trigger] unlocked.reserved.contains_key(s)
                    && #[trigger] unlocked.reserved.contains_key(t) && s != t implies !spec_overlaps(
                s as int,
                unlocked.reserved[s] as int,
                t as int,
                unlocked.reserved[t] as int,
            ) by {
                assert(self.reserved.contains_key(s));
                assert(self.reserved.contains_key(t));
            }
        }
    }

    /// Once every guard for a non-empty range is given back, nothing is reserved: the
    /// buffer can be taken out of the lock.
    pub proof fn lemma_tracks_empty(self, guards: Multiset<Range<usize>>)
        requires
            self.valid(),
            self.tracks(guards),
            forall|r: Range<usize>| #[trigger] guards.count(r) > 0 ==> r.start == r.end,
        ensures
            self.reserved.is_empty(),
    {
        assert forall|s: usize| !self.reserved.contains_key(s) by {
            if self.reserved.contains_key(s) {
                assert(guards.count(Range { start: s, end: self.reserved[s] }) > 0);
            }
        }
        assert(self.reserved =~= Map::<usize, usize>::empty());
    }
}

/// The token for one granted range. It comes out of `VecRangeLock::try_lock` and gives
/// access to its range through `VecRangeLock::get_slice` and `get_mut_slice`, until
/// `VecRangeLock::unlock` takes it back.
#[derive(Debug)]
pub struct VecRangeLockGuard {
    range: Range<usize>,
}

impl View for VecRangeLockGuard {
    type V = Range<usize>;

    /// The range that the guard was granted.
    closed spec fn view(&self) -> Range<usize> {
        self.range
    }
}

impl VecRangeLockGuard {
    pub(crate) fn new(range: Range<usize>) -> (g: Self)
        ensures
            g@ == range,
    {
        VecRangeLockGuard { range }
    }

    /// The range that the guard was granted.
    pub fn range(&self) -> (r: Range<usize>)
        ensures
            r == self@,
    {
        self.range.start..self.range.end
    }
}

/// Range lock for one `Vec<T>`, held by one owner.
///
/// ```ignore
/// let mut lock = VecRangeLock::new(vec![10, 11, 12, 13]);
///
/// let low = lock.try_lock(RangeBound::Included(0), RangeBound::Excluded(2)).unwrap();
/// let high = lock.try_lock(RangeBound::Included(2), RangeBound::Unbounded).unwrap();
/// // What overlaps a reserved range is refused.
/// assert!(lock.try_lock(RangeBound::Included(1), RangeBound::Included(2)).is_err());
///
/// lock.get_mut_slice(&low)[0] = 100; // data[0]
/// lock.get_mut_slice(&high)[0] = 200; // data[2]
/// lock.unlock(low);
/// lock.unlock(high);
///
/// assert_eq!(lock.into_inner(), vec![100, 11, 200, 13]);
/// ```
#[derive(Debug)]
pub struct VecRangeLock<T> {
    /// Set of the currently locked ranges.
    ranges: LockedRanges,
    /// Whether the bookkeeping was marked as poisoned.
    poisoned: bool,
    /// The underlying data.
    data: Vec<T>,
    /// Length of the underlying Vec.
    len: usize,
}

impl<T> View for VecRangeLock<T> {
    type V = VecRangeLockView<T>;

    closed spec fn view(&self) -> VecRangeLockView<T> {
        VecRangeLockView { data: self.data@, reserved: self.ranges@, poisoned: self.poisoned }
    }
}

impl<T> VecRangeLock<T> {
    /// The stored length is the length of the buffer.
    pub closed spec fn consistent(&self) -> bool {
        self.len == self.data@.len()
    }

    /// The lock's invariant.
    pub open spec fn wf(&self) -> bool {
        self.consistent() && self@.valid()
    }

    /// Makes a lock that protects `data`, with nothing reserved.
    pub fn new(data: Vec<T>) -> (lock: Self)
        ensures
            lock.wf(),
            lock@.data == data@,
            lock@.reserved == Map::<usize, usize>::empty(),
            !lock@.poisoned,
    {
        let len = data.len();
        VecRangeLock { ranges: LockedRanges::new(), poisoned: false, data, len }
    }

    /// The number of elements of the buffer.
    pub fn data_len(&self) -> (n: usize)
        requires
            self.wf(),
        ensures
            n == self@.data.len(),
    {
        self.len
    }

    /// The set of the ranges that are reserved at the moment.
    pub fn ranges(&self) -> (r: &LockedRanges)
        ensures
            r@ == self@.reserved,
    {
        &self.ranges
    }

    /// Whether the bookkeeping is poisoned.
    pub fn is_poisoned(&self) -> (p: bool)
        ensures
            p == self@.poisoned,
    {
        self.poisoned
    }

    /// Marks the bookkeeping as poisoned, as a mutex is once a thread ended abnormally
    /// while it held the mutex: from now on an attempt to lock a non-empty range reports
    /// `LockError::Poisoned`.
    pub fn poison(&mut self)
        ensures
            final(self)@ == (VecRangeLockView { poisoned: true, ..old(self)@ }),
            old(self).wf() ==> final(self).wf(),
    {
        self.poisoned = true;
    }

    /// Gives the buffer back. Nothing may be reserved any more.
    pub fn into_inner(self) -> (data: Vec<T>)
        requires
            self.wf(),
            self@.reserved.is_empty(),
        ensures
            data@ == self@.data,
    {
        self.data
    }

    /// Tries to lock the part of the buffer that the range expression names.
    ///
    /// An empty range is granted at once and reserves nothing. Any other range is granted
    /// if it overlaps no reserved range, and is then reserved; if it does overlap one, the
    /// attempt ends in `LockError::WouldBlock`. On a poisoned lock a non-empty range is
    /// answered with `LockError::Poisoned` and a guard for which nothing is reserved.
    pub fn try_lock(&mut self, start: RangeBound, end: RangeBound) -> (r: Result<
        VecRangeLockGuard,
        LockError<VecRangeLockGuard>,
    >)
        requires
            old(self).wf(),
            bounds_ok(start, end),
            old(self)@.covers(spec_bounds(start, end, old(self)@.data.len() as usize)),
        ensures
            final(self).wf(),
            ({
                let range = spec_bounds(start, end, old(self)@.data.len() as usize);
                match r {
                    Ok(guard) => {
                        &&& old(self)@.grants(range)
                        &&& guard@ == range
                        &&& final(self)@ == old(self)@.after_lock(range)
                        &&& final(self)@.holds(range)
                    },
                    Err(LockError::WouldBlock) => {
                        &&& !old(self)@.grants(range)
                        &&& !old(self)@.poisoned
                        &&& final(self)@ == old(self)@
                    },
                    Err(LockError::Poisoned(guard)) => {
                        &&& !old(self)@.grants(range)
                        &&& old(self)@.poisoned
                        &&& guard@ == range
                        &&& final(self)@ == old(self)@
                    },
                }
            }),
    {
        let data_len = self.data_len();
        let (range_start, range_end) = get_bounds(start, end, data_len);
        let range = range_start..range_end;

        if range_start == range_end {
            Ok(VecRangeLockGuard::new(range))
        } else if !self.poisoned {
            assert(self.ranges@ == self@.reserved);
            if self.ranges.insert(&range) {
                Ok(VecRangeLockGuard::new(range))
            } else {
                Err(LockError::WouldBlock)
            }
        } else {
            Err(LockError::Poisoned(VecRangeLockGuard::new(range)))
        }
    }

    /// Takes a live guard back and frees its range. A guard for an empty range frees
    /// nothing. The guard that came with `LockError::Poisoned` is not live: nothing was
    /// reserved for it, and it is not given back.
    pub fn unlock(&mut self, guard: VecRangeLockGuard)
        requires
            old(self).wf(),
            old(self)@.holds(guard@),
            guard@.start != guard@.end ==> !old(self)@.poisoned,
        ensures
            final(self).wf(),
            final(self)@ == old(self)@.after_unlock(guard@),
    {
        if guard.range.start != guard.range.end {
            self.ranges.remove(&guard.range);
        }
    }

    /// The part of the buffer that the guard was granted, for reading.
    pub fn get_slice(&self, guard: &VecRangeLockGuard) -> (s: &[T])
        requires
            self.wf(),
            self@.admits(guard@),
        ensures
            s@ == self@.data.subrange(guard@.start as int, guard@.end as int),
    {
        &self.data[guard.range.start..guard.range.end]
    }

    /// The part of the buffer that the guard was granted, for writing. What is written
    /// lands in the buffer at the guard's range; nothing else changes.
    pub fn get_mut_slice(&mut self, guard: &VecRangeLockGuard) -> (s: &mut [T])
        requires
            old(self).wf(),
            old(self)@.admits(guard@),
        ensures
            s@ == old(self)@.data.subrange(guard@.start as int, guard@.end as int),
            final(s)@.len() == s@.len(),
            final(self).wf(),
            final(self)@.reserved == old(self)@.reserved,
            final(self)@.poisoned == old(self)@.poisoned,
            final(self)@.data == spliced(
                old(self)@.data,
                guard@.start as int,
                guard@.end as int,
                final(s)@,
            ),
    {
        let ghost before = self.data@;
        proof {
            assert(self.ranges@ == self@.reserved);
        }
        let s = slice_mut(&mut self.data, guard.range.start, guard.range.end);
        proof {
            let after = spliced(before, guard@.start as int, guard@.end as int, final(s)@);
            assert(after.len() == before.len());
        }
        s
    }
}

} // verus!
