//! The cyclic range lock: the buffer is a row of cycles, each cycle a row of
//! `cycle_len` slices of `slice_len` elements, and locking one cycle offset reserves
//! the slice at that offset in every cycle.

use crate::rangelock::LockError;
use crate::slices::{slice_mut, spliced};
use std::ops::Range;
use vstd::multiset::Multiset;
use vstd::prelude::*;

verus! {

/// Whether bit `bit` of `word` is set.
pub open spec fn bit_is_set(word: u32, bit: u32) -> bool {
    word & (1u32 << bit) != 0
}

/// Whether the words of a lock mark `cycle_offset` as locked: 32 offsets to a word, the
/// lowest offset at the lowest bit.
pub open spec fn offset_locked(words: Seq<u32>, cycle_offset: usize) -> bool {
    bit_is_set(words[cycle_offset as int / 32], (cycle_offset % 32) as u32)
}

proof fn lemma_or_bit(word: u32, bit: u32, other: u32)
    by (bit_vector)
    requires
        bit < 32,
        other < 32,
    ensures
        ((word | (1u32 << bit)) & (1u32 << other) != 0) == (other == bit || word & (1u32 << other)
            != 0),
{
}

proof fn lemma_xor_bit(word: u32, bit: u32, other: u32)
    by (bit_vector)
    requires
        bit < 32,
        other < 32,
    ensures
        ((word ^ (1u32 << bit)) & (1u32 << other) != 0) == (if other == bit {
            word & (1u32 << other) == 0
        } else {
            word & (1u32 << other) != 0
        }),
{
}

proof fn lemma_zero_word(bit: u32)
    by (bit_vector)
    requires
        bit < 32,
    ensures
        0u32 & (1u32 << bit) == 0,
{
}

proof fn lemma_set_bit_from(word: u32, from: u32) -> (bit: u32)
    requires
        from < 32,
        word >> from != 0,
    ensures
        bit < 32,
        bit_is_set(word, bit),
    decreases 32 - from,
{
    if word & (1u32 << from) != 0 {
        from
    } else {
        assert(from < 31 && word >> ((from + 1) as u32) != 0) by (bit_vector)
            requires
                from < 32,
                word >> from != 0,
                word & (1u32 << from) == 0,
        ;
        lemma_set_bit_from(word, (from + 1) as u32)
    }
}

proof fn lemma_nonzero_word(word: u32) -> (bit: u32)
    requires
        word != 0,
    ensures
        bit < 32,
        bit_is_set(word, bit),
{
    assert(word >> 0u32 != 0) by (bit_vector)
        requires
            word != 0,
    ;
    lemma_set_bit_from(word, 0)
}

/// Sets the bits of `mask` in `word` and returns what `word` held before.
fn fetch_or(word: &mut u32, mask: u32) -> (prev: u32)
    ensures
        prev == *old(word),
        *final(word) == *old(word) | mask,
{
    let prev = *word;
    *word = prev | mask;
    prev
}

/// Flips the bits of `mask` in `word` and returns what `word` held before.
fn fetch_xor(word: &mut u32, mask: u32) -> (prev: u32)
    ensures
        prev == *old(word),
        *final(word) == *old(word) ^ mask,
{
    let prev = *word;
    *word = prev ^ mask;
    prev
}

/// The geometry that a lock can be made with: neither length is zero, the cycle length
/// leaves room to round it up to whole words, and a cycle's number of elements fits
/// in `usize`.
pub open spec fn geometry_ok(slice_len: usize, cycle_len: usize) -> bool {
    &&& slice_len > 0
    &&& 0 < cycle_len <= usize::MAX - 31
    &&& slice_len * cycle_len <= usize::MAX
}

/// The token for one granted cycle offset. It comes out of `RepVecRangeLock::try_lock`
/// and gives access to the slices at its offset through `RepVecRangeLock::get_slice` and
/// `get_mut_slice`, until `RepVecRangeLock::unlock` takes it back.
#[derive(Debug)]
pub struct RepVecRangeLockGuard {
    cycle_offset: usize,
    cycle_offset_slices: usize,
}

impl View for RepVecRangeLockGuard {
    type V = usize;

    /// The cycle offset that the guard was granted.
    closed spec fn view(&self) -> usize {
        self.cycle_offset
    }
}

impl RepVecRangeLockGuard {
    /// The index in a cycle at which the guard's slice starts.
    pub closed spec fn base(&self) -> usize {
        self.cycle_offset_slices
    }

    pub(crate) fn new(cycle_offset: usize, cycle_offset_slices: usize) -> (g: Self)
        ensures
            g@ == cycle_offset,
            g.base() == cycle_offset_slices,
    {
        RepVecRangeLockGuard { cycle_offset, cycle_offset_slices }
    }

    /// The cycle offset that the guard was granted.
    pub fn cycle_offset(&self) -> (k: usize)
        ensures
            k == self@,
    {
        self.cycle_offset
    }
}

/// The shape of a cyclic lock, fixed when the lock is made: the number of elements of
/// a slice, the number of slices of a cycle, and their product.
#[derive(Clone, Copy, Debug)]
pub struct CycleGeometry {
    /// Range length, in number of data elements.
    slice_len: usize,
    /// Cycle length, in number of slices.
    cycle_len: usize,
    /// Cycle length, in number of data elements.
    cycle_num_elems: usize,
}

impl CycleGeometry {
    /// The number of elements of a slice.
    pub closed spec fn spec_slice_len(&self) -> usize {
        self.slice_len
    }

    /// The number of slices of a cycle.
    pub closed spec fn spec_cycle_len(&self) -> usize {
        self.cycle_len
    }

    /// The stored number of elements of a cycle is the product of the two lengths.
    pub closed spec fn consistent(&self) -> bool {
        self.cycle_num_elems == self.slice_len * self.cycle_len
    }

    /// The geometry's invariant.
    pub open spec fn wf(&self) -> bool {
        geometry_ok(self.slice_len(), self.cycle_len()) && self.consistent()
    }

    /// The number of elements of one cycle.
    pub open spec fn cycle_elems(&self) -> int {
        self.slice_len() * self.cycle_len()
    }

    /// The index in the buffer at which the slice of `cycle_offset` in cycle `cycle` starts.
    pub open spec fn slice_start(&self, cycle_offset: usize, cycle: usize) -> int {
        cycle * self.cycle_elems() + cycle_offset * self.slice_len()
    }

    /// Whether the slice of `cycle_offset` in cycle `cycle` lies within a buffer of
    /// `data_len` elements.
    pub open spec fn slice_in_bounds(&self, cycle_offset: usize, cycle: usize, data_len: nat) -> bool {
        self.slice_start(cycle_offset, cycle) + self.slice_len() <= data_len
    }

    /// Whether `guard` fits this geometry: its offset is one of the cycle, and its slice
    /// starts in a cycle where the slices of the offsets before it end.
    pub open spec fn fits(&self, guard: &RepVecRangeLockGuard) -> bool {
        &&& guard@ < self.cycle_len()
        &&& guard.base() == guard@ * self.slice_len()
    }

    /// The slices that two guards reach never share an index: the slices of two offsets,
    /// or of one offset in two cycles, lie apart in the buffer.
    pub proof fn lemma_slices_disjoint(&self, a: usize, cycle_a: usize, b: usize, cycle_b: usize)
        requires
            self.wf(),
            a < self.cycle_len(),
            b < self.cycle_len(),
            a != b || cycle_a != cycle_b,
        ensures
            self.slice_start(a, cycle_a) + self.slice_len() <= self.slice_start(b, cycle_b)
                || self.slice_start(b, cycle_b) + self.slice_len() <= self.slice_start(a, cycle_a),
    {
        let slice_len = self.slice_len() as int;
        let cycle_len = self.cycle_len() as int;
        let slot_a = cycle_a * cycle_len + a;
        let slot_b = cycle_b * cycle_len + b;
        assert(slot_a != slot_b) by (nonlinear_arith)
            requires
                slot_a == cycle_a * cycle_len + a,
                slot_b == cycle_b * cycle_len + b,
                0 <= a < cycle_len,
                0 <= b < cycle_len,
                a != b || cycle_a != cycle_b,
        {
            if cycle_a < cycle_b {
                assert((cycle_a + 1) * cycle_len <= cycle_b * cycle_len);
            } else if cycle_b < cycle_a {
                assert((cycle_b + 1) * cycle_len <= cycle_a * cycle_len);
            }
        }
        assert(self.slice_start(a, cycle_a) == slot_a * slice_len) by (nonlinear_arith)
            requires
                self.slice_start(a, cycle_a) == cycle_a * (slice_len * cycle_len) + a * slice_len,
                slot_a == cycle_a * cycle_len + a,
        ;
        assert(self.slice_start(b, cycle_b) == slot_b * slice_len) by (nonlinear_arith)
            requires
                self.slice_start(b, cycle_b) == cycle_b * (slice_len * cycle_len) + b * slice_len,
                slot_b == cycle_b * cycle_len + b,
        ;
        assert(slot_a * slice_len + slice_len <= slot_b * slice_len || slot_b * slice_len
            + slice_len <= slot_a * slice_len) by (nonlinear_arith)
            requires
                slot_a != slot_b,
                slice_len > 0,
        {
            if slot_a < slot_b {
                assert((slot_a + 1) * slice_len <= slot_b * slice_len);
            } else {
                assert((slot_b + 1) * slice_len <= slot_a * slice_len);
            }
        }
    }

    /// Makes the geometry of slices of `slice_len` elements in cycles of `cycle_len`
    /// slices.
    pub fn new(slice_len: usize, cycle_len: usize) -> (geometry: Self)
        requires
            geometry_ok(slice_len, cycle_len),
        ensures
            geometry.wf(),
            geometry.slice_len() == slice_len,
            geometry.cycle_len() == cycle_len,
    {
        assert(cycle_len * slice_len == slice_len * cycle_len) by (nonlinear_arith);
        let cycle_num_elems = cycle_len * slice_len;
        CycleGeometry { slice_len, cycle_len, cycle_num_elems }
    }

    /// The number of elements of a slice.
    #[verifier::when_used_as_spec(spec_slice_len)]
    pub fn slice_len(&self) -> (n: usize)
        ensures
            n == self.spec_slice_len(),
    {
        self.slice_len
    }

    /// The number of slices of a cycle.
    #[verifier::when_used_as_spec(spec_cycle_len)]
    pub fn cycle_len(&self) -> (n: usize)
        ensures
            n == self.spec_cycle_len(),
    {
        self.cycle_len
    }

    /// The number of 32-bit words that hold one bit for each cycle offset.
    pub fn word_count(&self) -> (n: usize)
        requires
            self.wf(),
        ensures
            n == (self.cycle_len() + 31) / 32,
    {
        (self.cycle_len + 31) / 32
    }

    /// Where the bit of `cycle_offset` is: the index of its word, and the word with
    /// that bit alone set.
    pub fn offset_word(&self, cycle_offset: usize) -> (r: (usize, u32))
        requires
            self.wf(),
            cycle_offset < self.cycle_len(),
        ensures
            r.0 == cycle_offset / 32,
            r.0 < (self.cycle_len() + 31) / 32,
            r.1 == 1u32 << ((cycle_offset % 32) as u32),
    {
        let idx = cycle_offset / 32;
        let mask = 1u32 << ((cycle_offset % 32) as u32);
        (idx, mask)
    }

    /// What an attempt to lock `cycle_offset` comes to, given the word of the offset
    /// as it was before the attempt set the offset's bit in it: a guard if the bit was
    /// clear, `None` if it was set already.
    pub fn granted(&self, cycle_offset: usize, prev: u32) -> (r: Option<RepVecRangeLockGuard>)
        requires
            self.wf(),
            cycle_offset < self.cycle_len(),
        ensures
            r is Some <==> !bit_is_set(prev, (cycle_offset % 32) as u32),
            r matches Some(guard) ==> guard@ == cycle_offset && self.fits(&guard),
    {
        let mask = 1u32 << ((cycle_offset % 32) as u32);
        if prev & mask == 0 {
            assert(self.slice_len * cycle_offset <= self.slice_len * self.cycle_len
                && self.slice_len * cycle_offset == cycle_offset * self.slice_len)
                by (nonlinear_arith)
                requires
                    cycle_offset < self.cycle_len,
            ;
            // Multiply cannot overflow: the offset is below the cycle length.
            let cycle_offset_slices = self.slice_len * cycle_offset;
            Some(RepVecRangeLockGuard::new(cycle_offset, cycle_offset_slices))
        } else {
            None
        }
    }

    /// Where the guard's slice of cycle `cycle` lies in a buffer of `data_len` elements,
    /// or `None` if the slice would reach beyond the end of the buffer.
    pub fn slice_bounds(&self, guard: &RepVecRangeLockGuard, cycle: usize, data_len: usize) -> (r:
        Option<Range<usize>>)
        requires
            self.wf(),
            self.fits(guard),
        ensures
            match r {
                Some(range) => {
                    &&& self.slice_in_bounds(guard@, cycle, data_len as nat)
                    &&& range.start == self.slice_start(guard@, cycle)
                    &&& range.end == range.start + self.slice_len()
                },
                None => !self.slice_in_bounds(guard@, cycle, data_len as nat),
            },
    {
        proof {
            assert(self.cycle_num_elems * cycle == cycle * (self.slice_len * self.cycle_len))
                by (nonlinear_arith)
                requires
                    self.cycle_num_elems == self.slice_len * self.cycle_len,
            ;
            assert(0 <= self.cycle_num_elems * cycle) by (nonlinear_arith);
        }
        if let Some(cycle_elemidx) = self.cycle_num_elems.checked_mul(cycle) {
            if let Some(begin) = cycle_elemidx.checked_add(guard.cycle_offset_slices) {
                if let Some(end) = begin.checked_add(self.slice_len) {
                    if end <= data_len {
                        return Some(begin..end);
                    }
                }
            }
        }
        None
    }
}

/// What a `RepVecRangeLock` stands for: its buffer, its geometry, and the set of the
/// cycle offsets that are locked.
pub struct RepVecRangeLockView<T> {
    pub data: Seq<T>,
    pub geometry: CycleGeometry,
    pub locked: Set<usize>,
}

impl<T> RepVecRangeLockView<T> {
    /// The geometry is one that a lock can be made with, and every locked offset is an
    /// offset of the cycle.
    pub open spec fn valid(self) -> bool {
        &&& self.geometry.wf()
        &&& forall|k: usize| #[trigger] self.locked.contains(k) ==> k < self.geometry.cycle_len()
    }

    /// Whether the slice of `cycle_offset` in cycle `cycle` lies within the buffer.
    pub open spec fn slice_in_bounds(self, cycle_offset: usize, cycle: usize) -> bool {
        self.geometry.slice_in_bounds(cycle_offset, cycle, self.data.len())
    }

    /// The index in the buffer at which the slice of `cycle_offset` in cycle `cycle` starts.
    pub open spec fn slice_start(self, cycle_offset: usize, cycle: usize) -> int {
        self.geometry.slice_start(cycle_offset, cycle)
    }

    /// The lock after `cycle_offset` was granted.
    pub open spec fn after_lock(self, cycle_offset: usize) -> Self {
        RepVecRangeLockView { locked: self.locked.insert(cycle_offset), ..self }
    }

    /// The lock after the guard for `cycle_offset` was given back.
    pub open spec fn after_unlock(self, cycle_offset: usize) -> Self {
        RepVecRangeLockView { locked: self.locked.remove(cycle_offset), ..self }
    }
}

impl<T> RepVecRangeLockView<T> {
    /// Whether `guards` are the guards that are live on this lock: every locked offset
    /// has one guard, and no other offset has any.
    pub open spec fn tracks(self, guards: Multiset<usize>) -> bool {
        forall|k: usize| #[trigger]
            guards.count(k) == if self.locked.contains(k) {
                1nat
            } else {
                0nat
            }
    }

    /// An offset that is granted and given back leaves the lock as it was, so that the
    /// same offset is free again.
    pub proof fn lemma_round_trip(self, cycle_offset: usize)
        requires
            self.valid(),
            cycle_offset < self.geometry.cycle_len(),
            !self.locked.contains(cycle_offset),
        ensures
            self.after_lock(cycle_offset).valid(),
            self.after_lock(cycle_offset).locked.contains(cycle_offset),
            self.after_lock(cycle_offset).after_unlock(cycle_offset) == self,
            !self.after_lock(cycle_offset).after_unlock(cycle_offset).locked.contains(cycle_offset),
    {
        assert(self.locked.insert(cycle_offset).remove(cycle_offset) =~= self.locked);
    }

    /// A lock that was just made has no live guard.
    pub proof fn lemma_tracks_none(self)
        requires
            self.locked == Set::<usize>::empty(),
        ensures
            self.tracks(Multiset::empty()),
    {
    }

    /// Granting a free offset adds its guard to the live guards.
    pub proof fn lemma_tracks_lock(self, guards: Multiset<usize>, cycle_offset: usize)
        requires
            self.tracks(guards),
            !self.locked.contains(cycle_offset),
        ensures
            self.after_lock(cycle_offset).tracks(guards.insert(cycle_offset)),
    {
        let more = guards.insert(cycle_offset);
        assert forall|k: usize| #[trigger]
            more.count(k) == if self.after_lock(cycle_offset).locked.contains(k) {
                1nat
            } else {
                0nat
            } by {
            assert(guards.count(k) == if self.locked.contains(k) {
                1nat
            } else {
                0nat
            });
        }
    }

    /// A live guard's offset is locked, and giving the guard back takes it from the live
    /// guards.
    pub proof fn lemma_tracks_unlock(self, guards: Multiset<usize>, cycle_offset: usize)
        requires
            self.tracks(guards),
            guards.count(cycle_offset) > 0,
        ensures
            self.locked.contains(cycle_offset),
            self.after_unlock(cycle_offset).tracks(guards.remove(cycle_offset)),
    {
        let fewer = guards.remove(cycle_offset);
        assert forall|k: usize| #[trigger]
            fewer.count(k) == if self.after_unlock(cycle_offset).locked.contains(k) {
                1nat
            } else {
                0nat
            } by {
            assert(guards.count(k) == if self.locked.contains(k) {
                1nat
            } else {
                0nat
            });
        }
    }

    /// Once every guard is given back, no offset is locked: the buffer can be taken out
    /// of the lock.
    pub proof fn lemma_tracks_empty(self, guards: Multiset<usize>)
        requires
            self.tracks(guards),
            guards == Multiset::<usize>::empty(),
        ensures
            self.locked.is_empty(),
    {
        assert forall|k: usize| !self.locked.contains(k) by {
            assert(guards.count(k) == 0);
        }
        assert(self.locked =~= Set::<usize>::empty());
    }
}

/// Interleaved range lock for one `Vec<T>`, held by one owner.
///
/// The slices are interleaved with each other, and the pattern of the slices repeats
/// with every cycle. A guard for one cycle offset reaches the slice at that offset in
/// each cycle:
///
/// ```text
/// data:  1, 2,  3, 4,   5,  6,     <- cycle 0
///        7, 8,  9, 10,  11, 12     <- cycle 1
///        ^--^   ^---^   ^----^
///          |      |       |
///    offset-0  offset-1  offset-2
/// ```
///
/// ```ignore
/// let data = vec![1, 2, 3, 4, 5, 6, 7, 8, 9, 10, 11, 12];
/// let mut lock = RepVecRangeLock::new(data, 2, 3); // slices of 2, cycles of 3 slices
///
/// let guard = lock.try_lock(1).expect("Failed to lock offset.");
/// assert_eq!(lock.get_slice(&guard, 0), [3, 4]); // cycle 0
/// assert_eq!(lock.get_slice(&guard, 1), [9, 10]); // cycle 1
/// lock.get_mut_slice(&guard, 1)[0] = 90;
/// lock.unlock(guard);
///
/// assert_eq!(lock.into_inner(), vec![1, 2, 3, 4, 5, 6, 7, 8, 90, 10, 11, 12]);
/// ```
#[derive(Debug)]
pub struct RepVecRangeLock<T> {
    /// Slice length and cycle length.
    geometry: CycleGeometry,
    /// Bitmask of locked cycle offsets.
    locked_offsets: Vec<u32>,
    /// The protected data.
    data: Vec<T>,
}

impl<T> View for RepVecRangeLock<T> {
    type V = RepVecRangeLockView<T>;

    closed spec fn view(&self) -> RepVecRangeLockView<T> {
        RepVecRangeLockView {
            data: self.data@,
            geometry: self.geometry,
            locked: Set::new(
                |k: usize| k < self.geometry.cycle_len() && offset_locked(self.locked_offsets@, k),
            ),
        }
    }
}

impl<T> RepVecRangeLock<T> {
    /// There is one bit for each cycle offset, and no bit beyond them is set.
    pub closed spec fn consistent(&self) -> bool {
        &&& self.locked_offsets@.len() == (self.geometry.cycle_len() + 31) / 32
        &&& forall|i: int, bit: u32|
            0 <= i < self.locked_offsets@.len() && bit < 32 && 32 * i + bit
                >= self.geometry.cycle_len() ==> !#[trigger] bit_is_set(self.locked_offsets@[i], bit)
    }

    /// The lock's invariant.
    pub open spec fn wf(&self) -> bool {
        self.consistent() && self@.valid()
    }

    /// Whether `guard` gives access to the buffer: it fits the lock's geometry, and its
    /// offset is locked.
    pub open spec fn admits(&self, guard: &RepVecRangeLockGuard) -> bool {
        self@.geometry.fits(guard) && self@.locked.contains(guard@)
    }

    /// Makes a lock that protects `data`, with no offset locked.
    pub fn new(data: Vec<T>, slice_len: usize, cycle_len: usize) -> (lock: Self)
        requires
            geometry_ok(slice_len, cycle_len),
        ensures
            lock.wf(),
            lock@.data == data@,
            lock@.geometry.slice_len() == slice_len,
            lock@.geometry.cycle_len() == cycle_len,
            lock@.locked == Set::<usize>::empty(),
    {
        let geometry = CycleGeometry::new(slice_len, cycle_len);
        let num = geometry.word_count();
        let locked_offsets = vec![0u32; num];
        let lock = RepVecRangeLock { geometry, locked_offsets, data };
        proof {
            assert forall|i: int, bit: u32|
                0 <= i < lock.locked_offsets@.len() && bit < 32 implies !#[trigger] bit_is_set(
                lock.locked_offsets@[i],
                bit,
            ) by {
                lemma_zero_word(bit);
            }
            assert(lock@.locked =~= Set::<usize>::empty());
        }
        lock
    }

    /// The number of elements of the buffer.
    pub fn data_len(&self) -> (n: usize)
        ensures
            n == self@.data.len(),
    {
        self.data.len()
    }

    /// The lock's geometry.
    pub fn geometry(&self) -> (geometry: &CycleGeometry)
        ensures
            *geometry == self@.geometry,
    {
        &self.geometry
    }

    /// The words that mark the locked cycle offsets.
    pub fn locked_offsets(&self) -> (words: &Vec<u32>)
        requires
            self.wf(),
        ensures
            words@.len() == (self@.geometry.cycle_len() + 31) / 32,
            forall|k: usize|
                k < self@.geometry.cycle_len() ==> (#[trigger] offset_locked(words@, k)
                    <==> self@.locked.contains(k)),
            forall|i: int, bit: u32|
                0 <= i < words@.len() && bit < 32 && 32 * i + bit >= self@.geometry.cycle_len()
                    ==> !#[trigger] bit_is_set(words@[i], bit),
    {
        &self.locked_offsets
    }

    /// Whether no cycle offset is locked: every word is zero.
    pub fn all_clear(&self) -> (r: bool)
        requires
            self.wf(),
        ensures
            r == self@.locked.is_empty(),
    {
        let mut i: usize = 0;
        while i < self.locked_offsets.len()
            invariant
                self.wf(),
                i <= self.locked_offsets@.len(),
                forall|j: int| 0 <= j < i ==> self.locked_offsets@[j] == 0,
            decreases self.locked_offsets@.len() - i,
        {
            let word = self.locked_offsets[i];
            if word != 0 {
                proof {
                    let bit = lemma_nonzero_word(word);
                    let k = (32 * i + bit) as usize;
                    assert(k < self.geometry.cycle_len());
                    assert(k as int / 32 == i && (k % 32) as u32 == bit);
                    assert(offset_locked(self.locked_offsets@, k));
                    assert(self@.locked.contains(k));
                }
                return false;
            }
            i += 1;
        }
        proof {
            assert forall|k: usize| !self@.locked.contains(k) by {
                if k < self.geometry.cycle_len() {
                    lemma_zero_word((k % 32) as u32);
                }
            }
            assert(self@.locked =~= Set::<usize>::empty());
        }
        true
    }

    /// Gives the buffer back. No offset may be locked any more.
    pub fn into_inner(self) -> (data: Vec<T>)
        requires
            self.wf(),
            self@.locked.is_empty(),
        ensures
            data@ == self@.data,
    {
        self.data
    }

    /// Tries to lock the slices at `cycle_offset`: granted if the offset is free, which
    /// locks it; `LockError::WouldBlock` if it is locked.
    pub fn try_lock(&mut self, cycle_offset: usize) -> (r: Result<
        RepVecRangeLockGuard,
        LockError<RepVecRangeLockGuard>,
    >)
        requires
            old(self).wf(),
            cycle_offset < old(self)@.geometry.cycle_len(),
        ensures
            final(self).wf(),
            match r {
                Ok(guard) => {
                    &&& !old(self)@.locked.contains(cycle_offset)
                    &&& guard@ == cycle_offset
                    &&& final(self)@ == old(self)@.after_lock(cycle_offset)
                    &&& final(self).admits(&guard)
                },
                Err(LockError::WouldBlock) => {
                    &&& old(self)@.locked.contains(cycle_offset)
                    &&& final(self)@ == old(self)@
                },
                Err(LockError::Poisoned(_)) => false,
            },
    {
        let (idx, mask) = self.geometry.offset_word(cycle_offset);
        let prev = fetch_or(&mut self.locked_offsets[idx], mask);
        proof {
            let bit = (cycle_offset % 32) as u32;
            let words = old(self).locked_offsets@;
            assert(self.locked_offsets@ == words.update(idx as int, prev | mask));
            assert forall|i: int, other: u32| 0 <= i < words.len() && other < 32 implies (
            #[trigger] bit_is_set(self.locked_offsets@[i], other)) == ((i == idx && other == bit)
                || bit_is_set(words[i], other)) by {
                if i == idx {
                    lemma_or_bit(prev, bit, other);
                }
            }
            assert forall|k: usize| k < self.geometry.cycle_len() implies (#[trigger] offset_locked(
                self.locked_offsets@,
                k,
            )) == (k == cycle_offset || offset_locked(words, k)) by {
                assert(bit_is_set(self.locked_offsets@[k as int / 32], (k % 32) as u32) == ((k
                    as int / 32 == idx && (k % 32) as u32 == bit) || bit_is_set(
                    words[k as int / 32],
                    (k % 32) as u32,
                )));
            }
            assert(self@.locked =~= old(self)@.locked.insert(cycle_offset));
            assert(offset_locked(words, cycle_offset) ==> self@.locked =~= old(self)@.locked);
        }
        match self.geometry.granted(cycle_offset, prev) {
            // Successfully acquired the lock.
            Some(guard) => Ok(guard),
            // Already locked.
            None => Err(LockError::WouldBlock),
        }
    }

    /// Takes a guard back and frees its offset.
    pub fn unlock(&mut self, guard: RepVecRangeLockGuard)
        requires
            old(self).wf(),
            old(self).admits(&guard),
        ensures
            final(self).wf(),
            final(self)@ == old(self)@.after_unlock(guard@),
    {
        let cycle_offset = guard.cycle_offset;
        let (idx, mask) = self.geometry.offset_word(cycle_offset);
        let prev = fetch_xor(&mut self.locked_offsets[idx], mask);
        proof {
            let bit = (cycle_offset % 32) as u32;
            let words = old(self).locked_offsets@;
            assert(offset_locked(words, cycle_offset));
            // The bit was set: the guard's offset was locked.
            assert(prev & mask != 0);
            assert(self.locked_offsets@ == words.update(idx as int, prev ^ mask));
            assert forall|i: int, other: u32| 0 <= i < words.len() && other < 32 implies (
            #[trigger] bit_is_set(self.locked_offsets@[i], other)) == (!(i == idx && other == bit)
                && bit_is_set(words[i], other)) by {
                if i == idx {
                    lemma_xor_bit(prev, bit, other);
                }
            }
            assert forall|k: usize| k < self.geometry.cycle_len() implies (#[trigger] offset_locked(
                self.locked_offsets@,
                k,
            )) == (k != cycle_offset && offset_locked(words, k)) by {
                assert(bit_is_set(self.locked_offsets@[k as int / 32], (k % 32) as u32) == (!(k
                    as int / 32 == idx && (k % 32) as u32 == bit) && bit_is_set(
                    words[k as int / 32],
                    (k % 32) as u32,
                )));
            }
            assert(self@.locked =~= old(self)@.locked.remove(cycle_offset));
        }
    }

    /// Where in the buffer the guard's slice of cycle `cycle` lies, or `None` if the
    /// slice would reach beyond the end of the buffer.
    pub fn slice_bounds(&self, guard: &RepVecRangeLockGuard, cycle: usize) -> (r: Option<
        Range<usize>,
    >)
        requires
            self.wf(),
            self@.geometry.fits(guard),
        ensures
            match r {
                Some(range) => {
                    &&& self@.slice_in_bounds(guard@, cycle)
                    &&& range.start == self@.slice_start(guard@, cycle)
                    &&& range.end == range.start + self@.geometry.slice_len()
                },
                None => !self@.slice_in_bounds(guard@, cycle),
            },
    {
        self.geometry.slice_bounds(guard, cycle, self.data.len())
    }

    /// The guard's slice of cycle `cycle`, for reading.
    pub fn get_slice(&self, guard: &RepVecRangeLockGuard, cycle: usize) -> (s: &[T])
        requires
            self.wf(),
            self.admits(guard),
            self@.slice_in_bounds(guard@, cycle),
        ensures
            s@ == self@.data.subrange(
                self@.slice_start(guard@, cycle),
                self@.slice_start(guard@, cycle) + self@.geometry.slice_len(),
            ),
    {
        match self.slice_bounds(guard, cycle) {
            Some(range) => &self.data[range.start..range.end],
            None => unreached(),
        }
    }

    /// The guard's slice of cycle `cycle`, for writing. What is written lands in the
    /// buffer at that slice; nothing else changes.
    pub fn get_mut_slice(&mut self, guard: &RepVecRangeLockGuard, cycle: usize) -> (s: &mut [T])
        requires
            old(self).wf(),
            old(self).admits(guard),
            old(self)@.slice_in_bounds(guard@, cycle),
        ensures
            s@ == old(self)@.data.subrange(
                old(self)@.slice_start(guard@, cycle),
                old(self)@.slice_start(guard@, cycle) + old(self)@.geometry.slice_len(),
            ),
            final(s)@.len() == s@.len(),
            final(self).wf(),
            final(self)@.geometry == old(self)@.geometry,
            final(self)@.locked == old(self)@.locked,
            final(self)@.data == spliced(
                old(self)@.data,
                old(self)@.slice_start(guard@, cycle),
                old(self)@.slice_start(guard@, cycle) + old(self)@.geometry.slice_len(),
                final(s)@,
            ),
    {
        match self.slice_bounds(guard, cycle) {
            Some(range) => {
                proof {
                    assert(self.consistent());
                }
                slice_mut(&mut self.data, range.start, range.end)
            },
            None => unreached(),
        }
    }
}

} // verus!
