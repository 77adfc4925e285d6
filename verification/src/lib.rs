//! Range locks for one `Vec<T>`: the bookkeeping that hands out access to parts of a
//! buffer, so that no two holders ever reach the same element.
//!
//! There are two locks.
//!
//! * [`VecRangeLock`] is the general one. Any half-open range of the buffer can be
//!   asked for; it is granted unless it overlaps a range that is reserved already.
//! * [`RepVecRangeLock`] is the cyclic one. The buffer is a row of cycles, each cycle a
//!   row of slices of one length; locking a cycle offset reserves the slice at that
//!   offset in every cycle.
//!
//! A lock here is a state machine with one owner. `try_lock` answers with a guard, or
//! with [`LockError::WouldBlock`] where what was asked for is taken. The guard is a
//! token: `get_slice` and `get_mut_slice` of the lock take it and hand out the part of
//! the buffer that it stands for, and `unlock` takes it back and frees that part. To
//! share a lock among threads, keep the state machine behind a mutex and let the end of
//! a guard's life call `unlock`; what is proved here of the state machine then holds of
//! the guards that are out at any one time.
//!
//! What is proved: the reserved ranges never overlap, an attempt is refused exactly
//! when it would overlap one of them, a guard that is given back leaves no trace, and
//! what is written through one guard is not seen through another.

pub mod lockedranges;
pub mod rangelock;
pub mod reprangelock;
pub mod slices;
pub mod util;

pub use lockedranges::{overlaps, LockedRanges};
pub use rangelock::{LockError, VecRangeLock, VecRangeLockGuard, VecRangeLockView};
pub use reprangelock::{
    CycleGeometry, RepVecRangeLock, RepVecRangeLockGuard, RepVecRangeLockView,
};
pub use util::{get_bounds, overlaps_any, RangeBound};
