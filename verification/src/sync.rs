//! The locks, the condition variable and the clock that the pools and the
//! workers are built on.
//!
//! Nothing in this file is proved. Each function makes one call and its
//! contract, where it has one, is taken from the documentation of the
//! function that it calls.

use parking_lot::lock_api::Mutex;
use parking_lot::lock_api::MutexGuard;
use parking_lot::lock_api::RwLock;
use parking_lot::lock_api::RwLockReadGuard;
use parking_lot::lock_api::RwLockWriteGuard;
use parking_lot::Condvar;
use parking_lot::RawMutex;
use parking_lot::RawRwLock;
use std::sync::Arc;
use std::time::Duration;
use std::time::Instant;
use vstd::prelude::*;

verus! {

/// `lock_api::Mutex`, the type behind `parking_lot::Mutex`. Opaque: what it
/// guards can only be reached through a [`MutexLocked`].
#[verifier::external_type_specification]
#[verifier::external_body]
#[verifier::reject_recursive_types(R)]
#[verifier::reject_recursive_types(T)]
pub struct ExMutex<R, T: ?Sized>(Mutex<R, T>);

/// `lock_api::RwLock`, the type behind `parking_lot::RwLock`. Opaque: what it
/// guards can only be reached through a [`ReadLocked`] or a [`WriteLocked`].
#[verifier::external_type_specification]
#[verifier::external_body]
#[verifier::reject_recursive_types(R)]
#[verifier::reject_recursive_types(T)]
pub struct ExRwLock<R, T: ?Sized>(RwLock<R, T>);

/// `parking_lot::RawMutex`, the lock inside a `parking_lot::Mutex`.
#[verifier::external_type_specification]
#[verifier::external_body]
pub struct ExRawMutex(RawMutex);

/// `parking_lot::RawRwLock`, the lock inside a `parking_lot::RwLock`.
#[verifier::external_type_specification]
#[verifier::external_body]
pub struct ExRawRwLock(RawRwLock);

/// `parking_lot::Condvar`.
#[verifier::external_type_specification]
#[verifier::external_body]
pub struct ExCondvar(Condvar);

/// `std::time::Instant`. Opaque: a point in time is only ever handed back to
/// the clock.
#[verifier::external_type_specification]
#[verifier::external_body]
pub struct ExInstant(Instant);

/// A held `parking_lot::MutexGuard`. The mutex stays locked for as long as
/// this value lives. Nothing is known of the guarded value but its type.
#[verifier::external_body]
#[verifier::reject_recursive_types(T)]
pub struct MutexLocked<'a, T> {
    pub(crate) guard: MutexGuard<'a, RawMutex, T>,
}

/// A held `parking_lot::RwLockReadGuard`: shared access for as long as this
/// value lives.
#[verifier::external_body]
#[verifier::reject_recursive_types(T)]
pub struct ReadLocked<'a, T> {
    pub(crate) guard: RwLockReadGuard<'a, RawRwLock, T>,
}

/// A held `parking_lot::RwLockWriteGuard`: exclusive access for as long as
/// this value lives.
#[verifier::external_body]
#[verifier::reject_recursive_types(T)]
pub struct WriteLocked<'a, T> {
    pub(crate) guard: RwLockWriteGuard<'a, RawRwLock, T>,
}

/// `Mutex::new`: a mutex that guards `value`. Nothing is claimed.
#[verifier::external_body]
pub(crate) fn new_mutex<T>(value: T) -> Mutex<RawMutex, T> {
    Mutex::new(value)
}

/// `Mutex::lock`: blocks until the mutex is held. Nothing is claimed of the
/// guarded value: other threads may have changed it.
#[verifier::external_body]
pub(crate) fn lock<'a, T>(mutex: &'a Mutex<RawMutex, T>) -> MutexLocked<'a, T> {
    MutexLocked { guard: mutex.lock() }
}

/// `DerefMut::deref_mut` of a mutex guard: the guarded value.
#[verifier::external_body]
pub(crate) fn locked_mut<'a, 'b, T>(locked: &'a mut MutexLocked<'b, T>) -> &'a mut T {
    &mut *locked.guard
}

/// `RwLock::new`: a lock that guards `value`. Nothing is claimed.
#[verifier::external_body]
pub(crate) fn new_rwlock<T>(value: T) -> RwLock<RawRwLock, T> {
    RwLock::new(value)
}

/// `RwLock::read`: blocks until shared access is held. Nothing is claimed of
/// the guarded value.
#[verifier::external_body]
pub(crate) fn lock_shared<'a, T>(rwlock: &'a RwLock<RawRwLock, T>) -> ReadLocked<'a, T> {
    ReadLocked { guard: rwlock.read() }
}

/// `Deref::deref` of a read guard: the guarded value.
#[verifier::external_body]
pub(crate) fn shared_ref<'a, 'b, T>(locked: &'a ReadLocked<'b, T>) -> &'a T {
    &*locked.guard
}

/// `RwLock::write`: blocks until exclusive access is held. Nothing is claimed
/// of the guarded value.
#[verifier::external_body]
pub(crate) fn lock_exclusive<'a, T>(rwlock: &'a RwLock<RawRwLock, T>) -> WriteLocked<'a, T> {
    WriteLocked { guard: rwlock.write() }
}

/// `DerefMut::deref_mut` of a write guard: the guarded value.
#[verifier::external_body]
pub(crate) fn exclusive_mut<'a, 'b, T>(locked: &'a mut WriteLocked<'b, T>) -> &'a mut T {
    &mut *locked.guard
}

/// `Condvar::new`.
#[verifier::external_body]
pub(crate) fn new_condvar() -> Condvar {
    Condvar::new()
}

/// `Condvar::notify_one`: wakes one thread that waits on the condition
/// variable, if there is one.
#[verifier::external_body]
pub(crate) fn notify_one(condvar: &Condvar) {
    condvar.notify_one();
}

/// `Arc::clone`: another handle to the same value.
#[verifier::external_body]
pub(crate) fn share<T>(handle: &Arc<T>) -> (shared: Arc<T>)
    ensures
        shared == *handle,
{
    Arc::clone(handle)
}

/// `Instant::now`. Nothing is claimed of the time.
#[verifier::external_body]
pub(crate) fn now() -> Instant {
    Instant::now()
}

/// `Instant::elapsed`: the time since `start`. Nothing is claimed of it.
#[verifier::external_body]
pub(crate) fn elapsed(start: &Instant) -> Duration {
    start.elapsed()
}

/// `Duration::as_millis`: the whole milliseconds of a duration. Nothing is
/// claimed of their number.
#[verifier::external_body]
pub(crate) fn whole_millis(duration: &Duration) -> u128 {
    duration.as_millis()
}

/// The milliseconds since `start`, capped at the largest `u64`. Nothing is
/// known of their number: it is the clock's.
pub(crate) fn millis_since(start: &Instant) -> u64 {
    let duration = elapsed(start);
    let millis = whole_millis(&duration);
    capped_millis(millis)
}

/// A number of milliseconds, capped at the largest `u64`.
pub(crate) fn capped_millis(millis: u128) -> (capped: u64)
    ensures
        capped == if millis > u64::MAX {
            u64::MAX as int
        } else {
            millis as int
        },
{
    if millis > 0xffff_ffff_ffff_ffffu128 {
        u64::MAX
    } else {
        millis as u64
    }
}

} // verus!
