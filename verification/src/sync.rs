//! Shared access to a value through the spin locks of the `spin` crate.
//!
//! A lock hides the value that it guards: what a guard gives access to is whatever was
//! left there last, by any holder of the lock. The functions here therefore promise
//! nothing of it.
//!
//! A lock is taken by spinning until it is free. Taking one does not return while a guard
//! that excludes the new one is alive, so a caller must not hold such a guard itself:
//! no guard of a `Mutex` when it calls [`lock`], no write guard of an `RwLock` when it
//! calls [`lock_read`], and no guard of it at all when it calls [`lock_write`].

use spin::mutex::{Mutex, MutexGuard};
use spin::relax::Spin;
use spin::rwlock::{RwLock, RwLockReadGuard, RwLockWriteGuard};
use std::rc::Rc;
use vstd::prelude::*;

verus! {

/// The strategy by which the locks of `spin` wait: they spin.
#[verifier::external_type_specification]
#[verifier::external_body]
pub struct ExSpin(Spin);

/// A lock of `spin` that gives one holder at a time access to a value.
#[verifier::external_type_specification]
#[verifier::external_body]
#[verifier::reject_recursive_types(T)]
#[verifier::reject_recursive_types(R)]
pub struct ExMutex<T: ?Sized, R>(Mutex<T, R>);

/// The guard of a held [`Mutex`], which releases the lock when it is dropped.
#[verifier::external_type_specification]
#[verifier::external_body]
#[verifier::reject_recursive_types(T)]
pub struct ExMutexGuard<'a, T: 'a + ?Sized>(MutexGuard<'a, T>);

/// A lock of `spin` that gives either many readers or one writer access to a value.
#[verifier::external_type_specification]
#[verifier::external_body]
#[verifier::reject_recursive_types(T)]
#[verifier::reject_recursive_types(R)]
pub struct ExRwLock<T: ?Sized, R>(RwLock<T, R>);

/// The guard of an [`RwLock`] that is held for reading.
#[verifier::external_type_specification]
#[verifier::external_body]
#[verifier::reject_recursive_types(T)]
pub struct ExRwLockReadGuard<'a, T: ?Sized>(RwLockReadGuard<'a, T>);

/// The guard of an [`RwLock`] that is held for writing.
#[verifier::external_type_specification]
#[verifier::external_body]
#[verifier::reject_recursive_types(T)]
#[verifier::reject_recursive_types(R)]
pub struct ExRwLockWriteGuard<'a, T: 'a + ?Sized, R>(RwLockWriteGuard<'a, T, R>);

/// `Mutex::new` of `spin`: a lock that guards `value`.
#[verifier::external_body]
pub(crate) fn new_mutex<T>(value: T) -> Mutex<T> {
    Mutex::new(value)
}

/// `Mutex::lock` of `spin`: waits until the lock is free and takes it.
#[verifier::external_body]
pub(crate) fn lock<'a, T>(mutex: &'a Mutex<T>) -> MutexGuard<'a, T> {
    mutex.lock()
}

/// `DerefMut::deref_mut` of the guard of a `Mutex` of `spin`: the guarded value.
#[verifier::external_body]
pub(crate) fn access<'a, 'b, T>(guard: &'a mut MutexGuard<'b, T>) -> &'a mut T {
    &mut **guard
}

/// `RwLock::new` of `spin`: a lock that guards `value`.
#[verifier::external_body]
pub(crate) fn new_rwlock<T>(value: T) -> RwLock<T> {
    RwLock::new(value)
}

/// `RwLock::read` of `spin`: waits until no writer holds the lock and takes it for reading.
/// `spin` panics where more readers hold the lock than it can count, which takes more
/// guards than memory has room for.
#[verifier::external_body]
pub(crate) fn lock_read<'a, T>(lock: &'a RwLock<T>) -> RwLockReadGuard<'a, T> {
    lock.read()
}

/// `Deref::deref` of the read guard of an `RwLock` of `spin`: the guarded value.
#[verifier::external_body]
pub(crate) fn read_access<'a, 'b, T>(guard: &'a RwLockReadGuard<'b, T>) -> &'a T {
    &**guard
}

/// `RwLock::write` of `spin`: waits until nobody holds the lock and takes it for writing.
#[verifier::external_body]
pub(crate) fn lock_write<'a, T>(lock: &'a RwLock<T>) -> RwLockWriteGuard<'a, T> {
    lock.write()
}

/// `DerefMut::deref_mut` of the write guard of an `RwLock` of `spin`: the guarded value.
#[verifier::external_body]
pub(crate) fn write_access<'a, 'b, T>(guard: &'a mut RwLockWriteGuard<'b, T>) -> &'a mut T {
    &mut **guard
}

/// `Rc::clone` of std: another handle to the same value.
#[verifier::external_body]
pub(crate) fn share<T>(handle: &Rc<T>) -> (other: Rc<T>)
    ensures
        other == *handle,
{
    handle.clone()
}

} // verus!
