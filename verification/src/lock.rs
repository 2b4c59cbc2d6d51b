//! The lock that guards the one writer of the console: a spin lock, which
//! needs no scheduler and so can be taken from any context.

use core::ops::DerefMut;
use spin::{Mutex, MutexGuard};
use vstd::prelude::*;

verus! {

/// `spin::Mutex<T>`, a lock that waits by spinning. What it guards is hidden
/// until the lock is taken.
#[verifier::external_type_specification]
#[verifier::external_body]
#[verifier::reject_recursive_types(T)]
pub struct ExMutex<T: ?Sized>(Mutex<T>);

/// `spin::MutexGuard<'a, T>`, the proof that the lock is held. The lock is
/// released when the guard goes out of scope.
#[verifier::external_type_specification]
#[verifier::external_body]
#[verifier::reject_recursive_types(T)]
pub struct ExMutexGuard<'a, T: ?Sized + 'a>(MutexGuard<'a, T>);

/// `Mutex::lock` spins until the lock is free, takes it and returns the
/// guard. Nothing is said of the guarded value: whoever held the lock before
/// may have changed it. The call returns only once the lock is free, so a
/// context that holds the guard and asks for the lock again waits for ever.
pub assume_specification<T: ?Sized>[ Mutex::<T>::lock ](mutex: &Mutex<T>) -> (guard: MutexGuard<
    '_,
    T,
>)
;

/// `MutexGuard::deref_mut` hands out the guarded value for as long as the
/// guard is borrowed. Nothing is said of the value.
pub assume_specification<'a, 'b, T: ?Sized>[ <MutexGuard<'a, T> as DerefMut>::deref_mut ](
    guard: &'b mut MutexGuard<'a, T>,
) -> (data: &'b mut T)
;

} // verus!
