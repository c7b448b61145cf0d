//! The mutex that guards the room.

use crate::registry::Registry;
use parking_lot::{Mutex, MutexGuard};
use vstd::prelude::*;

verus! {

/// `lock_api::Mutex`, of which `parking_lot::Mutex` is an instance. Nothing
/// is claimed of what it holds.
#[verifier::external_type_specification]
#[verifier::external_body]
#[verifier::reject_recursive_types(R)]
#[verifier::reject_recursive_types(T)]
pub struct ExMutex<R, T: ?Sized>(parking_lot::lock_api::Mutex<R, T>);

/// `parking_lot::RawMutex`, the lock inside a `parking_lot::Mutex`.
#[verifier::external_type_specification]
#[verifier::external_body]
pub struct ExRawMutex(parking_lot::RawMutex);

/// A `parking_lot::MutexGuard` over the room: the room is locked for as long
/// as a value of this type lives, and unlocked when it is dropped.
#[verifier::external_body]
pub(crate) struct Held<'a> {
    guard: MutexGuard<'a, Registry>,
}

/// Locks `room` with `Mutex::lock`, waiting until no other thread holds it.
/// The call does not return if the calling thread holds the lock already;
/// no function of this crate keeps a [`Held`] beyond its own body, so none
/// asks twice.
#[verifier::external_body]
pub(crate) fn acquire<'a>(room: &'a Mutex<Registry>) -> Held<'a> {
    Held { guard: room.lock() }
}

/// The registry that `held` keeps locked, through the guard's `deref_mut`.
/// Nothing is claimed of the state in which other threads left it, beyond
/// what holds of every [`Registry`].
#[verifier::external_body]
pub(crate) fn room_of<'a, 'b>(held: &'a mut Held<'b>) -> &'a mut Registry {
    &mut *held.guard
}

} // verus!
