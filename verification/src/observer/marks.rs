//! The set of ids that are marked for removal, and the lock that guards it.

use parking_lot::Mutex;
use std::collections::HashSet;
use vstd::prelude::*;

verus! {

/// `parking_lot::RawMutex`, the raw lock inside a `parking_lot::Mutex`.
/// Nothing is said of what it holds.
#[verifier::external_type_specification]
#[verifier::external_body]
pub struct ExRawMutex(parking_lot::RawMutex);

/// `lock_api::Mutex`, of which `parking_lot::Mutex<T>` is the instance with
/// `parking_lot::RawMutex` as its raw lock. Nothing is said of what it
/// holds but through `marked_ids`.
#[verifier::external_type_specification]
#[verifier::external_body]
#[verifier::reject_recursive_types(R)]
#[verifier::reject_recursive_types(T)]
pub struct ExMutex<R, T: ?Sized>(parking_lot::lock_api::Mutex<R, T>);

/// The ids in the set that the lock guards.
pub uninterp spec fn marked_ids(marks: Mutex<HashSet<u64>>) -> Set<u64>;

/// `Mutex::new` of `parking_lot` (`lock_api::Mutex::new`): the new lock
/// guards the set it was given.
#[verifier::external_body]
pub(crate) fn guard_marks(set: HashSet<u64>) -> (marks: Mutex<HashSet<u64>>)
    ensures
        marked_ids(marks) == set@,
{
    Mutex::new(set)
}

/// `Mutex::get_mut` of `parking_lot` (`lock_api::Mutex::get_mut`): whoever
/// holds the lock exclusively reaches the guarded set without locking, and
/// what the set holds when the borrow ends is what the lock guards from then
/// on.
#[verifier::external_body]
pub(crate) fn marks_mut(marks: &mut Mutex<HashSet<u64>>) -> (set: &mut HashSet<u64>)
    ensures
        (*set)@ == marked_ids(*old(marks)),
        marked_ids(*final(marks)) == (*final(set))@,
{
    marks.get_mut()
}

} // verus!
