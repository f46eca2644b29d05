//! The backing storage of a handle: one reference-counted allocation of the
//! standard library, reached only through the functions of this module.

use std::sync::Arc;
use vstd::prelude::*;

verus! {

/// `Arc::from` on a box: moves the boxed value into an allocation that
/// handles can share. The pointee is the value that the box held.
#[verifier::external_body]
pub(crate) fn store<T: ?Sized>(item: Box<T>) -> (r: Arc<T>)
    ensures
        r == item,
{
    Arc::from(item)
}

/// `Arc::clone`: one more owner of the same allocation. No value is copied,
/// so the pointee of the result is the pointee of `item`.
#[verifier::external_body]
pub(crate) fn share_storage<T: ?Sized>(item: &Arc<T>) -> (r: Arc<T>)
    ensures
        r == *item,
{
    Arc::clone(item)
}

/// `Arc::try_unwrap`: releases the allocation and hands out the pointee if
/// `item` is its only owner; otherwise hands `item` back. Which of the two
/// happens depends on the owners alive at the time of the call, so nothing
/// is claimed about it.
#[verifier::external_body]
pub(crate) fn reclaim<T>(item: Arc<T>) -> (r: Result<T, Arc<T>>)
    ensures
        match r {
            Ok(value) => value == item,
            Err(kept) => kept == item,
        },
{
    Arc::try_unwrap(item)
}

/// `Arc::as_ptr`, reduced to its address: where the allocation lies. The
/// number is whatever the allocator chose, so nothing is claimed about it.
#[verifier::external_body]
pub(crate) fn address_of<T: ?Sized>(item: &Arc<T>) -> usize {
    Arc::as_ptr(item).addr()
}

} // verus!
