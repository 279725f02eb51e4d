//! Shared ownership of immutable values.
use std::sync::Arc;
use vstd::prelude::*;

verus! {

/// `Arc::clone`: another handle to the same shared value. Nothing is copied,
/// so the new handle points to a value equal to the one behind `handle`.
#[verifier::external_body]
pub(crate) fn share<T>(handle: &Arc<T>) -> (again: Arc<T>)
    ensures
        again == *handle,
{
    Arc::clone(handle)
}

} // verus!
