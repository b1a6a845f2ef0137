//! Call-tree identifiers from the `topo` crate.
//!
//! A `CallId` is opaque here: the library compares two of them and asks
//! `topo` for the one that is current, nothing more.

use topo::CallId;
use vstd::prelude::*;

verus! {

#[verifier::external_type_specification]
#[verifier::external_body]
pub struct ExCallId(CallId);

/// `topo::CallId::current`: the identifier of the call scope the caller
/// runs in. It depends on that scope (a thread-local environment), so
/// nothing is stated of it.
#[verifier::external_body]
pub(crate) fn current_call_id() -> CallId {
    CallId::current()
}

/// `<CallId as PartialEq>::eq`: the derived comparison of the callsite, the
/// parent slot and the slot, which holds exactly when the two identifiers
/// are the same value.
#[verifier::external_body]
pub(crate) fn same_call_id(a: &CallId, b: &CallId) -> (same: bool)
    ensures
        same == (*a == *b),
{
    *a == *b
}

/// `topo::call`: runs `op` once, in a child scope of the current one
/// (the slot being the number of earlier calls from the same callsite in
/// that scope), and returns what it returns.
#[verifier::external_body]
pub(crate) fn in_nested_call<R, F: FnOnce() -> R>(op: F) -> (r: R)
    requires
        op.requires(()),
    ensures
        op.ensures((), r),
{
    topo::call(op)
}

/// `topo::call_in_slot`: runs `op` once, in the child scope of the current
/// one that `slot` names (its value and its type), and returns what it
/// returns.
#[verifier::external_body]
pub(crate) fn in_slot_call<Q: Eq + std::hash::Hash + Clone + Send + 'static, R, F: FnOnce() -> R>(slot: &Q, op: F) -> (r: R)
    requires
        op.requires(()),
    ensures
        op.ensures((), r),
{
    topo::call_in_slot(slot, op)
}

} // verus!
