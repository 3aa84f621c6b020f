//! The reference-count operations on a shared region.
//!
//! A region is shared between handles and segments through an atomic
//! reference count.  The operations below are the whole trusted surface of
//! that sharing: everything proved about handles and segments rests on
//! these contracts and on safe Rust's guarantee that nothing can mutate a
//! value behind a shared `Arc`.

use vstd::prelude::*;

use std::sync::Arc;

use super::Vmem;

verus! {

/// Relies on std's `Arc::try_unwrap`: when this is the only strong
/// reference it returns the inner value, otherwise it hands the same `Arc`
/// back.
#[verifier::external_body]
pub(super) fn arc_try_unwrap(a: Arc<Vmem>) -> (r: Result<Vmem, Arc<Vmem>>)
    ensures
        (r matches Ok(v) ==> v == a),
        (r matches Err(b) ==> b == a),
{
    Arc::try_unwrap(a)
}

/// Relies on std's `Arc::strong_count`: the number of strong references to
/// the allocation, which counts at least the one passed in.  The count is a
/// fact about the whole process at one instant, so nothing more can be said
/// of it here.
#[verifier::external_body]
pub(super) fn arc_strong_count(a: &Arc<Vmem>) -> (r: usize)
    ensures
        r >= 1,
{
    Arc::strong_count(a)
}

/// Relies on std's `Arc::ptr_eq`: true only when both point to the same
/// allocation, in which case they carry the same value.
#[verifier::external_body]
pub(super) fn arc_ptr_eq(a: &Arc<Vmem>, b: &Arc<Vmem>) -> (r: bool)
    ensures
        r ==> a == b,
{
    Arc::ptr_eq(a, b)
}

/// Relies on std's `Arc::clone`: a new reference to the same allocation,
/// carrying the same value.
#[verifier::external_body]
pub(super) fn arc_clone(a: &Arc<Vmem>) -> (r: Arc<Vmem>)
    ensures
        r == *a,
{
    Arc::clone(a)
}

} // verus!
