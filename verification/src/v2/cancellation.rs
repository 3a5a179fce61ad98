//! Reading whether a running operation was asked to stop.
use vstd::prelude::*;

use std::sync::atomic::AtomicBool;
use std::sync::atomic::Ordering;
use std::sync::Arc;

verus! {

/// Whether the operation's cancellation flag is set; an operation without a
/// flag is never cancelled. The flag is set by another thread, so nothing is
/// known of a read of it beyond that.
pub fn cancellation_requested(cancelled: Option<&AtomicBool>) -> (r: bool)
    ensures
        cancelled is None ==> !r,
{
    match cancelled {
        Some(flag) => flag.load(Ordering::Relaxed),
        None => false,
    }
}

/// Sets the operation's cancellation flag, for the thread that runs it to
/// read.
pub fn raise_cancellation(flag: &AtomicBool) {
    flag.store(true, Ordering::Relaxed);
}

/// Another handle on the same flag: `Arc::clone`, which points the new
/// handle at the same allocation. Nothing is stated of the result.
#[verifier::external_body]
pub(crate) fn share_flag(flag: &Arc<AtomicBool>) -> Arc<AtomicBool> {
    Arc::clone(flag)
}

} // verus!
