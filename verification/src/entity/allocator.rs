//! The counter behind entity creation under shared access.

use vstd::prelude::*;
use std::sync::atomic::{AtomicU64, Ordering};

verus! {

/// Creates a counter that stands at zero.
pub(crate) fn new_counter() -> AtomicU64 {
    AtomicU64::new(0)
}

/// Takes the next number from the counter. Other threads may do so at the
/// same time, so nothing is known of the number.
pub(crate) fn reserve(counter: &AtomicU64) -> u64 {
    counter.fetch_add(1, Ordering::Relaxed)
}

/// Sets the counter back to zero and returns where it stood.
pub(crate) fn take_reserved(counter: &AtomicU64) -> u64 {
    counter.swap(0, Ordering::Relaxed)
}

} // verus!
