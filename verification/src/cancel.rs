//! A cheap, cloneable "has this call been superseded?" signal.

use std::sync::atomic::{AtomicBool, Ordering};
use std::sync::Arc;

use vstd::prelude::*;

verus! {

/// Passed into long-running work (a directory scan, a preview) so the
/// caller can flag it as moot once a newer request supersedes it. Checking
/// it is advisory: a result that arrives after cancellation is discarded
/// by the caller anyway. Clones share one flag.
#[derive(Clone)]
pub struct Cancelled(Arc<AtomicBool>);

impl Cancelled {
    /// A fresh flag, not yet cancelled.
    pub fn new() -> (c: Cancelled) {
        Cancelled(Arc::new(AtomicBool::new(false)))
    }

    /// Marks the call this flag was handed to as superseded.
    pub fn cancel(&self) {
        self.0.store(true, Ordering::Relaxed);
    }

    /// Whether `cancel` has been called on this flag or a clone of it.
    /// The flag is shared with other threads, so nothing is known of the
    /// value read here.
    pub fn is_cancelled(&self) -> (r: bool) {
        self.0.load(Ordering::Relaxed)
    }
}

} // verus!
