use std::sync::atomic::{AtomicBool, Ordering};
use std::sync::Arc;
use vstd::prelude::*;

verus! {

/// A cooperative shutdown signal shared by every task of one connection or
/// listener. Dropping any clone tells all of them to stop; once stopped, the
/// switch never turns back on.
#[derive(Clone)]
pub struct KillSwitch(Arc<AtomicBool>);

impl Drop for KillSwitch {
    /// Relies on `AtomicBool::store`, which does not unwind: the shared flag
    /// is cleared for every clone.
    #[verifier::external_body]
    fn drop(&mut self)
        opens_invariants none
        no_unwind
    {
        self.0.store(false, Ordering::Relaxed)
    }
}

impl KillSwitch {
    /// A fresh switch, in the running state.
    pub fn new() -> (r: Self) {
        KillSwitch(Arc::new(AtomicBool::new(true)))
    }

    /// Whether the tasks sharing this switch should keep going. Another clone
    /// may be dropped at any moment, so nothing is promised of the answer.
    pub fn cont(&self) -> (r: bool) {
        self.0.load(Ordering::Relaxed)
    }
}

impl Default for KillSwitch {
    fn default() -> (r: Self) {
        Self::new()
    }
}

} // verus!
