//! Process-local task signals shared between the embedded UI and workers:
//! a cancellation flag and a latest-value progress slot. Clones share state.
use vstd::prelude::*;

use std::sync::atomic::{AtomicBool, Ordering};
use std::sync::{Arc, Mutex};

verus! {

/// `std::sync::Mutex`, holding the progress slot.
#[verifier::external_type_specification]
#[verifier::external_body]
#[verifier::reject_recursive_types(T)]
pub struct ExMutex<T: ?Sized>(Mutex<T>);

/// Process-local cancellation shared by the embedded UI and worker threads.
#[derive(Clone, Debug, Default)]
pub struct CancellationToken(Arc<AtomicBool>);

impl CancellationToken {
    /// Requests cancellation; every clone observes it.
    pub fn cancel(&self) {
        self.0.store(true, Ordering::Release);
    }

    /// Withdraws a cancellation request.
    pub fn reset(&self) {
        self.0.store(false, Ordering::Release);
    }

    /// Whether cancellation is currently requested. Another clone may change
    /// the flag at any time, so no value is promised.
    pub fn is_cancelled(&self) -> bool {
        self.0.load(Ordering::Acquire)
    }
}

/// One frame of task progress.
#[derive(Clone, Debug, Default, PartialEq, Eq)]
pub struct TaskProgress {
    pub phase: String,
    pub runtime: String,
    pub index: u64,
    pub count: u64,
    pub current: u64,
    pub total: u64,
    pub speed: u64,
    pub detail: String,
}

/// Latest-value process-local progress channel. Progress is coalesced: the UI
/// only needs the newest frame, not an unbounded log.
#[derive(Clone, Debug, Default)]
pub struct ProgressChannel(Arc<Mutex<Option<TaskProgress>>>);

/// `Mutex::lock` (recovering the value of a poisoned lock) followed by
/// `std::mem::replace` on the guarded slot: stores `value` and returns the
/// previous content. Other clones write the same slot concurrently, so
/// nothing is promised about what comes back.
#[verifier::external_body]
fn replace_slot(slot: &Mutex<Option<TaskProgress>>, value: Option<TaskProgress>) -> Option<TaskProgress> {
    let mut guard = slot.lock().unwrap_or_else(|poisoned| poisoned.into_inner());
    std::mem::replace(&mut *guard, value)
}

impl ProgressChannel {
    /// Replaces any unread frame with `progress`.
    pub fn publish(&self, progress: TaskProgress) {
        let _previous = replace_slot(&self.0, Some(progress));
    }

    /// Takes the newest unread frame, leaving the slot empty.
    pub fn take(&self) -> Option<TaskProgress> {
        replace_slot(&self.0, None)
    }

    /// Drops any unread frame.
    pub fn clear(&self) {
        let _previous = replace_slot(&self.0, None);
    }
}

} // verus!
