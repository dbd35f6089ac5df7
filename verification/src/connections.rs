//! The limit on concurrent remote-management connections.
use vstd::prelude::*;

use std::sync::atomic::{AtomicUsize, Ordering};
use std::sync::Arc;

verus! {

/// Largest number of connections served at once.
pub const MAX_CONNECTIONS: usize = 8;

/// Counts the connections being served.
#[derive(Debug, Default)]
pub struct ConnectionGate {
    active: AtomicUsize,
}

/// One admitted connection; dropping it frees its place.
pub struct ConnectionLease(Arc<ConnectionGate>);

impl ConnectionLease {
    /// Its gate.
    pub closed spec fn gate(self) -> ConnectionGate {
        *self.0
    }
}

/// Attempts at claiming a place before a contended gate is reported busy.
pub const MAX_ACQUIRE_ATTEMPTS: u32 = 1048576;

impl ConnectionGate {
    /// Claims a place when fewer than `MAX_CONNECTIONS` connections are
    /// active. The count is read and raised in one compare-and-swap; when
    /// another thread changed it in between, the new count is tried again.
    pub fn try_acquire(gate: &Arc<ConnectionGate>) -> (r: Option<ConnectionLease>)
        ensures
            r matches Some(lease) ==> lease.gate() == **gate,
    {
        let mut active = gate.active.load(Ordering::Acquire);
        let mut attempts: u32 = 0;
        while attempts < MAX_ACQUIRE_ATTEMPTS
            decreases MAX_ACQUIRE_ATTEMPTS - attempts,
        {
            if active >= MAX_CONNECTIONS {
                return None;
            }
            match gate.active.compare_exchange_weak(active, active + 1, Ordering::AcqRel, Ordering::Acquire) {
                Ok(_) => {
                    return Some(ConnectionLease(gate.clone()));
                },
                Err(current) => {
                    active = current;
                },
            }
            attempts += 1;
        }
        None
    }
}

/// `AtomicUsize::fetch_sub` by one: gives a place back. std documents that
/// the operation wraps around on overflow, so it neither panics nor blocks;
/// nothing is promised of the count, which other threads change too.
#[verifier::external_body]
fn release(active: &AtomicUsize)
    opens_invariants none
    no_unwind
{
    active.fetch_sub(1, Ordering::AcqRel);
}

impl Drop for ConnectionLease {
    fn drop(&mut self)
        opens_invariants none
        no_unwind
    {
        release(&self.0.active);
    }
}

} // verus!
