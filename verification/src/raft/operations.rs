//! Operation identifiers: each client operation gets a fresh one, in
//! increasing order starting at 1.
use vstd::prelude::*;
use crate::raft::types::OperationId;

verus! {

/// The source of operation identifiers.
#[derive(Debug)]
pub struct OperationIds {
    next: u64,
}

impl OperationIds {
    /// The identifier the next operation receives.
    pub closed spec fn upcoming(&self) -> u64 {
        self.next
    }

    pub fn new() -> (s: OperationIds)
        ensures
            s.upcoming() == 1,
    {
        OperationIds { next: 1 }
    }

    /// Whether every identifier has been handed out.
    pub fn is_exhausted(&self) -> (b: bool)
        ensures
            b == (self.upcoming() == u64::MAX),
    {
        self.next == u64::MAX
    }

    /// Hands out the next identifier.
    pub fn allocate(&mut self) -> (id: OperationId)
        requires
            old(self).upcoming() < u64::MAX,
        ensures
            id == OperationId(old(self).upcoming()),
            final(self).upcoming() == old(self).upcoming() + 1,
    {
        let id = OperationId(self.next);
        self.next = self.next + 1;
        id
    }
}

} // verus!
