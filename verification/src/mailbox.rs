//! The snapshot hand-off between the ingest side and the renderer: a
//! slot of capacity one with latest-wins overwrite on publish and a
//! non-blocking take on consume.

use vstd::prelude::*;
use crate::scene::Snapshot;

verus! {

/// Single-producer, single-consumer slot of capacity one.  The ingest
/// side overwrites it on every decode; the renderer empties it at most
/// once per callback and keeps its previous state when it finds the
/// slot empty.
#[derive(Debug, Clone, PartialEq, Eq)]
pub struct SnapshotSlot {
    pub slot: Option<Snapshot>,
}

impl SnapshotSlot {
    pub fn new() -> (r: SnapshotSlot)
        ensures
            r.slot is None,
    {
        SnapshotSlot { slot: None }
    }

    /// Publish a snapshot: whatever was pending is dropped, the newest
    /// wins, and no backpressure reaches the publisher.
    pub fn publish(&mut self, snapshot: Snapshot)
        ensures
            final(self).slot == Some(snapshot),
    {
        self.slot = Some(snapshot);
    }

    /// Non-blocking consume: hands out exactly what was pending, if
    /// anything, and leaves the slot empty.
    pub fn try_consume(&mut self) -> (r: Option<Snapshot>)
        ensures
            r == old(self).slot,
            final(self).slot is None,
    {
        self.slot.take()
    }
}

} // verus!
