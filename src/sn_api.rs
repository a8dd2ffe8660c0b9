//! What a node reports about itself when probed.

use vstd::prelude::*;

verus! {

/// The counters a node returns from its stats endpoint. A new snapshot
/// always replaces the previous one whole.
#[derive(Clone, Debug)]
pub struct SnodeStats {
    pub height: u32,
    pub version: String,
    pub reset_time: u64,
    pub total_stored: u32,
    pub connections_in: u32,
    /// stores in the previous hour-long period
    pub previous_period_store_requests: u32,
    /// retrieves in the previous hour-long period
    pub previous_period_retrieve_requests: u32,
}

impl SnodeStats {
    /// A copy of this snapshot, field for field.
    pub fn cloned(&self) -> (r: SnodeStats)
        ensures
            r == *self,
    {
        SnodeStats {
            height: self.height,
            version: self.version.clone(),
            reset_time: self.reset_time,
            total_stored: self.total_stored,
            connections_in: self.connections_in,
            previous_period_store_requests: self.previous_period_store_requests,
            previous_period_retrieve_requests: self.previous_period_retrieve_requests,
        }
    }
}

} // verus!
