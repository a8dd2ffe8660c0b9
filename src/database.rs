//! The rows that the transition log holds, and how a status is written to it.

use vstd::prelude::*;

verus! {

/// Whether a node answered its latest probe.
#[derive(PartialEq, Eq, Structural, Clone, Copy, Debug)]
pub enum OnlineStatus {
    ONLINE,
    OFFLINE,
}

/// One transition of one node, as the log keeps it: the node's key, the
/// second (since the Unix epoch) of the observation, and the new status.
#[derive(Clone, Debug)]
pub struct StatusEntry {
    pub edkey: String,
    pub date: u64,
    pub status: OnlineStatus,
}

/// The integer that the log stores for a status.
pub open spec fn status_code(s: OnlineStatus) -> u32 {
    match s {
        OnlineStatus::ONLINE => 0,
        OnlineStatus::OFFLINE => 1,
    }
}

/// The status that a stored integer stands for: anything but 0 reads as offline.
pub open spec fn status_of_code(c: u32) -> OnlineStatus {
    if c == 0 {
        OnlineStatus::ONLINE
    } else {
        OnlineStatus::OFFLINE
    }
}

impl OnlineStatus {
    /// The integer under which the log stores this status.
    pub fn code(&self) -> (r: u32)
        ensures
            r == status_code(*self),
    {
        match self {
            OnlineStatus::ONLINE => 0,
            OnlineStatus::OFFLINE => 1,
        }
    }

    /// Reads a status back from the integer the log stored.
    pub fn from_code(c: u32) -> (r: OnlineStatus)
        ensures
            r == status_of_code(c),
    {
        if c == 0 {
            OnlineStatus::ONLINE
        } else {
            OnlineStatus::OFFLINE
        }
    }
}

} // verus!
