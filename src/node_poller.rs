//! What one probe's outcome does to the cache, and the polling schedule.

use vstd::prelude::*;
use crate::cache::{is_transition, Cache, TimestampedStatus};
use crate::database::{OnlineStatus, StatusEntry};
use crate::sn_api::SnodeStats;

verus! {

/// How many nodes are probed on each tick.
pub const PROBE_BATCH_SIZE: u32 = 10;

/// Seconds between two probe ticks.
pub const PROBE_PERIOD_SECS: u64 = 1;

/// Seconds between two directory fetches.
pub const REFRESH_PERIOD_SECS: u64 = 60;

/// The status a probe outcome stands for: an answer means online, any failure offline.
pub open spec fn probe_status(outcome: Result<SnodeStats, String>) -> OnlineStatus {
    match outcome {
        Ok(_) => OnlineStatus::ONLINE,
        Err(_) => OnlineStatus::OFFLINE,
    }
}

/// Takes in the outcome of probing `edkey` at second `now`. On success the
/// stats are replaced; either way the status is recorded, and on a transition
/// the record for the log is returned. No other node's entries change.
pub fn process_stat(
    cache: &mut Cache,
    edkey: &String,
    outcome: &Result<SnodeStats, String>,
    now: u64,
) -> (r: Option<StatusEntry>)
    ensures
        final(cache).stats_map@ == match outcome {
            Ok(stats) => old(cache).stats_map@.insert(edkey@, *stats),
            Err(_) => old(cache).stats_map@,
        },
        is_transition(old(cache).status_map@, edkey@, probe_status(*outcome)) ==> {
            &&& final(cache).status_map@ == old(cache).status_map@.insert(
                edkey@,
                TimestampedStatus { status: probe_status(*outcome), timestamp: now },
            )
            &&& r is Some
            &&& r->0.edkey@ == edkey@
            &&& r->0.date == now
            &&& r->0.status == probe_status(*outcome)
        },
        !is_transition(old(cache).status_map@, edkey@, probe_status(*outcome)) ==> {
            &&& final(cache).status_map@ == old(cache).status_map@
            &&& r is None
        },
        final(cache).status_map@.remove(edkey@) == old(cache).status_map@.remove(edkey@),
        final(cache).stats_map@.remove(edkey@) == old(cache).stats_map@.remove(edkey@),
{
    let r = match outcome {
        Ok(stats) => {
            cache.update_node_stats(edkey, stats);
            cache.update_status(edkey, OnlineStatus::ONLINE, now)
        },
        Err(_) => cache.update_status(edkey, OnlineStatus::OFFLINE, now),
    };
    assert(cache.status_map@.remove(edkey@) =~= old(cache).status_map@.remove(edkey@));
    assert(cache.stats_map@.remove(edkey@) =~= old(cache).stats_map@.remove(edkey@));
    r
}

} // verus!
