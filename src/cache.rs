//! The latest status and stats of each node, kept in memory. A status is
//! handed on for the log only when it differs from the one held before.

use vstd::prelude::*;
use vstd::hash_map::StringHashMap;
use crate::database::{OnlineStatus, StatusEntry};
use crate::sn_api::SnodeStats;

verus! {

/// A status and the second (since the Unix epoch) at which it was observed.
#[derive(Clone, Copy, Debug, PartialEq, Eq, Structural)]
pub struct TimestampedStatus {
    pub status: OnlineStatus,
    pub timestamp: u64,
}

/// Whether `t1` is strictly before `t2`.
pub fn earlier(t1: &u64, t2: &u64) -> (r: bool)
    ensures
        r == (*t1 < *t2),
{
    *t1 < *t2
}

/// The status map after replaying `entries` in order: an entry replaces the
/// held status unless the held one is strictly later.
pub open spec fn replayed(
    m: Map<Seq<char>, TimestampedStatus>,
    entries: Seq<StatusEntry>,
) -> Map<Seq<char>, TimestampedStatus>
    decreases entries.len(),
{
    if entries.len() == 0 {
        m
    } else {
        let prev = replayed(m, entries.drop_last());
        let e = entries.last();
        if prev.contains_key(e.edkey@) && e.date < prev[e.edkey@].timestamp {
            prev
        } else {
            prev.insert(e.edkey@, TimestampedStatus { status: e.status, timestamp: e.date })
        }
    }
}

/// Replaying a transition log into an empty cache holds, for each node that
/// the log names, the status of its record with the greatest timestamp (of
/// equal timestamps, the one replayed last), and nothing for any other node.
pub proof fn lemma_replay_keeps_latest(rows: Seq<StatusEntry>, k: Seq<char>)
    ensures
        replayed(Map::empty(), rows).contains_key(k) <==> exists|i: int|
            0 <= i < rows.len() && #[trigger] rows[i].edkey@ == k,
        replayed(Map::empty(), rows).contains_key(k) ==> exists|i: int|
            0 <= i < rows.len() && #[trigger] rows[i].edkey@ == k
            && replayed(Map::empty(), rows)[k] == (TimestampedStatus { status: rows[i].status, timestamp: rows[i].date })
            && forall|j: int| 0 <= j < rows.len() && #[trigger] rows[j].edkey@ == k ==> {
                &&& rows[j].date <= rows[i].date
                &&& j > i ==> rows[j].date < rows[i].date
            },
    decreases rows.len(),
{
    if rows.len() > 0 {
        let pre = rows.drop_last();
        let n = rows.len() - 1;
        let e = rows.last();
        let prev = replayed(Map::empty(), pre);
        let m = replayed(Map::empty(), rows);
        lemma_replay_keeps_latest(pre, k);
        assert forall|j: int| 0 <= j < n implies rows[j] == pre[j] by {}
        if m.contains_key(k) {
            if prev.contains_key(k) && (e.edkey@ != k || e.date < prev[k].timestamp) {
                let i = choose|i: int| 0 <= i < pre.len() && #[trigger] pre[i].edkey@ == k
                    && prev[k] == (TimestampedStatus { status: pre[i].status, timestamp: pre[i].date })
                    && forall|j: int| 0 <= j < pre.len() && #[trigger] pre[j].edkey@ == k ==> {
                        &&& pre[j].date <= pre[i].date
                        &&& j > i ==> pre[j].date < pre[i].date
                    };
                assert(rows[i].edkey@ == k);
                assert forall|j: int| 0 <= j < rows.len() && #[trigger] rows[j].edkey@ == k implies {
                    &&& rows[j].date <= rows[i].date
                    &&& j > i ==> rows[j].date < rows[i].date
                } by {
                    if j < n {
                        assert(pre[j].edkey@ == k);
                    }
                }
            } else {
                assert(e.edkey@ == k);
                assert(rows[n].edkey@ == k);
                assert forall|j: int| 0 <= j < rows.len() && #[trigger] rows[j].edkey@ == k implies {
                    &&& rows[j].date <= rows[n].date
                    &&& j > n ==> rows[j].date < rows[n].date
                } by {
                    if j < n {
                        assert(pre[j].edkey@ == k);
                        let i = choose|i: int| 0 <= i < pre.len() && #[trigger] pre[i].edkey@ == k
                            && prev[k] == (TimestampedStatus { status: pre[i].status, timestamp: pre[i].date })
                            && forall|j: int| 0 <= j < pre.len() && #[trigger] pre[j].edkey@ == k ==> {
                                &&& pre[j].date <= pre[i].date
                                &&& j > i ==> pre[j].date < pre[i].date
                            };
                    }
                }
            }
        } else {
            assert forall|j: int| 0 <= j < rows.len() implies #[trigger] rows[j].edkey@ != k by {
                if j < n {
                    assert(pre[j].edkey@ != k);
                }
            }
        }
    }
}

/// Observing `status` for `k` is a transition: nothing was held for `k`, or
/// something else was.
pub open spec fn is_transition(m: Map<Seq<char>, TimestampedStatus>, k: Seq<char>, status: OnlineStatus) -> bool {
    !m.contains_key(k) || m[k].status != status
}

/// The latest status and stats of each node.
pub struct Cache {
    /// A map from node to its latest status
    pub status_map: StringHashMap<TimestampedStatus>,
    /// Keeps the latest stats received
    pub stats_map: StringHashMap<SnodeStats>,
}

impl Cache {
    /// A cache that holds nothing.
    pub fn new() -> (r: Cache)
        ensures
            r.status_map@ == Map::<Seq<char>, TimestampedStatus>::empty(),
            r.stats_map@ == Map::<Seq<char>, SnodeStats>::empty(),
    {
        Cache { status_map: StringHashMap::new(), stats_map: StringHashMap::new() }
    }

    fn save_latest_status(&mut self, entries: &Vec<StatusEntry>)
        ensures
            final(self).status_map@ == replayed(old(self).status_map@, entries@),
            final(self).stats_map@ == old(self).stats_map@,
    {
        let mut i: usize = 0;
        while i < entries.len()
            invariant
                i <= entries@.len(),
                self.status_map@ == replayed(old(self).status_map@, entries@.take(i as int)),
                self.stats_map@ == old(self).stats_map@,
            decreases entries@.len() - i,
        {
            let entry = &entries[i];
            assert(entries@.take(i + 1).drop_last() =~= entries@.take(i as int));
            match self.status_map.get(entry.edkey.as_str()) {
                Some(tstatus) => {
                    if !earlier(&entry.date, &tstatus.timestamp) {
                        self.status_map.insert(
                            entry.edkey.clone(),
                            TimestampedStatus { status: entry.status, timestamp: entry.date },
                        );
                    }
                },
                None => {
                    self.status_map.insert(
                        entry.edkey.clone(),
                        TimestampedStatus { status: entry.status, timestamp: entry.date },
                    );
                },
            }
            i = i + 1;
        }
        assert(entries@.take(entries@.len() as int) =~= entries@);
    }

    /// Seeds the cache from the transition log: per node, the record with the
    /// latest timestamp wins, and of equal timestamps the one replayed last.
    pub fn load(&mut self, rows: &Vec<StatusEntry>)
        ensures
            final(self).status_map@ == replayed(old(self).status_map@, rows@),
            final(self).stats_map@ == old(self).stats_map@,
    {
        self.save_latest_status(rows)
    }

    fn do_update_status(&mut self, node_edkey: &String, status: OnlineStatus, now: u64) -> (r: StatusEntry)
        ensures
            final(self).status_map@ == old(self).status_map@.insert(
                node_edkey@,
                TimestampedStatus { status, timestamp: now },
            ),
            final(self).stats_map@ == old(self).stats_map@,
            r.edkey@ == node_edkey@,
            r.date == now,
            r.status == status,
    {
        let v = TimestampedStatus { status, timestamp: now };
        self.status_map.insert(node_edkey.clone(), v);
        StatusEntry { edkey: node_edkey.clone(), date: now, status }
    }

    /// Records the outcome of a probe of `node_edkey` observed at second `now`.
    /// On a transition the cache takes (status, now) and the record for the
    /// log is returned; a repeat of the held status changes nothing.
    pub fn update_status(&mut self, node_edkey: &String, status: OnlineStatus, now: u64) -> (r: Option<StatusEntry>)
        ensures
            final(self).stats_map@ == old(self).stats_map@,
            is_transition(old(self).status_map@, node_edkey@, status) ==> {
                &&& final(self).status_map@ == old(self).status_map@.insert(
                    node_edkey@,
                    TimestampedStatus { status, timestamp: now },
                )
                &&& r is Some
                &&& r->0.edkey@ == node_edkey@
                &&& r->0.date == now
                &&& r->0.status == status
            },
            !is_transition(old(self).status_map@, node_edkey@, status) ==> {
                &&& final(self).status_map@ == old(self).status_map@
                &&& r is None
            },
    {
        match self.status_map.get(node_edkey.as_str()) {
            Some(v) => {
                if v.status != status {
                    Some(self.do_update_status(node_edkey, status, now))
                } else {
                    None
                }
            },
            None => Some(self.do_update_status(node_edkey, status, now)),
        }
    }

    /// Replaces the stats held for `edkey` with `stats`.
    pub fn update_node_stats(&mut self, edkey: &String, stats: &SnodeStats)
        ensures
            final(self).stats_map@ == old(self).stats_map@.insert(edkey@, *stats),
            final(self).status_map@ == old(self).status_map@,
    {
        self.stats_map.insert(edkey.clone(), stats.cloned());
    }
}

} // verus!
