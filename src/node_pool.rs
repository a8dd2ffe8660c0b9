//! The probe rotation: a shuffled queue over the registry's identities, handed
//! out in batches and refilled from the registry whenever it runs dry.

use vstd::prelude::*;
use rand::seq::SliceRandom;
use crate::lokid_api::{Network, ServiceNodeRecord};
use crate::registry::{keyed, keys_of, lists_exactly, merged, NodeRegistry};

verus! {

/// The identities of a list of keys.
pub open spec fn views_of(s: Seq<String>) -> Seq<Seq<char>> {
    s.map_values(|x: String| x@)
}

/// The `k` identities taken from the back of `q`, in the order they are popped.
pub open spec fn batch_ids(q: Seq<Seq<char>>, k: int) -> Seq<Seq<char>> {
    Seq::new(k as nat, |i: int| q[q.len() - 1 - i])
}

/// The records that `m` holds for `ids`, in order, skipping identities it does not hold.
pub open spec fn resolved(
    m: Map<Seq<char>, ServiceNodeRecord>,
    ids: Seq<Seq<char>>,
) -> Seq<ServiceNodeRecord>
    decreases ids.len(),
{
    if ids.len() == 0 {
        Seq::empty()
    } else {
        let rest = resolved(m, ids.drop_last());
        if m.contains_key(ids.last()) {
            rest.push(m[ids.last()])
        } else {
            rest
        }
    }
}

/// Every resolved record is the one the registry holds under its identity.
pub proof fn lemma_resolved_in_registry(m: Map<Seq<char>, ServiceNodeRecord>, ids: Seq<Seq<char>>)
    requires
        keyed(m),
    ensures
        forall|i: int| 0 <= i < resolved(m, ids).len() ==>
            #[trigger] m.contains_key(resolved(m, ids)[i].key())
            && m[resolved(m, ids)[i].key()] == resolved(m, ids)[i],
    decreases ids.len(),
{
    if ids.len() > 0 {
        let rest = resolved(m, ids.drop_last());
        lemma_resolved_in_registry(m, ids.drop_last());
        assert forall|i: int| 0 <= i < resolved(m, ids).len() implies
            #[trigger] m.contains_key(resolved(m, ids)[i].key())
            && m[resolved(m, ids)[i].key()] == resolved(m, ids)[i] by {
            if i < rest.len() {
                assert(resolved(m, ids)[i] == rest[i]);
                assert(m.contains_key(rest[i].key()));
            }
        }
    }
}

/// How many identities a batch of at most `n` takes from a queue of `len`.
pub open spec fn min_len(n: u32, len: nat) -> int {
    if (n as int) < len {
        n as int
    } else {
        len as int
    }
}

/// Relies on rand's `SliceRandom::shuffle` with the thread-local generator: it
/// only swaps elements, so the result is a permutation of the input.
#[verifier::external_body]
fn shuffle_keys(v: &mut Vec<String>)
    ensures
        views_of(final(v)@).to_multiset() == views_of(old(v)@).to_multiset(),
{
    let mut rng = rand::thread_rng();
    v.shuffle(&mut rng);
}

/// The known nodes of one network, and the rotation that decides which of
/// them are probed next.
pub struct NodePool {
    network: Network,
    /// All nodes known on the network
    pub all_nodes: NodeRegistry,
    /// Identities still to be probed in this rotation; the next one is at the back
    test_queue: Vec<String>,
    /// The queue as it stood right after the latest refill
    cycle: Ghost<Seq<Seq<char>>>,
}

impl NodePool {
    /// The identities still to be probed in this rotation, the next one last.
    pub closed spec fn queue(&self) -> Seq<Seq<char>> {
        views_of(self.test_queue@)
    }

    /// The rotation as it stood right after the latest refill.
    pub closed spec fn cycle(&self) -> Seq<Seq<char>> {
        self.cycle@
    }

    /// The known nodes.
    pub closed spec fn registry(&self) -> NodeRegistry {
        self.all_nodes
    }

    /// The network whose nodes this pool holds.
    pub closed spec fn watched_network(&self) -> Network {
        self.network
    }

    /// The identities handed out since the latest refill.
    pub open spec fn handed_out(&self) -> Seq<Seq<char>> {
        self.cycle().skip(self.queue().len() as int)
    }

    /// The queue is what is left of the rotation, and a rotation holds each identity once.
    pub open spec fn wf(&self) -> bool {
        &&& self.registry().wf()
        &&& self.cycle().no_duplicates()
        &&& self.queue().len() <= self.cycle().len()
        &&& self.queue() == self.cycle().take(self.queue().len() as int)
    }

    /// A pool for `network` that knows no node yet.
    pub fn new(network: &Network) -> (r: NodePool)
        ensures
            r.wf(),
            r.watched_network() == *network,
            r.registry()@ == Map::<Seq<char>, ServiceNodeRecord>::empty(),
            r.queue().len() == 0,
            r.cycle().len() == 0,
    {
        let all_nodes = NodeRegistry::new();
        let test_queue: Vec<String> = Vec::new();
        let r = NodePool {
            network: *network,
            all_nodes,
            test_queue,
            cycle: Ghost(Seq::empty()),
        };
        assert(r.queue() =~= r.cycle().take(0));
        r
    }

    /// The known nodes.
    pub fn nodes(&self) -> (r: &NodeRegistry)
        ensures
            *r == self.registry(),
    {
        &self.all_nodes
    }

    /// The network this pool watches.
    pub fn network(&self) -> (r: &Network)
        ensures
            *r == self.watched_network(),
    {
        &self.network
    }

    /// Merges a directory answer into the known nodes; the rotation is untouched.
    pub fn update_pool(&mut self, incoming: Vec<ServiceNodeRecord>)
        requires
            old(self).wf(),
        ensures
            final(self).wf(),
            final(self).registry()@ == merged(old(self).registry()@, incoming@),
            final(self).queue() == old(self).queue(),
            final(self).cycle() == old(self).cycle(),
            final(self).watched_network() == old(self).watched_network(),
    {
        self.all_nodes.merge(incoming);
    }

    /// Takes in the outcome of one directory fetch: a list of nodes is merged;
    /// after a failed fetch the known nodes stay as they were.
    pub fn apply_directory_answer(&mut self, answer: Result<Vec<ServiceNodeRecord>, String>)
        requires
            old(self).wf(),
        ensures
            final(self).wf(),
            final(self).registry()@ == match answer {
                Ok(nodes) => merged(old(self).registry()@, nodes@),
                Err(_) => old(self).registry()@,
            },
            final(self).queue() == old(self).queue(),
            final(self).cycle() == old(self).cycle(),
            final(self).watched_network() == old(self).watched_network(),
    {
        match answer {
            Ok(nodes) => self.update_pool(nodes),
            Err(_) => {},
        }
    }

    fn registry_keys(&self) -> (r: Vec<String>)
        requires
            self.wf(),
        ensures
            views_of(r@).no_duplicates(),
            forall|k: Seq<char>| views_of(r@).contains(k) <==> self.registry()@.contains_key(k),
    {
        let recs = self.all_nodes.records();
        let mut keys: Vec<String> = Vec::new();
        let mut i: usize = 0;
        while i < recs.len()
            invariant
                i <= recs@.len(),
                lists_exactly(recs@, self.registry()@),
                views_of(keys@) == keys_of(recs@).take(i as int),
            decreases recs@.len() - i,
        {
            let ghost prev = keys@;
            keys.push(recs[i].pubkey_ed25519.clone());
            proof {
                assert(views_of(keys@) =~= views_of(prev).push(recs@[i as int].key()));
                assert(keys_of(recs@).take(i + 1) =~= keys_of(recs@).take(i as int).push(
                    keys_of(recs@)[i as int],
                ));
            }
            i = i + 1;
        }
        assert(views_of(keys@) =~= keys_of(recs@));
        proof {
            assert forall|k: Seq<char>| views_of(keys@).contains(k) implies self.registry()@.contains_key(k) by {
                let j = choose|j: int| 0 <= j < keys@.len() && views_of(keys@)[j] == k;
                assert(keys_of(recs@)[j] == recs@[j].key());
                assert(self.registry()@.contains_key(recs@[j].key()));
            }
        }
        keys
    }

    /// Refills the rotation with every known identity, in random order.
    fn reset_queue(&mut self)
        requires
            old(self).wf(),
        ensures
            final(self).wf(),
            final(self).registry() == old(self).registry(),
            final(self).watched_network() == old(self).watched_network(),
            final(self).cycle() == final(self).queue(),
            forall|k: Seq<char>| final(self).queue().contains(k) <==> old(self).registry()@.contains_key(k),
            final(self).queue().len() == old(self).registry()@.dom().len(),
    {
        let mut nodes = self.registry_keys();
        let ghost before = views_of(nodes@);
        shuffle_keys(&mut nodes);
        proof {
            let after = views_of(nodes@);
            broadcast use vstd::seq_lib::to_multiset_contains;
            before.lemma_multiset_has_no_duplicates();
            after.lemma_multiset_has_no_duplicates_conv();
            assert forall|k: Seq<char>| after.contains(k) <==> before.contains(k) by {
                assert(after.contains(k) <==> after.to_multiset().count(k) > 0);
                assert(before.contains(k) <==> before.to_multiset().count(k) > 0);
            }
        }
        self.test_queue = nodes;
        self.cycle = Ghost(views_of(self.test_queue@));
        proof {
            let q = self.queue();
            q.unique_seq_to_set();
            assert(q.to_set() =~= self.registry()@.dom());
        }
        assert(self.queue() =~= self.cycle().take(self.queue().len() as int));
    }

    /// Pops up to `n` identities off the back of the rotation.
    fn pop_batch(&mut self, n: u32) -> (r: Vec<String>)
        requires
            old(self).wf(),
        ensures
            final(self).wf(),
            final(self).registry() == old(self).registry(),
            final(self).watched_network() == old(self).watched_network(),
            final(self).cycle() == old(self).cycle(),
            final(self).queue() == old(self).queue().take(
                old(self).queue().len() - min_len(n, old(self).queue().len()),
            ),
            views_of(r@) == batch_ids(old(self).queue(), min_len(n, old(self).queue().len())),
    {
        let mut result: Vec<String> = Vec::new();
        let count: usize = if (n as usize) < self.test_queue.len() {
            n as usize
        } else {
            self.test_queue.len()
        };
        let ghost q0 = self.queue();
        let mut i: usize = 0;
        while i < count
            invariant
                count == min_len(n, q0.len()),
                i <= count,
                self.wf(),
                self.registry() == old(self).registry(),
                self.network == old(self).network,
                self.cycle() == old(self).cycle(),
                q0 == old(self).queue(),
                self.queue() == q0.take(q0.len() - i),
                views_of(result@) == batch_ids(q0, i as int),
            decreases count - i,
        {
            let ghost before = self.test_queue@;
            let id = self.test_queue.pop().unwrap();
            proof {
                assert(id == before[before.len() - 1]);
                assert(views_of(before)[before.len() - 1] == id@);
                assert(views_of(before) == q0.take(q0.len() - i));
                assert(self.test_queue@ =~= before.drop_last());
                assert(self.queue() =~= q0.take(q0.len() - i - 1));
                assert(self.queue() =~= self.cycle().take(self.queue().len() as int));
                assert(id@ == q0[q0.len() - 1 - i]);
            }
            let ghost prev = result@;
            result.push(id);
            proof {
                assert(views_of(result@) =~= views_of(prev).push(id@));
            }
            i = i + 1;
            assert(views_of(result@) =~= batch_ids(q0, i as int));
        }
        result
    }

    /// The records the registry holds for `ids`, in order; identities it does
    /// not hold are left out.
    fn resolve(&self, ids: &Vec<String>) -> (r: Vec<ServiceNodeRecord>)
        requires
            self.wf(),
        ensures
            r@ == resolved(self.registry()@, views_of(ids@)),
    {
        let mut result: Vec<ServiceNodeRecord> = Vec::new();
        let mut i: usize = 0;
        while i < ids.len()
            invariant
                i <= ids@.len(),
                self.wf(),
                result@ == resolved(self.registry()@, views_of(ids@).take(i as int)),
            decreases ids@.len() - i,
        {
            let ghost pre = views_of(ids@).take(i as int);
            assert(views_of(ids@).take(i + 1).drop_last() =~= pre);
            match self.all_nodes.get(&ids[i]) {
                Some(rec) => {
                    result.push(rec.cloned());
                },
                None => {},
            }
            i = i + 1;
        }
        assert(views_of(ids@).take(ids@.len() as int) =~= views_of(ids@));
        result
    }

    /// The nodes to probe next: up to `n` identities off the rotation (refilled
    /// first if it has run dry), resolved against the registry as it is now.
    pub fn get_next_nodes(&mut self, n: u32) -> (r: Vec<ServiceNodeRecord>)
        requires
            old(self).wf(),
        ensures
            final(self).wf(),
            final(self).registry() == old(self).registry(),
            final(self).watched_network() == old(self).watched_network(),
            old(self).queue().len() == 0 ==> forall|k: Seq<char>|
                final(self).cycle().contains(k) <==> old(self).registry()@.contains_key(k),
            old(self).queue().len() == 0 ==> final(self).cycle().len() == old(self).registry()@.dom().len(),
            old(self).queue().len() != 0 ==> final(self).cycle() == old(self).cycle(),
            ({
                let q0 = if old(self).queue().len() == 0 {
                    final(self).cycle()
                } else {
                    old(self).queue()
                };
                let k = min_len(n, q0.len());
                &&& final(self).queue() == q0.take(q0.len() - k)
                &&& r@ == resolved(old(self).registry()@, batch_ids(q0, k))
                &&& final(self).handed_out() == q0.skip(q0.len() - k) + if old(self).queue().len() == 0 {
                    Seq::empty()
                } else {
                    old(self).handed_out()
                }
            }),
            forall|i: int| 0 <= i < r@.len() ==>
                #[trigger] old(self).registry()@.contains_key(r@[i].key())
                && old(self).registry()@[r@[i].key()] == r@[i],
    {
        if self.test_queue.len() == 0 {
            self.reset_queue();
        }
        let ghost q0 = self.queue();
        let ghost c = self.cycle();
        let ids = self.pop_batch(n);
        let r = self.resolve(&ids);
        proof {
            let k = min_len(n, q0.len());
            assert(q0 == c.take(q0.len() as int));
            if old(self).queue().len() == 0 {
                assert(self.handed_out() =~= q0.skip(q0.len() - k) + Seq::<Seq<char>>::empty());
            } else {
                assert(self.handed_out() =~= q0.skip(q0.len() - k) + old(self).handed_out());
            }
            self.all_nodes.lemma_keyed();
            lemma_resolved_in_registry(self.registry()@, views_of(ids@));
        }
        r
    }
}

/// Within one rotation no identity is handed out twice, none that was handed
/// out is still waiting, and once the rotation has run dry every identity it
/// was refilled with has been handed out exactly once.
pub proof fn lemma_rotation_exactly_once(pool: NodePool)
    requires
        pool.wf(),
    ensures
        pool.handed_out().no_duplicates(),
        forall|k: Seq<char>| pool.handed_out().contains(k) ==> !pool.queue().contains(k),
        pool.queue().len() == 0 ==> pool.handed_out() == pool.cycle(),
{
    let c = pool.cycle();
    let q = pool.queue().len() as int;
    assert forall|k: Seq<char>| pool.handed_out().contains(k) implies !pool.queue().contains(k) by {
        let a = choose|a: int| 0 <= a < c.len() - q && pool.handed_out()[a] == k;
        if pool.queue().contains(k) {
            let b = choose|b: int| 0 <= b < q && pool.queue()[b] == k;
            assert(c[b] == c[a + q]);
        }
    }
    if q == 0 {
        assert(c.skip(0) =~= c);
    }
}

} // verus!
