//! The set of known nodes, keyed by identity. A record that arrives again
//! replaces the old one whole; nothing is ever removed.

use vstd::prelude::*;
use crate::lokid_api::ServiceNodeRecord;

verus! {

/// The identities of a list of records, in order.
pub open spec fn keys_of(s: Seq<ServiceNodeRecord>) -> Seq<Seq<char>> {
    s.map_values(|r: ServiceNodeRecord| r.key())
}

/// The map that a list of records describes: a later record for an identity
/// overrides an earlier one.
pub open spec fn map_of(s: Seq<ServiceNodeRecord>) -> Map<Seq<char>, ServiceNodeRecord>
    decreases s.len(),
{
    if s.len() == 0 {
        Map::empty()
    } else {
        map_of(s.drop_last()).insert(s.last().key(), s.last())
    }
}

/// The registry after each incoming record, in order, was inserted or put in
/// place of the record with the same identity.
pub open spec fn merged(
    m: Map<Seq<char>, ServiceNodeRecord>,
    incoming: Seq<ServiceNodeRecord>,
) -> Map<Seq<char>, ServiceNodeRecord>
    decreases incoming.len(),
{
    if incoming.len() == 0 {
        m
    } else {
        merged(m, incoming.drop_last()).insert(incoming.last().key(), incoming.last())
    }
}

/// `s` lists each entry of `m` exactly once.
pub open spec fn lists_exactly(s: Seq<ServiceNodeRecord>, m: Map<Seq<char>, ServiceNodeRecord>) -> bool {
    &&& keys_of(s).no_duplicates()
    &&& forall|i: int| 0 <= i < s.len() ==> #[trigger] m.contains_key(s[i].key()) && m[s[i].key()] == s[i]
    &&& forall|k: Seq<char>| #[trigger] m.contains_key(k) ==> keys_of(s).contains(k)
}

proof fn lemma_map_of_contains(s: Seq<ServiceNodeRecord>, k: Seq<char>)
    ensures
        map_of(s).contains_key(k) <==> keys_of(s).contains(k),
    decreases s.len(),
{
    if s.len() > 0 {
        lemma_map_of_contains(s.drop_last(), k);
        let ks = keys_of(s);
        assert(keys_of(s.drop_last()) =~= ks.drop_last());
        if ks.contains(k) {
            let i = choose|i: int| 0 <= i < ks.len() && ks[i] == k;
            if i < s.len() - 1 {
                assert(ks.drop_last()[i] == k);
            }
        }
        if keys_of(s.drop_last()).contains(k) {
            let i = choose|i: int| 0 <= i < ks.len() - 1 && ks.drop_last()[i] == k;
            assert(ks[i] == k);
        }
        assert(ks[s.len() - 1] == s.last().key());
    }
}

proof fn lemma_map_of_index(s: Seq<ServiceNodeRecord>, i: int)
    requires
        keys_of(s).no_duplicates(),
        0 <= i < s.len(),
    ensures
        map_of(s).contains_key(s[i].key()),
        map_of(s)[s[i].key()] == s[i],
    decreases s.len(),
{
    let ks = keys_of(s);
    assert(keys_of(s.drop_last()) =~= ks.drop_last());
    if i < s.len() - 1 {
        assert(ks[i] != ks[s.len() - 1]);
        lemma_map_of_index(s.drop_last(), i);
    }
}

proof fn lemma_lists_exactly(s: Seq<ServiceNodeRecord>)
    requires
        keys_of(s).no_duplicates(),
    ensures
        lists_exactly(s, map_of(s)),
{
    assert forall|i: int| 0 <= i < s.len() implies #[trigger] map_of(s).contains_key(s[i].key())
        && map_of(s)[s[i].key()] == s[i] by {
        lemma_map_of_index(s, i);
    }
    assert forall|k: Seq<char>| #[trigger] map_of(s).contains_key(k) implies keys_of(s).contains(k) by {
        lemma_map_of_contains(s, k);
    }
}

proof fn lemma_map_of_update(s: Seq<ServiceNodeRecord>, i: int, r: ServiceNodeRecord)
    requires
        keys_of(s).no_duplicates(),
        0 <= i < s.len(),
        r.key() == s[i].key(),
    ensures
        keys_of(s.update(i, r)).no_duplicates(),
        map_of(s.update(i, r)) == map_of(s).insert(r.key(), r),
{
    let t = s.update(i, r);
    assert(keys_of(t) =~= keys_of(s));
    lemma_lists_exactly(s);
    lemma_lists_exactly(t);
    let a = map_of(t);
    let b = map_of(s).insert(r.key(), r);
    assert forall|k: Seq<char>| a.contains_key(k) <==> b.contains_key(k) by {
        lemma_map_of_contains(s, k);
        lemma_map_of_contains(t, k);
    }
    assert forall|k: Seq<char>| #[trigger] a.contains_key(k) implies a[k] == b[k] by {
        let j = choose|j: int| 0 <= j < t.len() && keys_of(t)[j] == k;
        assert(t[j].key() == k);
        assert(a.contains_key(t[j].key()));
        if j != i {
            assert(s[j] == t[j]);
            assert(keys_of(s)[j] != keys_of(s)[i]);
            assert(k != r.key());
            assert(map_of(s).contains_key(s[j].key()));
        }
    }
    assert(a =~= b);
}

proof fn lemma_merged_over(m: Map<Seq<char>, ServiceNodeRecord>, incoming: Seq<ServiceNodeRecord>)
    ensures
        merged(m, incoming) == m.union_prefer_right(merged(Map::empty(), incoming)),
    decreases incoming.len(),
{
    if incoming.len() == 0 {
        assert(m.union_prefer_right(Map::empty()) =~= m);
    } else {
        lemma_merged_over(m, incoming.drop_last());
        assert(merged(m, incoming) =~= m.union_prefer_right(merged(Map::empty(), incoming)));
    }
}

/// Merging the same directory answer a second time changes nothing.
pub proof fn lemma_merge_idempotent(reg: NodeRegistry, incoming: Seq<ServiceNodeRecord>)
    ensures
        merged(merged(reg@, incoming), incoming) == merged(reg@, incoming),
{
    let once = merged(reg@, incoming);
    let fresh = merged(Map::empty(), incoming);
    lemma_merged_over(reg@, incoming);
    lemma_merged_over(once, incoming);
    assert(once.union_prefer_right(fresh) =~= once);
}

/// Each record sits under its own identity.
pub open spec fn keyed(m: Map<Seq<char>, ServiceNodeRecord>) -> bool {
    forall|k: Seq<char>| #[trigger] m.contains_key(k) ==> m[k].key() == k
}

/// The known nodes.
pub struct NodeRegistry {
    entries: Vec<ServiceNodeRecord>,
}

impl View for NodeRegistry {
    type V = Map<Seq<char>, ServiceNodeRecord>;

    closed spec fn view(&self) -> Map<Seq<char>, ServiceNodeRecord> {
        map_of(self.entries@)
    }
}

impl NodeRegistry {
    /// Each identity is held once.
    pub closed spec fn wf(&self) -> bool {
        keys_of(self.entries@).no_duplicates()
    }

    /// A registry holds each record under the record's own identity.
    pub proof fn lemma_keyed(&self)
        requires
            self.wf(),
        ensures
            keyed(self@),
    {
        lemma_lists_exactly(self.entries@);
        assert forall|k: Seq<char>| #[trigger] self@.contains_key(k) implies self@[k].key() == k by {
            let s = self.entries@;
            let j = choose|j: int| 0 <= j < s.len() && keys_of(s)[j] == k;
            assert(self@.contains_key(s[j].key()));
        }
    }

    /// An empty registry.
    pub fn new() -> (r: NodeRegistry)
        ensures
            r.wf(),
            r@ == Map::<Seq<char>, ServiceNodeRecord>::empty(),
    {
        let r = NodeRegistry { entries: Vec::new() };
        assert(keys_of(r.entries@) =~= Seq::<Seq<char>>::empty());
        r
    }

    /// The number of known nodes.
    pub fn len(&self) -> (r: usize)
        requires
            self.wf(),
        ensures
            r == self@.dom().len(),
    {
        proof {
            lemma_lists_exactly(self.entries@);
            keys_of(self.entries@).unique_seq_to_set();
            assert(keys_of(self.entries@).to_set() =~= self@.dom()) by {
                assert forall|k: Seq<char>| keys_of(self.entries@).to_set().contains(k)
                    implies self@.dom().contains(k) by {
                    lemma_map_of_contains(self.entries@, k);
                }
            }
        }
        self.entries.len()
    }

    /// Every known record, each once, in no particular order.
    pub fn records(&self) -> (r: &Vec<ServiceNodeRecord>)
        requires
            self.wf(),
        ensures
            lists_exactly(r@, self@),
    {
        proof {
            lemma_lists_exactly(self.entries@);
        }
        &self.entries
    }

    fn index_of(&self, key: &String) -> (r: Option<usize>)
        ensures
            match r {
                Some(i) => i < self.entries@.len() && self.entries@[i as int].key() == key@,
                None => !keys_of(self.entries@).contains(key@),
            },
    {
        let mut i: usize = 0;
        while i < self.entries.len()
            invariant
                i <= self.entries@.len(),
                forall|j: int| 0 <= j < i ==> self.entries@[j].key() != key@,
            decreases self.entries@.len() - i,
        {
            if self.entries[i].pubkey_ed25519 == *key {
                return Some(i);
            }
            i = i + 1;
        }
        proof {
            if keys_of(self.entries@).contains(key@) {
                let j = choose|j: int| 0 <= j < self.entries@.len() && keys_of(self.entries@)[j] == key@;
                assert(self.entries@[j].key() == key@);
            }
        }
        None
    }

    /// The record held for `key`, if any.
    pub fn get(&self, key: &String) -> (r: Option<&ServiceNodeRecord>)
        requires
            self.wf(),
        ensures
            match r {
                Some(v) => self@.contains_key(key@) && *v == self@[key@],
                None => !self@.contains_key(key@),
            },
    {
        proof {
            lemma_map_of_contains(self.entries@, key@);
        }
        match self.index_of(key) {
            Some(i) => {
                proof {
                    lemma_map_of_index(self.entries@, i as int);
                }
                Some(&self.entries[i])
            },
            None => None,
        }
    }

    /// Adds `rec`, or puts it in place of the record with the same identity.
    pub fn insert(&mut self, rec: ServiceNodeRecord)
        requires
            old(self).wf(),
        ensures
            final(self).wf(),
            final(self)@ == old(self)@.insert(rec.key(), rec),
    {
        match self.index_of(&rec.pubkey_ed25519) {
            Some(i) => {
                proof {
                    lemma_map_of_update(self.entries@, i as int, rec);
                }
                self.entries.set(i, rec);
            },
            None => {
                proof {
                    let s = self.entries@;
                    let t = s.push(rec);
                    assert(t.drop_last() =~= s);
                    assert(keys_of(t) =~= keys_of(s).push(rec.key()));
                    assert forall|a: int, b: int|
                        0 <= a < t.len() && 0 <= b < t.len() && a != b implies keys_of(t)[a]
                        != keys_of(t)[b] by {
                        if a == s.len() {
                            assert(keys_of(s)[b] == keys_of(t)[b]);
                        } else if b == s.len() {
                            assert(keys_of(s)[a] == keys_of(t)[a]);
                        }
                    }
                }
                self.entries.push(rec);
            },
        }
    }

    /// Merges a directory answer: each incoming record, in order, is inserted
    /// or replaces the record held under its identity.
    pub fn merge(&mut self, incoming: Vec<ServiceNodeRecord>)
        requires
            old(self).wf(),
        ensures
            final(self).wf(),
            final(self)@ == merged(old(self)@, incoming@),
    {
        let mut rest = incoming;
        let ghost done: int = 0;
        while rest.len() > 0
            invariant
                self.wf(),
                0 <= done <= incoming@.len(),
                rest@ == incoming@.subrange(done, incoming@.len() as int),
                self@ == merged(old(self)@, incoming@.subrange(0, done)),
            decreases rest@.len(),
        {
            let rec = rest.remove(0);
            proof {
                let p = incoming@.subrange(0, done + 1);
                assert(p.drop_last() =~= incoming@.subrange(0, done));
                assert(p.last() == rec);
            }
            self.insert(rec);
            proof {
                done = done + 1;
            }
            assert(rest@ =~= incoming@.subrange(done, incoming@.len() as int));
        }
        assert(incoming@.subrange(0, done) =~= incoming@);
    }
}

} // verus!
