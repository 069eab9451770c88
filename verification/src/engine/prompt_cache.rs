//! A bounded least-recently-used cache of prompt states, keyed by a hash of
//! the prompt.
use vstd::prelude::*;
use std::collections::{HashMap, VecDeque};

verus! {

broadcast use vstd::std_specs::hash::group_hash_axioms;

/// A cached prompt state: the key it is stored under and its bytes.
#[derive(Debug, Clone)]
pub struct PromptCacheEntry {
    pub key: u64,
    pub blob: Vec<u8>,
}

/// `order` without `key`, in order.
pub open spec fn without(order: Seq<u64>, key: u64) -> Seq<u64>
    decreases order.len(),
{
    if order.len() == 0 {
        order
    } else if order.last() == key {
        without(order.drop_last(), key)
    } else {
        without(order.drop_last(), key).push(order.last())
    }
}

/// `order` after `key` was used: `key` first, the rest in their order.
pub open spec fn touched(order: Seq<u64>, key: u64) -> Seq<u64> {
    seq![key] + without(order, key)
}

/// The recency order after putting `key` into a cache of `capacity` entries:
/// the least recently used key falls off the end when the cache overflows.
pub open spec fn order_after_put(order: Seq<u64>, key: u64, capacity: nat) -> Seq<u64> {
    let t = touched(order, key);
    if t.len() > capacity {
        t.drop_last()
    } else {
        t
    }
}

/// The entries after putting `key => blob` into a cache whose recency order is
/// `order`.
pub open spec fn entries_after_put(
    entries: Map<u64, Seq<u8>>,
    order: Seq<u64>,
    key: u64,
    blob: Seq<u8>,
    capacity: nat,
) -> Map<u64, Seq<u8>> {
    let t = touched(order, key);
    let m = entries.insert(key, blob);
    if t.len() > capacity {
        m.remove(t.last())
    } else {
        m
    }
}

pub proof fn lemma_without(order: Seq<u64>, key: u64)
    ensures
        without(order, key).len() <= order.len(),
        forall|k: u64| without(order, key).contains(k) <==> (order.contains(k) && k != key),
        order.no_duplicates() ==> without(order, key).no_duplicates(),
        order.contains(key) && order.no_duplicates() ==> without(order, key).len() == order.len()
            - 1,
        !order.contains(key) ==> without(order, key) == order,
    decreases order.len(),
{
    if order.len() > 0 {
        let init = order.drop_last();
        lemma_without(init, key);
        assert forall|k: u64| order.contains(k) <==> (init.contains(k) || k == order.last()) by {
            if order.contains(k) {
                let i = choose|i: int| 0 <= i < order.len() && order[i] == k;
                if i < order.len() - 1 {
                    assert(init[i] == k);
                }
            }
            if init.contains(k) {
                let i = choose|i: int| 0 <= i < init.len() && init[i] == k;
                assert(order[i] == k);
            }
            if k == order.last() {
                assert(order[order.len() - 1] == k);
            }
        }
        if order.no_duplicates() {
            assert(!init.contains(order.last())) by {
                if init.contains(order.last()) {
                    let i = choose|i: int| 0 <= i < init.len() && init[i] == order.last();
                    assert(order[i] == order[order.len() - 1]);
                }
            }
        }
        if !order.contains(key) {
            assert(!init.contains(key));
            assert(order.last() != key) by {
                assert(order[order.len() - 1] == order.last());
            }
            assert(init.push(order.last()) =~= order);
        }
        let w = without(init, key);
        if order.last() != key {
            assert forall|k: u64| w.push(order.last()).contains(k) <==> (w.contains(k) || k
                == order.last()) by {
                if w.push(order.last()).contains(k) {
                    let i = choose|i: int| 0 <= i < w.len() + 1 && w.push(order.last())[i] == k;
                    if i < w.len() {
                        assert(w[i] == k);
                    }
                }
                if w.contains(k) {
                    let i = choose|i: int| 0 <= i < w.len() && w[i] == k;
                    assert(w.push(order.last())[i] == k);
                }
                if k == order.last() {
                    assert(w.push(order.last())[w.len() as int] == k);
                }
            }
            if order.no_duplicates() {
                assert(!w.contains(order.last()));
                assert(w.push(order.last()).no_duplicates()) by {
                    let p = w.push(order.last());
                    assert forall|i: int, j: int|
                        0 <= i < p.len() && 0 <= j < p.len() && i != j implies p[i] != p[j] by {
                        if i < w.len() && j < w.len() {
                        } else if i < w.len() {
                            assert(w.contains(p[i]));
                        } else if j < w.len() {
                            assert(w.contains(p[j]));
                        }
                    }
                }
            }
        }
    }
}


/// Touching keeps the keys (adding `key`) and their uniqueness.
pub proof fn lemma_touched(order: Seq<u64>, key: u64)
    ensures
        touched(order, key).to_set() == order.to_set().insert(key),
        order.no_duplicates() ==> touched(order, key).no_duplicates(),
        order.no_duplicates() && order.contains(key) ==> touched(order, key).len() == order.len(),
        touched(order, key).len() <= order.len() + 1,
{
    lemma_without(order, key);
    let t = touched(order, key);
    let w = without(order, key);
    assert forall|k: u64| t.contains(k) <==> (order.contains(k) || k == key) by {
        if t.contains(k) {
            let i = choose|i: int| 0 <= i < t.len() && t[i] == k;
            if i > 0 {
                assert(w[i - 1] == k);
            }
        }
        if k == key {
            assert(t[0] == k);
        } else if order.contains(k) {
            let i = choose|i: int| 0 <= i < w.len() && w[i] == k;
            assert(t[i + 1] == k);
        }
    }
    assert(t.to_set() =~= order.to_set().insert(key));
    if order.no_duplicates() {
        assert forall|i: int, j: int| 0 <= i < t.len() && 0 <= j < t.len() && i != j implies t[i] != t[j] by {
            if i > 0 && j > 0 {
                assert(t[i] == w[i - 1] && t[j] == w[j - 1]);
            } else if i == 0 {
                assert(w.contains(t[j]));
            } else {
                assert(w.contains(t[i]));
            }
        }
    }
}

/// A bounded least-recently-used cache of prompt states.
#[derive(Debug)]
pub struct PromptCache {
    max_entries: usize,
    map: HashMap<u64, Vec<u8>>,
    lru: VecDeque<u64>,
}

impl PromptCache {
    /// The cached entries.
    pub closed spec fn entries(&self) -> Map<u64, Seq<u8>> {
        self.map@.map_values(|v: Vec<u8>| v@)
    }

    /// The keys, most recently used first.
    pub closed spec fn recency(&self) -> Seq<u64> {
        self.lru@
    }

    /// How many entries the cache holds at most.
    pub closed spec fn capacity(&self) -> nat {
        self.max_entries as nat
    }

    /// The cache's invariant: each cached key appears once in the recency
    /// order, nothing else does, and the cache is within its capacity.
    pub closed spec fn wf(&self) -> bool {
        &&& self.max_entries >= 1
        &&& self.lru@.no_duplicates()
        &&& self.map@.dom() == self.lru@.to_set()
        &&& self.lru@.len() <= self.max_entries
    }

    /// What the invariant gives a caller.
    pub proof fn lemma_wf(&self)
        requires
            self.wf(),
        ensures
            self.capacity() >= 1,
            self.recency().no_duplicates(),
            self.entries().dom() == self.recency().to_set(),
            self.entries().len() == self.recency().len(),
            self.recency().len() <= self.capacity(),
            consistent(self.entries(), self.recency(), self.capacity()),
    {
        self.lru@.unique_seq_to_set();
        assert(self.entries().dom() =~= self.map@.dom());
    }

    /// A cache of at most `max(max_entries, 1)` entries.
    pub fn new(max_entries: usize) -> (c: Self)
        ensures
            c.wf(),
            c.capacity() == if max_entries >= 1 { max_entries as nat } else { 1 },
            c.entries() == Map::<u64, Seq<u8>>::empty(),
            c.recency() == Seq::<u64>::empty(),
    {
        let c = PromptCache {
            max_entries: if max_entries >= 1 { max_entries } else { 1 },
            map: HashMap::new(),
            lru: VecDeque::new(),
        };
        assert(c.lru@.to_set() =~= Set::<u64>::empty());
        assert(c.entries() =~= Map::<u64, Seq<u8>>::empty());
        c
    }

    /// The blob cached under `key`; a hit makes `key` the most recently used.
    pub fn get(&mut self, key: u64) -> (r: Option<Vec<u8>>)
        requires
            old(self).wf(),
        ensures
            final(self).wf(),
            final(self).capacity() == old(self).capacity(),
            final(self).entries() == old(self).entries(),
            match r {
                Some(v) => old(self).entries().contains_key(key) && v@ == old(self).entries()[key]
                    && final(self).recency() == touched(old(self).recency(), key),
                None => !old(self).entries().contains_key(key) && final(self).recency() == old(
                    self,
                ).recency(),
            },
    {
        let value = match self.map.get(&key) {
            Some(v) => Some(copy_bytes(v)),
            None => None,
        };
        if value.is_some() {
            proof {
                self.lemma_wf();
                lemma_touched(self.lru@, key);
                assert(self.lru@.contains(key));
                assert(self.lru@.to_set().insert(key) =~= self.lru@.to_set());
            }
            self.touch(key);
        }
        value
    }

    /// Caches `blob` under `key` as the most recently used entry, dropping
    /// the least recently used one when the cache overflows.
    pub fn put(&mut self, key: u64, blob: Vec<u8>)
        requires
            old(self).wf(),
        ensures
            final(self).wf(),
            final(self).capacity() == old(self).capacity(),
            final(self).recency() == order_after_put(old(self).recency(), key, old(self).capacity()),
            final(self).entries() == entries_after_put(
                old(self).entries(),
                old(self).recency(),
                key,
                blob@,
                old(self).capacity(),
            ),
    {
        let ghost old_order = self.lru@;
        let ghost old_map = self.map@;
        let ghost blob_view = blob@;
        let ghost t = touched(old_order, key);
        let ghost m = old_map.insert(key, blob);
        proof {
            self.lemma_wf();
            lemma_without(old_order, key);
        }
        self.map.insert(key, blob);
        self.touch(key);
        proof {
            lemma_touched(old_order, key);
            self.lru@.unique_seq_to_set();
        }
        while self.map.len() > self.max_entries
            invariant
                self.max_entries >= 1,
                self.max_entries as nat == old(self).capacity(),
                self.lru@.no_duplicates(),
                self.map@.dom() == self.lru@.to_set(),
                t.len() <= self.max_entries + 1,
                (self.lru@ == t && self.map@ == m) || (t.len() > self.max_entries && self.lru@
                    == t.drop_last() && self.map@ == m.remove(t.last())),
            decreases self.lru@.len(),
        {
            proof {
                self.lru@.unique_seq_to_set();
            }
            let ghost before = self.lru@;
            match self.lru.pop_back() {
                Some(old_key) => {
                    self.map.remove(&old_key);
                    proof {
                        assert(!self.lru@.contains(old_key)) by {
                            if self.lru@.contains(old_key) {
                                let i = choose|i: int| 0 <= i < self.lru@.len() && self.lru@[i] == old_key;
                                assert(before[i] == before[before.len() - 1]);
                            }
                        }
                        assert(self.lru@.to_set() =~= before.to_set().remove(old_key)) by {
                            assert forall|k: u64| self.lru@.contains(k) <==> (before.contains(k) && k != old_key) by {
                                if before.contains(k) && k != old_key {
                                    let i = choose|i: int| 0 <= i < before.len() && before[i] == k;
                                    assert(i != before.len() - 1);
                                    assert(self.lru@[i] == k);
                                }
                                if self.lru@.contains(k) {
                                    let i = choose|i: int| 0 <= i < self.lru@.len() && self.lru@[i] == k;
                                    assert(before[i] == k);
                                }
                            }
                        }
                        assert(self.lru@.no_duplicates());
                    }
                },
                None => {
                    assert(false);
                },
            }
        }
        proof {
            self.lru@.unique_seq_to_set();
            assert(self.entries() =~= entries_after_put(old_map.map_values(|v: Vec<u8>| v@), old_order, key, blob_view, self.max_entries as nat));
        }
    }

    /// Makes `key` the most recently used key.
    fn touch(&mut self, key: u64)
        ensures
            final(self).lru@ == touched(old(self).lru@, key),
            final(self).map == old(self).map,
            final(self).max_entries == old(self).max_entries,
    {
        let mut kept: VecDeque<u64> = VecDeque::new();
        let mut i: usize = 0;
        let n = self.lru.len();
        while i < n
            invariant
                i <= n,
                n == self.lru@.len(),
                self.lru@ == old(self).lru@,
                kept@ == without(self.lru@.subrange(0, i as int), key),
            decreases n - i,
        {
            let k = self.lru[i];
            assert(self.lru@.subrange(0, i + 1).drop_last() =~= self.lru@.subrange(0, i as int));
            if k != key {
                kept.push_back(k);
            }
            i = i + 1;
        }
        assert(self.lru@.subrange(0, n as int) =~= self.lru@);
        kept.push_front(key);
        self.lru = kept;
    }
}

/// A copy of `v`.
fn copy_bytes(v: &Vec<u8>) -> (r: Vec<u8>)
    ensures
        r@ == v@,
{
    let mut r: Vec<u8> = Vec::new();
    let mut i: usize = 0;
    while i < v.len()
        invariant
            i <= v@.len(),
            r@ == v@.subrange(0, i as int),
        decreases v@.len() - i,
    {
        r.push(v[i]);
        assert(v@.subrange(0, i + 1) =~= v@.subrange(0, i as int).push(v@[i as int]));
        i = i + 1;
    }
    assert(v@.subrange(0, v@.len() as int) =~= v@);
    r
}


/// A cache's state as plain values is consistent: each cached key appears
/// once in the recency order, and nothing else does.
pub open spec fn consistent(entries: Map<u64, Seq<u8>>, order: Seq<u64>, capacity: nat) -> bool {
    &&& capacity >= 1
    &&& order.no_duplicates()
    &&& entries.dom() == order.to_set()
    &&& order.len() <= capacity
}

/// What was just put is what a lookup finds: the new entry is never the
/// one evicted.
pub proof fn law_get_after_put(
    entries: Map<u64, Seq<u8>>,
    order: Seq<u64>,
    key: u64,
    blob: Seq<u8>,
    capacity: nat,
)
    requires
        consistent(entries, order, capacity),
    ensures
        entries_after_put(entries, order, key, blob, capacity).contains_key(key),
        entries_after_put(entries, order, key, blob, capacity)[key] == blob,
        order_after_put(order, key, capacity)[0] == key,
{
    lemma_touched(order, key);
    let t = touched(order, key);
    if t.len() > capacity {
        assert(t.len() >= 2);
        assert(t.last() != key) by {
            assert(t[0] == key);
        }
    }
}

/// A put keeps the cache consistent and within its capacity.
pub proof fn law_put_keeps_consistency(
    entries: Map<u64, Seq<u8>>,
    order: Seq<u64>,
    key: u64,
    blob: Seq<u8>,
    capacity: nat,
)
    requires
        consistent(entries, order, capacity),
    ensures
        consistent(
            entries_after_put(entries, order, key, blob, capacity),
            order_after_put(order, key, capacity),
            capacity,
        ),
{
    lemma_touched(order, key);
    let t = touched(order, key);
    let m = entries.insert(key, blob);
    assert(m.dom() =~= t.to_set());
    if t.len() > capacity {
        let d = t.drop_last();
        assert(t =~= d.push(t.last()));
        assert forall|k: u64| d.to_set().contains(k) <==> (t.to_set().contains(k) && k != t.last()) by {
            if d.contains(k) {
                let i = choose|i: int| 0 <= i < d.len() && d[i] == k;
                assert(t[i] == k);
                assert(i != t.len() - 1);
            }
            if t.contains(k) && k != t.last() {
                let i = choose|i: int| 0 <= i < t.len() && t[i] == k;
                assert(d[i] == k);
            }
        }
        assert(m.remove(t.last()).dom() =~= d.to_set());
    }
}

/// When a put overflows the cache, the entry dropped is the least recently
/// used one other than the key just put, and every other entry stays.
pub proof fn law_put_evicts_least_recent(
    entries: Map<u64, Seq<u8>>,
    order: Seq<u64>,
    key: u64,
    blob: Seq<u8>,
    capacity: nat,
    other: u64,
)
    requires
        consistent(entries, order, capacity),
        other != key,
        entries.contains_key(other),
    ensures
        ({
            let after = entries_after_put(entries, order, key, blob, capacity);
            let evicted = touched(order, key).len() > capacity;
            &&& evicted ==> !order.contains(key) && order.len() == capacity
            &&& (evicted && other == order.last()) ==> !after.contains_key(other)
            &&& !(evicted && other == order.last()) ==> after.contains_key(other) && after[other]
                == entries[other]
        }),
{
    lemma_touched(order, key);
    lemma_without(order, key);
    let t = touched(order, key);
    if t.len() > capacity {
        assert(!order.contains(key));
        assert(without(order, key) == order);
        assert(t.last() == order.last());
    }
}
} // verus!
