//! Memoization: a bounded cache of computed results, keyed by the
//! arguments of the call that computed them.

use vstd::prelude::*;
use dashmap::DashMap;

verus! {

#[verifier::external_type_specification]
#[verifier::external_body]
#[verifier::reject_recursive_types(K)]
#[verifier::reject_recursive_types(V)]
#[verifier::reject_recursive_types(S)]
pub struct ExDashMap<K, V, S>(DashMap<K, V, S>);

/// The entries of a concurrent map from keys to slots.
pub uninterp spec fn slot_entries(m: DashMap<u64, usize>) -> Map<u64, usize>;

/// `DashMap::with_capacity`: a new map with no entries. The capacity is
/// rounded up to a multiple of the number of shards (a power of two, four
/// times the available parallelism rounded up), and that sum overflows only
/// for capacities within a shard count of `usize::MAX`; capacities above
/// `usize::MAX / 2` are left out.
#[verifier::external_body]
fn new_slot_map(capacity: usize) -> (m: DashMap<u64, usize>)
    requires
        capacity <= usize::MAX / 2,
    ensures
        slot_entries(m) =~= Map::empty(),
{
    DashMap::with_capacity(capacity)
}

/// `DashMap::get`: the value stored under `key`, if any, copied out of the
/// guard that the map hands out.
#[verifier::external_body]
fn slot_of(m: &DashMap<u64, usize>, key: u64) -> (r: Option<usize>)
    ensures
        r is Some <==> slot_entries(*m).dom().contains(key),
        r matches Some(slot) ==> slot == slot_entries(*m)[key],
{
    m.get(&key).map(|entry| *entry)
}

/// `DashMap::len`: the number of entries.
#[verifier::external_body]
fn slot_count(m: &DashMap<u64, usize>) -> (n: usize)
    ensures
        n == slot_entries(*m).dom().len(),
{
    m.len()
}

/// `DashMap::insert`: stores `slot` under `key`, replacing what was there.
#[verifier::external_body]
fn put_slot(m: &mut DashMap<u64, usize>, key: u64, slot: usize)
    ensures
        slot_entries(*final(m)) == slot_entries(*old(m)).insert(key, slot),
{
    m.insert(key, slot);
}

/// A bounded cache of computed values, keyed by the arguments of the call
/// that computed them. Once it holds `capacity` entries, nothing more is
/// stored.
pub struct MemoCache<V> {
    slots: DashMap<u64, usize>,
    values: Vec<V>,
    capacity: usize,
}

impl<V> MemoCache<V> {
    /// The well-formedness of the cache: each key has its own slot among
    /// the stored values, and there are as many values as keys.
    pub closed spec fn wf(&self) -> bool {
        let slots = slot_entries(self.slots);
        &&& slots.dom().finite()
        &&& self.values@.len() == slots.dom().len()
        &&& forall|k: u64| #[trigger] slots.dom().contains(k) ==> slots[k] < self.values@.len()
        &&& forall|k1: u64, k2: u64|
            #[trigger] slots.dom().contains(k1) && #[trigger] slots.dom().contains(k2) && k1 != k2
                ==> slots[k1] != slots[k2]
        &&& self.values@.len() <= self.capacity
    }

    /// The cached value of each key.
    pub closed spec fn entries(&self) -> Map<u64, V> {
        let slots = slot_entries(self.slots);
        Map::new(|k: u64| slots.dom().contains(k), |k: u64| self.values@[slots[k] as int])
    }

    /// The number of entries the cache holds at most.
    pub closed spec fn spec_capacity(&self) -> nat {
        self.capacity as nat
    }

    /// The cache never holds more entries than its capacity.
    pub proof fn lemma_within_capacity(&self)
        requires
            self.wf(),
        ensures
            self.entries().dom().len() <= self.spec_capacity(),
    {
        assert(self.entries().dom() =~= slot_entries(self.slots).dom());
    }

    /// An empty cache that holds at most `capacity` entries.
    pub fn new(capacity: usize) -> (c: Self)
        requires
            capacity <= usize::MAX / 2,
        ensures
            c.wf(),
            c.entries() == Map::<u64, V>::empty(),
            c.spec_capacity() == capacity,
    {
        let c = MemoCache { slots: new_slot_map(capacity), values: Vec::new(), capacity };
        proof {
            assert(c.entries() =~= Map::<u64, V>::empty());
        }
        c
    }

    /// The number of entries in the cache.
    pub fn len(&self) -> (n: usize)
        requires
            self.wf(),
        ensures
            n == self.entries().dom().len(),
    {
        proof {
            assert(self.entries().dom() =~= slot_entries(self.slots).dom());
        }
        slot_count(&self.slots)
    }

    /// The number of entries the cache holds at most.
    pub fn capacity(&self) -> (n: usize)
        ensures
            n == self.spec_capacity(),
    {
        self.capacity
    }

    /// A copy of the value cached under `key`, if any.
    pub fn lookup(&self, key: u64) -> (r: Option<V>)
        where V: Clone,
        requires
            self.wf(),
        ensures
            r is Some <==> self.entries().dom().contains(key),
            r matches Some(v) ==> cloned(self.entries()[key], v),
    {
        match slot_of(&self.slots, key) {
            Some(slot) => Some(self.values[slot].clone()),
            None => None,
        }
    }

    /// Caches `value` under `key`, replacing what was cached under it, as
    /// long as the cache holds fewer than `capacity` entries; a full cache
    /// is left as it is.
    pub fn store(&mut self, key: u64, value: V)
        requires
            old(self).wf(),
        ensures
            final(self).wf(),
            final(self).spec_capacity() == old(self).spec_capacity(),
            old(self).entries().dom().len() < old(self).spec_capacity()
                ==> final(self).entries() == old(self).entries().insert(key, value),
            old(self).entries().dom().len() >= old(self).spec_capacity()
                ==> final(self).entries() == old(self).entries(),
    {
        let ghost before = slot_entries(self.slots);
        proof {
            assert(self.entries().dom() =~= before.dom());
        }
        let count = slot_count(&self.slots);
        if count >= self.capacity {
            return;
        }
        match slot_of(&self.slots, key) {
            Some(slot) => {
                self.values.set(slot, value);
                proof {
                    assert(self.entries() =~= old(self).entries().insert(key, value));
                }
            },
            None => {
                let slot = self.values.len();
                self.values.push(value);
                put_slot(&mut self.slots, key, slot);
                proof {
                    let after = slot_entries(self.slots);
                    assert(after.dom() =~= before.dom().insert(key));
                    assert(self.entries() =~= old(self).entries().insert(key, value));
                }
            },
        }
    }

    /// Whether every cached value is one that `f` returns for its key.
    pub open spec fn holds_results_of<F: Fn(u64) -> V>(&self, f: F) -> bool {
        forall|k: u64| #[trigger] self.entries().dom().contains(k) ==> call_ensures(f, (k,), self.entries()[k])
    }

    /// A memoized call of `f` on `key`: the cached value when there is one,
    /// otherwise `f(key)`, which is cached while the cache has room. Either
    /// way the result is (a clone of) what `f` returns for `key`, so
    /// memoization never changes a result.
    pub fn memo_call<F: Fn(u64) -> V>(&mut self, key: u64, f: F) -> (r: V)
        where V: Clone,
        requires
            old(self).wf(),
            old(self).holds_results_of(f),
            call_requires(f, (key,)),
        ensures
            final(self).wf(),
            final(self).holds_results_of(f),
            final(self).spec_capacity() == old(self).spec_capacity(),
            exists|v: V| #[trigger] call_ensures(f, (key,), v) && cloned(v, r),
            old(self).entries().dom().contains(key) ==> final(self).entries() == old(self).entries(),
            !old(self).entries().dom().contains(key) && old(self).entries().dom().len() >= old(self).spec_capacity()
                ==> final(self).entries() == old(self).entries(),
            !old(self).entries().dom().contains(key) && old(self).entries().dom().len() < old(self).spec_capacity()
                ==> final(self).entries().dom() == old(self).entries().dom().insert(key)
                && call_ensures(f, (key,), final(self).entries()[key])
                && forall|k: u64| k != key && #[trigger] old(self).entries().dom().contains(k)
                    ==> final(self).entries()[k] == old(self).entries()[k],
    {
        if let Some(cached) = self.lookup(key) {
            proof {
                assert(call_ensures(f, (key,), self.entries()[key]));
            }
            return cached;
        }
        if self.len() >= self.capacity {
            let computed = f(key);
            proof {
                assert(cloned(computed, computed));
            }
            return computed;
        }
        let computed = f(key);
        let ghost before = self.entries();
        self.store(key, computed);
        proof {
            assert(self.entries() == before.insert(key, computed));
            assert forall|k: u64| #[trigger] self.entries().dom().contains(k) implies call_ensures(f, (k,), self.entries()[k]) by {
                if k != key {
                    assert(before.dom().contains(k));
                }
            }
        }
        let found = self.lookup(key);
        proof {
            assert(found is Some);
        }
        found.unwrap()
    }
}

/// Whether every value in the cache is what `f` gives for its key.
pub open spec fn agrees_with<V>(entries: Map<u64, V>, f: spec_fn(u64) -> V) -> bool {
    forall|k: u64| #[trigger] entries.dom().contains(k) ==> entries[k] == f(k)
}

/// Memoization is transparent: caching the value that `f` gives for a key
/// keeps a cache that agrees with `f` in agreement, so what a lookup finds
/// is always what `f` gives.
pub proof fn law_memoization_transparent<V>(entries: Map<u64, V>, f: spec_fn(u64) -> V, key: u64)
    requires
        agrees_with(entries, f),
    ensures
        agrees_with(entries.insert(key, f(key)), f),
        entries.dom().contains(key) ==> entries[key] == f(key),
{
}

/// Two memoized calls with the same key give the same result, whatever was
/// called in between, when the function gives one result per key and
/// cloning its results copies them exactly: each call returns a clone of a
/// result of the function for that key (`MemoCache::memo_call`).
pub proof fn law_memo_calls_agree<V: Clone, F: Fn(u64) -> V>(f: F, key: u64, r1: V, r2: V)
    requires
        forall|v1: V, v2: V| call_ensures(f, (key,), v1) && call_ensures(f, (key,), v2) ==> v1 == v2,
        forall|a: V, b: V| cloned(a, b) ==> a == b,
        exists|v: V| #[trigger] call_ensures(f, (key,), v) && cloned(v, r1),
        exists|v: V| #[trigger] call_ensures(f, (key,), v) && cloned(v, r2),
    ensures
        r1 == r2,
{
    let v1 = choose|v: V| #[trigger] call_ensures(f, (key,), v) && cloned(v, r1);
    let v2 = choose|v: V| #[trigger] call_ensures(f, (key,), v) && cloned(v, r2);
    assert(v1 == v2);
}

/// The key of a call with two 32-bit integer arguments: the first in the
/// high half, the second in the low half.
pub open spec fn pair_key_of(x: i32, y: i32) -> u64 {
    ((x as u32 as u64) << 32u64) | (y as u32 as u64)
}

/// The key of a call with two 32-bit integer arguments.
pub fn pair_key(x: i32, y: i32) -> (k: u64)
    ensures
        k == pair_key_of(x, y),
{
    ((x as u32 as u64) << 32u64) | (y as u32 as u64)
}

/// Different argument pairs have different keys.
pub proof fn law_pair_key_injective(x1: i32, y1: i32, x2: i32, y2: i32)
    requires
        pair_key_of(x1, y1) == pair_key_of(x2, y2),
    ensures
        x1 == x2,
        y1 == y2,
{
    assert(((x1 as u32 as u64) << 32u64) | (y1 as u32 as u64) == ((x2 as u32 as u64) << 32u64) | (y2 as u32 as u64)
        ==> x1 == x2 && y1 == y2) by (bit_vector);
}

} // verus!
