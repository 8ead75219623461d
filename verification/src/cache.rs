//! The bounded image cache: admission control and least-recently-used
//! eviction under a byte budget and a fixed slot bound.

use vstd::prelude::*;

use crate::model::{
    distinct_keys, entries_size, evict_for, has_key, key_index, lemma_drop_first_preserves,
    lemma_entries_size_drop_first, lemma_entries_size_push, lemma_entries_size_remove,
    lemma_push_distinct, lemma_remove_preserves, put_result, refresh, remove_key, Slot,
};
use crate::store::{store_cap, store_new, store_seq};
use crate::util::{entry_size, ImageData};

verus! {

/// How many slots a cache has, independent of its byte budget.
pub const SLOT_CAPACITY: usize = 30;

/// A bounded-memory image cache: entries keyed by path, evicted least
/// recently used first once their byte total would pass the budget.
pub struct Cache {
    store: lru::LruCache<String, ImageData>,
    total_size: usize,
    max_size: usize,
}

impl Cache {
    /// The cached slots, least recently used first.
    pub closed spec fn entries(self) -> Seq<Slot> {
        store_seq(self.store)
    }

    /// The tracked byte total.
    pub closed spec fn total(self) -> nat {
        self.total_size as nat
    }

    /// The byte budget.
    pub closed spec fn max(self) -> nat {
        self.max_size as nat
    }

    /// The slot bound of the underlying store.
    pub closed spec fn slot_cap(self) -> nat {
        store_cap(self.store)
    }

    /// What holds of every cache between operations: keys are unique, the
    /// tracked total is exactly the byte size of what is cached and stays
    /// under the budget, every cached entry is smaller than the budget, and
    /// the slot bound is kept.
    pub open spec fn inv(self) -> bool {
        &&& distinct_keys(self.entries())
        &&& self.total() == entries_size(self.entries())
        &&& self.total() <= self.max()
        &&& forall|i: int|
            0 <= i < self.entries().len() ==> entry_size(self.entries()[i].frames) < self.max()
        &&& self.entries().len() <= SLOT_CAPACITY
        &&& self.slot_cap() == SLOT_CAPACITY as nat
    }

    /// A fresh cache with the given byte budget: empty, nothing counted.
    pub fn new(max_size: usize) -> (c: Cache)
        ensures
            c.inv(),
            c.entries() == Seq::<Slot>::empty(),
            c.total() == 0,
            c.max() == max_size as nat,
    {
        Cache { store: store_new(SLOT_CAPACITY), total_size: 0, max_size }
    }

    /// The tracked byte total of all cached entries.
    pub fn total_size(&self) -> (r: usize)
        ensures
            r as nat == self.total(),
    {
        self.total_size
    }

    /// The byte budget the cache was created with.
    pub fn max_size(&self) -> (r: usize)
        ensures
            r as nat == self.max(),
    {
        self.max_size
    }

    /// How many entries are cached.
    pub fn len(&self) -> (r: usize)
        ensures
            r as nat == self.entries().len(),
    {
        crate::store::store_len(&self.store)
    }

    /// Admission and eviction. An entry at least as large as the budget is
    /// refused and nothing changes. Otherwise any entry already cached under
    /// the key leaves, least recently used entries are evicted until the new
    /// entry's bytes fit under the budget, a fully occupied slot table gives
    /// up its least recently used entry, and the new entry is cached as the
    /// most recently used — the byte total staying the exact measured sum
    /// throughout.
    pub fn put(&mut self, key: String, entry: ImageData)
        requires
            old(self).inv(),
        ensures
            final(self).inv(),
            final(self).max() == old(self).max(),
            entry_size(entry@) >= old(self).max() ==> final(self).entries() == old(self).entries()
                && final(self).total() == old(self).total(),
            entry_size(entry@) < old(self).max() ==> final(self).entries() == put_result(
                old(self).entries(),
                (Slot { key: key@, frames: entry@ }),
                old(self).max(),
                SLOT_CAPACITY as nat,
            ),
    {
        let ghost s0 = store_seq(self.store);
        let ghost m = old(self).max();
        let size = entry.size();
        if size >= self.max_size {
            return;
        }
        assert(size as nat == entry_size(entry@));
        // the slot already holding the key leaves first, so the byte total
        // stays exact when a key is overwritten
        match crate::store::store_remove(&mut self.store, &key) {
            Some(prior) => {
                proof {
                    let i = key_index(s0, key@);
                    lemma_entries_size_remove(s0, i);
                    lemma_remove_preserves(s0, i, m);
                    assert(entry_size(s0[i].frames) < m);
                }
                let prior_size = prior.size();
                self.total_size = self.total_size - prior_size;
            },
            None => {},
        }
        let ghost s1 = store_seq(self.store);
        assert(s1 == remove_key(s0, key@));
        // evict least recently used entries until the new entry's bytes fit
        while self.total_size > self.max_size - size
            invariant
                old(self).inv(),
                self.max_size == old(self).max_size,
                m == self.max_size as nat,
                size as nat == entry_size(entry@),
                (size as nat) < m,
                distinct_keys(store_seq(self.store)),
                !has_key(store_seq(self.store), key@),
                self.total_size as nat == entries_size(store_seq(self.store)),
                forall|i: int|
                    0 <= i < store_seq(self.store).len() ==> entry_size(
                        store_seq(self.store)[i].frames,
                    ) < m,
                store_seq(self.store).len() <= SLOT_CAPACITY,
                store_cap(self.store) == SLOT_CAPACITY as nat,
                evict_for(store_seq(self.store), size as nat, m) == evict_for(s1, size as nat, m),
            decreases store_seq(self.store).len(),
        {
            let ghost cur = store_seq(self.store);
            proof {
                if cur.len() == 0 {
                    assert(entries_size(cur) == 0);
                }
                assert(cur.len() > 0);
                assert(evict_for(cur, size as nat, m) == evict_for(
                    cur.drop_first(),
                    size as nat,
                    m,
                ));
            }
            match crate::store::store_remove_lru(&mut self.store) {
                Some((_victim_key, victim)) => {
                    proof {
                        lemma_entries_size_drop_first(cur);
                        lemma_drop_first_preserves(cur);
                        assert(entry_size(cur[0].frames) < m);
                    }
                    let victim_size = victim.size();
                    self.total_size = self.total_size - victim_size;
                },
                None => {},
            }
        }
        let ghost s2 = store_seq(self.store);
        proof {
            assert(entries_size(s2) + size as nat <= m);
            assert(evict_for(s2, size as nat, m) == s2);
            assert(s2 == evict_for(s1, size as nat, m));
        }
        // a fully occupied slot table gives up its least recently used entry
        if crate::store::store_len(&self.store) >= SLOT_CAPACITY {
            match crate::store::store_remove_lru(&mut self.store) {
                Some((_victim_key, victim)) => {
                    proof {
                        lemma_entries_size_drop_first(s2);
                        lemma_drop_first_preserves(s2);
                        assert(entry_size(s2[0].frames) < m);
                    }
                    let victim_size = victim.size();
                    self.total_size = self.total_size - victim_size;
                },
                None => {},
            }
        }
        let ghost s3 = store_seq(self.store);
        proof {
            lemma_entries_size_push(s3, Slot { key: key@, frames: entry@ });
            lemma_push_distinct(s3, Slot { key: key@, frames: entry@ });
        }
        self.total_size = self.total_size + size;
        crate::store::store_insert(&mut self.store, key, entry);
    }

    /// A shared look-up: the cached entry under the key, refreshed to most
    /// recently used; nothing for an absent key.
    pub fn get(&mut self, key: &String) -> (r: Option<ImageData>)
        requires
            old(self).inv(),
        ensures
            final(self).inv(),
            final(self).max() == old(self).max(),
            final(self).total() == old(self).total(),
            final(self).entries() == refresh(old(self).entries(), key@),
            r is Some <==> has_key(old(self).entries(), key@),
            r matches Some(v) ==> v@ == old(self).entries()[key_index(
                old(self).entries(),
                key@,
            )].frames,
    {
        let ghost s0 = store_seq(self.store);
        let r = crate::store::store_access(&mut self.store, key);
        proof {
            if has_key(s0, key@) {
                let i = key_index(s0, key@);
                lemma_entries_size_remove(s0, i);
                lemma_entries_size_push(s0.remove(i), s0[i]);
                lemma_remove_preserves(s0, i, old(self).max());
                lemma_push_distinct(s0.remove(i), s0[i]);
            }
        }
        r
    }

    /// Explicit invalidation: the entry under the key leaves and its measured
    /// size comes off the byte total; a no-op for an absent key.
    pub fn pop(&mut self, key: &String)
        requires
            old(self).inv(),
        ensures
            final(self).inv(),
            final(self).max() == old(self).max(),
            final(self).entries() == remove_key(old(self).entries(), key@),
            final(self).total() == entries_size(final(self).entries()),
    {
        let ghost s0 = store_seq(self.store);
        match crate::store::store_remove(&mut self.store, key) {
            Some(prior) => {
                proof {
                    let i = key_index(s0, key@);
                    lemma_entries_size_remove(s0, i);
                    lemma_remove_preserves(s0, i, old(self).max());
                    assert(entry_size(s0[i].frames) < old(self).max());
                }
                let prior_size = prior.size();
                self.total_size = self.total_size - prior_size;
            },
            None => {},
        }
    }

    /// Empties the cache: no entries, a byte total of zero.
    pub fn clear(&mut self)
        requires
            old(self).inv(),
        ensures
            final(self).inv(),
            final(self).max() == old(self).max(),
            final(self).entries() == Seq::<Slot>::empty(),
            final(self).total() == 0,
    {
        self.total_size = 0;
        crate::store::store_clear(&mut self.store);
    }

    /// Whether an entry is cached under the key, without touching recency.
    pub fn contains(&self, key: &String) -> (r: bool)
        ensures
            r == has_key(self.entries(), key@),
    {
        crate::store::store_contains(&self.store, key)
    }
}

} // verus!
