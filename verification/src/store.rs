//! The trusted boundary to the `lru` crate: the recency-ordered store the
//! cache keeps its entries in, seen by the verifier through `store_seq` (the
//! slots it holds, least recently used first) and `store_cap` (the slot bound
//! it was created with).

use vstd::prelude::*;

use crate::model::{distinct_keys, has_key, key_index, Slot};
use crate::util::ImageData;

verus! {

/// The lru crate's cache type, opaque to the verifier.
#[verifier::external_type_specification]
#[verifier::external_body]
#[verifier::reject_recursive_types(K)]
#[verifier::reject_recursive_types(V)]
#[verifier::reject_recursive_types(S)]
pub struct ExLruCache<K, V, S>(lru::LruCache<K, V, S>);

/// The hasher the lru crate builds its cache with by default, opaque too.
#[verifier::external_type_specification]
#[verifier::external_body]
pub struct ExLruDefaultHasher(lru::DefaultHasher);

/// The slots a store holds, least recently used first.
pub uninterp spec fn store_seq(s: lru::LruCache<String, ImageData>) -> Seq<Slot>;

/// The slot bound a store was created with.
pub uninterp spec fn store_cap(s: lru::LruCache<String, ImageData>) -> nat;

/// Relies on lru::LruCache::new: a fresh store is empty and keeps the given
/// slot bound.
#[verifier::external_body]
pub(crate) fn store_new(cap: usize) -> (s: lru::LruCache<String, ImageData>)
    requires
        1 <= cap,
    ensures
        store_seq(s) == Seq::<Slot>::empty(),
        store_cap(s) == cap as nat,
{
    lru::LruCache::new(std::num::NonZeroUsize::new(cap).unwrap())
}

/// Relies on lru::LruCache::put: with the key absent and a slot free, the
/// pair goes in as the most recently used and nothing else moves.
#[verifier::external_body]
pub(crate) fn store_insert(s: &mut lru::LruCache<String, ImageData>, k: String, v: ImageData)
    requires
        !has_key(store_seq(*old(s)), k@),
        store_seq(*old(s)).len() < store_cap(*old(s)),
    ensures
        store_seq(*final(s)) == store_seq(*old(s)).push((Slot { key: k@, frames: v@ })),
        store_cap(*final(s)) == store_cap(*old(s)),
{
    s.put(k, v);
}

/// Relies on lru::LruCache::pop: the pair under the key leaves and the other
/// slots keep their order; a miss changes nothing.
#[verifier::external_body]
pub(crate) fn store_remove(s: &mut lru::LruCache<String, ImageData>, k: &String) -> (r: Option<
    ImageData,
>)
    requires
        distinct_keys(store_seq(*old(s))),
    ensures
        store_cap(*final(s)) == store_cap(*old(s)),
        has_key(store_seq(*old(s)), k@) ==> {
            let i = key_index(store_seq(*old(s)), k@);
            &&& r matches Some(v) && v@ == store_seq(*old(s))[i].frames
            &&& store_seq(*final(s)) == store_seq(*old(s)).remove(i)
        },
        !has_key(store_seq(*old(s)), k@) ==> r is None && store_seq(*final(s)) == store_seq(
            *old(s),
        ),
{
    s.pop(k)
}

/// Relies on lru::LruCache::pop_lru: the least recently used pair leaves; an
/// empty store stays empty.
#[verifier::external_body]
pub(crate) fn store_remove_lru(s: &mut lru::LruCache<String, ImageData>) -> (r: Option<
    (String, ImageData),
>)
    ensures
        store_cap(*final(s)) == store_cap(*old(s)),
        store_seq(*old(s)).len() == 0 ==> r is None && store_seq(*final(s)) == store_seq(*old(s)),
        store_seq(*old(s)).len() > 0 ==> {
            &&& r matches Some(kv) && kv.0@ == store_seq(*old(s))[0].key && kv.1@ == store_seq(
                *old(s),
            )[0].frames
            &&& store_seq(*final(s)) == store_seq(*old(s)).drop_first()
        },
{
    s.pop_lru()
}

/// Relies on lru::LruCache::get: a hit refreshes the slot to most recently
/// used and hands out a field-for-field clone of its entry; a miss changes
/// nothing.
#[verifier::external_body]
pub(crate) fn store_access(s: &mut lru::LruCache<String, ImageData>, k: &String) -> (r: Option<
    ImageData,
>)
    requires
        distinct_keys(store_seq(*old(s))),
    ensures
        store_cap(*final(s)) == store_cap(*old(s)),
        has_key(store_seq(*old(s)), k@) ==> {
            let i = key_index(store_seq(*old(s)), k@);
            &&& r matches Some(v) && v@ == store_seq(*old(s))[i].frames
            &&& store_seq(*final(s)) == store_seq(*old(s)).remove(i).push(store_seq(*old(s))[i])
        },
        !has_key(store_seq(*old(s)), k@) ==> r is None && store_seq(*final(s)) == store_seq(
            *old(s),
        ),
{
    s.get(k).cloned()
}

/// Relies on lru::LruCache::contains: membership alone, no recency change.
#[verifier::external_body]
pub(crate) fn store_contains(s: &lru::LruCache<String, ImageData>, k: &String) -> (r: bool)
    ensures
        r == has_key(store_seq(*s), k@),
{
    s.contains(k)
}

/// Relies on lru::LruCache::len: how many slots are taken.
#[verifier::external_body]
pub(crate) fn store_len(s: &lru::LruCache<String, ImageData>) -> (r: usize)
    ensures
        r as nat == store_seq(*s).len(),
{
    s.len()
}

/// Relies on lru::LruCache::clear: every pair leaves; the bound stays.
#[verifier::external_body]
pub(crate) fn store_clear(s: &mut lru::LruCache<String, ImageData>)
    ensures
        store_seq(*final(s)) == Seq::<Slot>::empty(),
        store_cap(*final(s)) == store_cap(*old(s)),
{
    s.clear()
}

} // verus!
