//! The mathematical model of the cache's contents: a recency-ordered sequence
//! of key/entry slots, least recently used first, most recently used last.

use vstd::prelude::*;

use crate::util::{entry_size, ImageView};

verus! {

/// One slot of the cache: a key and the frames cached under it.
#[verifier::ext_equal]
pub ghost struct Slot {
    pub key: Seq<char>,
    pub frames: Seq<ImageView>,
}

/// Whether some slot holds the key.
pub open spec fn has_key(s: Seq<Slot>, k: Seq<char>) -> bool {
    exists|i: int| 0 <= i < s.len() && s[i].key == k
}

/// The position of the slot holding the key.
pub open spec fn key_index(s: Seq<Slot>, k: Seq<char>) -> int {
    choose|i: int| 0 <= i < s.len() && s[i].key == k
}

/// No two slots hold the same key.
pub open spec fn distinct_keys(s: Seq<Slot>) -> bool {
    forall|i: int, j: int| 0 <= i < j < s.len() ==> s[i].key != s[j].key
}

/// The byte total of all slots: the sum of their entries' sizes.
pub open spec fn entries_size(s: Seq<Slot>) -> nat
    decreases s.len(),
{
    if s.len() == 0 {
        0
    } else {
        entries_size(s.drop_last()) + entry_size(s.last().frames)
    }
}

/// The sequence without the slot holding the key; unchanged if no slot does.
pub open spec fn remove_key(s: Seq<Slot>, k: Seq<char>) -> Seq<Slot> {
    if has_key(s, k) {
        s.remove(key_index(s, k))
    } else {
        s
    }
}

/// The sequence after an access to the key: its slot becomes the most
/// recently used; unchanged if no slot holds the key.
pub open spec fn refresh(s: Seq<Slot>, k: Seq<char>) -> Seq<Slot> {
    if has_key(s, k) {
        s.remove(key_index(s, k)).push(s[key_index(s, k)])
    } else {
        s
    }
}

/// The least recently used slots drop off the front until `need` more bytes
/// fit under `max`, or nothing is left.
pub open spec fn evict_for(s: Seq<Slot>, need: nat, max: nat) -> Seq<Slot>
    decreases s.len(),
{
    if s.len() == 0 || entries_size(s) + need <= max {
        s
    } else {
        evict_for(s.drop_first(), need, max)
    }
}

/// The contents after an accepted `put` of `slot`: any slot already holding
/// the key leaves, then the least recently used slots are evicted until the
/// entry's bytes fit under `max`, then — with every one of the `cap` slots
/// taken — the least recently used slot leaves, and the new slot comes in as
/// the most recently used.
pub open spec fn put_result(s: Seq<Slot>, slot: Slot, max: nat, cap: nat) -> Seq<Slot> {
    let shrunk = evict_for(remove_key(s, slot.key), entry_size(slot.frames), max);
    let roomy = if shrunk.len() >= cap {
        shrunk.drop_first()
    } else {
        shrunk
    };
    roomy.push(slot)
}

/// Appending a slot adds its entry's size to the byte total.
pub proof fn lemma_entries_size_push(s: Seq<Slot>, slot: Slot)
    ensures
        entries_size(s.push(slot)) == entries_size(s) + entry_size(slot.frames),
{
    assert(s.push(slot).drop_last() =~= s);
}

/// Removing a slot subtracts its entry's size from the byte total.
pub proof fn lemma_entries_size_remove(s: Seq<Slot>, i: int)
    requires
        0 <= i < s.len(),
    ensures
        entries_size(s) == entries_size(s.remove(i)) + entry_size(s[i].frames),
    decreases s.len(),
{
    if i == s.len() - 1 {
        assert(s.remove(i) =~= s.drop_last());
    } else {
        assert(s.remove(i).drop_last() =~= s.drop_last().remove(i));
        assert(s.remove(i).last() == s.last());
        lemma_entries_size_remove(s.drop_last(), i);
    }
}

/// Dropping the front slot subtracts its entry's size from the byte total.
pub proof fn lemma_entries_size_drop_first(s: Seq<Slot>)
    requires
        s.len() > 0,
    ensures
        entries_size(s) == entry_size(s[0].frames) + entries_size(s.drop_first()),
{
    assert(s.drop_first() =~= s.remove(0));
    lemma_entries_size_remove(s, 0);
}

/// Appending a slot with a fresh key keeps the keys distinct.
pub proof fn lemma_push_distinct(s: Seq<Slot>, slot: Slot)
    requires
        distinct_keys(s),
        !has_key(s, slot.key),
    ensures
        distinct_keys(s.push(slot)),
{
    assert forall|i: int, j: int| 0 <= i < j < s.push(slot).len() implies s.push(slot)[i].key
        != s.push(slot)[j].key by {
        if j < s.len() {
        } else {
            assert(s[i].key != slot.key);
        }
    }
}

/// Removing one slot keeps the other keys distinct and their entries' sizes;
/// a key the removed slot held alone is gone, every other key stays.
pub proof fn lemma_remove_preserves(s: Seq<Slot>, i: int, max: nat)
    requires
        distinct_keys(s),
        0 <= i < s.len(),
        forall|j: int| 0 <= j < s.len() ==> entry_size(s[j].frames) < max,
    ensures
        distinct_keys(s.remove(i)),
        forall|j: int| 0 <= j < s.remove(i).len() ==> entry_size(s.remove(i)[j].frames) < max,
        forall|k2: Seq<char>| has_key(s.remove(i), k2) ==> has_key(s, k2),
        !has_key(s.remove(i), s[i].key),
{
    let t = s.remove(i);
    assert(t.len() == s.len() - 1);
    assert forall|j: int| 0 <= j < t.len() implies t[j] == (if j < i {
        s[j]
    } else {
        s[j + 1]
    }) by {}
    assert forall|k2: Seq<char>| has_key(t, k2) implies has_key(s, k2) by {
        let j = choose|j: int| 0 <= j < t.len() && t[j].key == k2;
        if j < i {
            assert(s[j].key == k2);
        } else {
            assert(s[j + 1].key == k2);
        }
    }
    assert forall|j: int| 0 <= j < t.len() implies t[j].key != s[i].key by {
        if j < i {
        } else {
            assert(t[j] == s[j + 1]);
        }
    }
}

/// Dropping the least recently used slot keeps the rest in order, their keys
/// distinct, and every other key present.
pub proof fn lemma_drop_first_preserves(s: Seq<Slot>)
    requires
        s.len() > 0,
        distinct_keys(s),
    ensures
        s.drop_first().len() == s.len() - 1,
        forall|j: int| 0 <= j < s.drop_first().len() ==> s.drop_first()[j] == s[j + 1],
        distinct_keys(s.drop_first()),
        forall|k2: Seq<char>| has_key(s.drop_first(), k2) ==> has_key(s, k2),
{
    let t = s.drop_first();
    assert forall|j: int| 0 <= j < t.len() implies t[j] == s[j + 1] by {}
    assert forall|k2: Seq<char>| has_key(t, k2) implies has_key(s, k2) by {
        let j = choose|j: int| 0 <= j < t.len() && t[j].key == k2;
        assert(s[j + 1].key == k2);
    }
}

/// An access reorders but neither adds nor drops: the slot count, the byte
/// total, the keys present and their distinctness are all kept, and the
/// accessed key's slot becomes the most recently used.
pub proof fn lemma_refresh_facts(s: Seq<Slot>, k: Seq<char>)
    requires
        distinct_keys(s),
    ensures
        refresh(s, k).len() == s.len(),
        entries_size(refresh(s, k)) == entries_size(s),
        distinct_keys(refresh(s, k)),
        forall|k2: Seq<char>| has_key(refresh(s, k), k2) == has_key(s, k2),
        has_key(s, k) ==> refresh(s, k).last().key == k,
{
    if has_key(s, k) {
        let i = key_index(s, k);
        let t = s.remove(i).push(s[i]);
        lemma_entries_size_remove(s, i);
        lemma_entries_size_push(s.remove(i), s[i]);
        assert forall|j: int| 0 <= j < s.len() implies entry_size(s[j].frames) < entries_size(s)
            + 1 by {
            lemma_entries_size_remove(s, j);
        }
        lemma_remove_preserves(s, i, entries_size(s) + 1);
        lemma_push_distinct(s.remove(i), s[i]);
        assert forall|k2: Seq<char>| has_key(t, k2) implies has_key(s, k2) by {
            let j = choose|j: int| 0 <= j < t.len() && t[j].key == k2;
            if j == t.len() - 1 {
                assert(s[i].key == k2);
            } else {
                assert(has_key(s.remove(i), k2));
            }
        }
        assert forall|k2: Seq<char>| has_key(s, k2) implies has_key(t, k2) by {
            let j = choose|j: int| 0 <= j < s.len() && s[j].key == k2;
            if j == i {
                assert(t[t.len() - 1].key == k2);
            } else if j < i {
                assert(t[j] == s.remove(i)[j]);
                assert(t[j].key == k2);
            } else {
                assert(t[j - 1] == s.remove(i)[j - 1]);
                assert(t[j - 1].key == k2);
            }
        }
    }
}

/// Least-recently-used order: with every one of the `cap` slots taken and the
/// byte budget forcing nothing out, accepting a fresh key evicts exactly the
/// least recently used slot — that key alone is gone, every other key stays,
/// and the new slot is the most recently used.
pub proof fn lemma_full_cache_evicts_lru(s: Seq<Slot>, slot: Slot, max: nat, cap: nat)
    requires
        distinct_keys(s),
        !has_key(s, slot.key),
        s.len() == cap,
        cap >= 1,
        entries_size(s) + entry_size(slot.frames) <= max,
    ensures
        put_result(s, slot, max, cap) == s.drop_first().push(slot),
        !has_key(put_result(s, slot, max, cap), s[0].key),
        forall|i: int| 1 <= i < s.len() ==> has_key(put_result(s, slot, max, cap), s[i].key),
{
    assert(remove_key(s, slot.key) == s);
    assert(evict_for(s, entry_size(slot.frames), max) == s);
    let t = s.drop_first().push(slot);
    assert(put_result(s, slot, max, cap) == t);
    lemma_drop_first_preserves(s);
    assert(s[0].key != slot.key) by {
        if s[0].key == slot.key {
            assert(0 <= 0 < s.len() && s[0].key == slot.key);
            assert(has_key(s, slot.key));
        }
    }
    assert forall|j: int| 0 <= j < t.len() implies t[j].key != s[0].key by {
        if j < t.len() - 1 {
            assert(t[j] == s[j + 1]);
        } else {
            assert(t[j] == slot);
        }
    }
    assert forall|i: int| 1 <= i < s.len() implies has_key(t, s[i].key) by {
        assert(t[i - 1] == s[i]);
        assert(0 <= i - 1 < t.len() && t[i - 1].key == s[i].key);
    }
}

/// Recency refresh protects from eviction: a key accessed just before a fresh
/// key is accepted survives, even when the acceptance evicts a slot, because
/// the eviction falls on a slot that was not accessed.
pub proof fn lemma_refresh_protects(s: Seq<Slot>, k: Seq<char>, slot: Slot, max: nat, cap: nat)
    requires
        distinct_keys(s),
        has_key(s, k),
        s.len() >= 2,
        slot.key != k,
        !has_key(s, slot.key),
        entries_size(s) + entry_size(slot.frames) <= max,
    ensures
        has_key(put_result(refresh(s, k), slot, max, cap), k),
{
    let r = refresh(s, k);
    lemma_refresh_facts(s, k);
    assert(!has_key(r, slot.key));
    assert(remove_key(r, slot.key) == r);
    assert(evict_for(r, entry_size(slot.frames), max) == r);
    let last: int = r.len() - 1;
    assert(r[last].key == k);
    if r.len() >= cap {
        let t = r.drop_first().push(slot);
        assert(put_result(r, slot, max, cap) == t);
        assert(t[last - 1] == r[last]);
        assert(0 <= last - 1 < t.len() && t[last - 1].key == k);
    } else {
        let t = r.push(slot);
        assert(put_result(r, slot, max, cap) == t);
        assert(0 <= last < t.len() && t[last].key == k);
    }
}

/// Accepted entries that fit evict nothing: with a free slot and the byte
/// total staying within the budget, a `put` of a fresh key keeps every key
/// that was present, adds the new one, and grows the byte total by exactly
/// the new entry's size — nothing is lost and nothing is counted twice.
pub proof fn lemma_put_within_budget_keeps_all(s: Seq<Slot>, slot: Slot, max: nat, cap: nat)
    requires
        distinct_keys(s),
        !has_key(s, slot.key),
        s.len() < cap,
        entries_size(s) + entry_size(slot.frames) <= max,
    ensures
        put_result(s, slot, max, cap) == s.push(slot),
        entries_size(put_result(s, slot, max, cap)) == entries_size(s) + entry_size(slot.frames),
        forall|k2: Seq<char>| has_key(s, k2) ==> has_key(put_result(s, slot, max, cap), k2),
        has_key(put_result(s, slot, max, cap), slot.key),
{
    assert(remove_key(s, slot.key) == s);
    assert(evict_for(s, entry_size(slot.frames), max) == s);
    let t = s.push(slot);
    assert(put_result(s, slot, max, cap) == t);
    lemma_entries_size_push(s, slot);
    assert forall|k2: Seq<char>| has_key(s, k2) implies has_key(t, k2) by {
        let j = choose|j: int| 0 <= j < s.len() && s[j].key == k2;
        assert(0 <= j < t.len() && t[j].key == k2);
    }
    assert(0 <= t.len() - 1 < t.len() && t[t.len() - 1].key == slot.key);
}

/// Size-based eviction: three entries accepted into an empty cache, where the
/// first two fit the budget together, all three do not, and the last two do,
/// leave exactly the last two cached — the first, as least recently used, is
/// evicted when the third arrives — with the byte total the sum of the two.
pub proof fn lemma_size_eviction(a: Slot, b: Slot, c: Slot, max: nat, cap: nat)
    requires
        a.key != b.key,
        a.key != c.key,
        b.key != c.key,
        entries_size(Seq::empty().push(a)) + entry_size(b.frames) <= max,
        entries_size(Seq::empty().push(a).push(b)) + entry_size(c.frames) > max,
        entry_size(b.frames) + entry_size(c.frames) <= max,
        cap >= 3,
    ensures
        ({
            let s1 = put_result(Seq::empty(), a, max, cap);
            let s2 = put_result(s1, b, max, cap);
            let s3 = put_result(s2, c, max, cap);
            &&& s3 == Seq::empty().push(b).push(c)
            &&& entries_size(s3) == entry_size(b.frames) + entry_size(c.frames)
        }),
{
    let e0 = Seq::<Slot>::empty();
    lemma_entries_size_push(e0, a);
    lemma_entries_size_push(e0, b);
    lemma_entries_size_push(e0.push(a), b);
    lemma_entries_size_push(e0.push(b), c);
    assert(!has_key(e0, a.key));
    let s1 = put_result(e0, a, max, cap);
    assert(evict_for(e0, entry_size(a.frames), max) == e0);
    assert(s1 == e0.push(a));
    assert(!has_key(s1, b.key)) by {
        if has_key(s1, b.key) {
            let j = choose|j: int| 0 <= j < s1.len() && s1[j].key == b.key;
            assert(s1[j] == a);
        }
    }
    let s2 = put_result(s1, b, max, cap);
    assert(remove_key(s1, b.key) == s1);
    assert(entries_size(s1) + entry_size(b.frames) <= max);
    assert(evict_for(s1, entry_size(b.frames), max) == s1);
    assert(s2 == s1.push(b));
    assert(!has_key(s2, c.key)) by {
        if has_key(s2, c.key) {
            let j = choose|j: int| 0 <= j < s2.len() && s2[j].key == c.key;
            if j == 0 {
                assert(s2[j] == a);
            } else {
                assert(s2[j] == b);
            }
        }
    }
    let s3 = put_result(s2, c, max, cap);
    assert(remove_key(s2, c.key) == s2);
    assert(entries_size(s2) == entry_size(a.frames) + entry_size(b.frames));
    assert(entries_size(s2) + entry_size(c.frames) > max);
    assert(s2.drop_first() =~= e0.push(b));
    assert(entries_size(s2.drop_first()) + entry_size(c.frames) <= max);
    assert(evict_for(s2, entry_size(c.frames), max) == evict_for(
        s2.drop_first(),
        entry_size(c.frames),
        max,
    ));
    assert(evict_for(s2.drop_first(), entry_size(c.frames), max) == s2.drop_first());
    assert(s3 == e0.push(b).push(c));
    assert(entries_size(s3) == entry_size(b.frames) + entry_size(c.frames));
}

} // verus!
