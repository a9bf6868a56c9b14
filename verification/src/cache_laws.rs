//! What holds of every cache, proved over its model.

use crate::cache::{
    lemma_filter_keeps_keys_apart, most_recent, survives, CacheModel, EntryModel,
};
use vstd::prelude::*;

verus! {

/// What a lookup returns is decided by the one entry of the key.
pub proof fn lemma_lookup_finds_entry<V>(cache: CacheModel<V>, index: int, now: nat)
    requires
        cache.wf(),
        0 <= index < cache.entries.len(),
    ensures
        cache.lookup(cache.entries[index].key, now) == if cache.entries[index].expired(
            now,
            cache.time_to_live,
        ) {
            None
        } else {
            Some(cache.entries[index].value)
        },
{
    cache.lemma_slot_is_unique(cache.entries[index].key, index);
}

/// A key without an entry is not retrievable.
pub proof fn lemma_lookup_misses_absent_key<V>(cache: CacheModel<V>, key: Seq<char>, now: nat)
    requires
        forall|i: int| 0 <= i < cache.entries.len() ==> cache.entries[i].key != key,
    ensures
        cache.lookup(key, now) is None,
{
}

/// An entry that has expired stays expired.
pub proof fn lemma_expiry_is_final<V>(entry: EntryModel<V>, now: nat, later: nat, time_to_live: nat)
    requires
        now <= later,
        entry.expired(now, time_to_live),
    ensures
        entry.expired(later, time_to_live),
{
}

/// `get` changes the order of use and nothing else: the cache stays
/// well-formed, and every key is as retrievable afterwards as it was before.
pub proof fn lemma_get_keeps_contents<V>(
    cache: CacheModel<V>,
    key: Seq<char>,
    now: nat,
    other: Seq<char>,
    later: nat,
)
    requires
        cache.wf(),
    ensures
        cache.touch(key, now).wf(),
        cache.touch(key, now).entries.len() == cache.entries.len(),
        cache.touch(key, now).lookup(other, later) == cache.lookup(other, later),
{
    let after = cache.touch(key, now);
    if cache.live_slot(key, now) is Some {
        let moved = cache.live_slot(key, now).unwrap();
        let last = cache.entries.len() - 1;
        if cache.slot(other) is Some {
            // The entry of `other` has moved with the rest.
            let at = cache.slot(other).unwrap();
            let to = if at < moved {
                at
            } else if at == moved {
                last
            } else {
                at - 1
            };
            lemma_lookup_finds_entry(after, to, later);
        } else {
            // No entry has changed its key, so `other` is still without one.
            assert forall|i: int| 0 <= i < after.entries.len() implies after.entries[i].key
                != other by {
                let from = if i == last {
                    moved
                } else if i < moved {
                    i
                } else {
                    i + 1
                };
                assert(!cache.holds(other, from));
            }
        }
    }
}

/// The entries that an insertion leaves in place come from the cache as it
/// was, in their old order; none of them is expired or belongs to the key
/// that is inserted.
proof fn lemma_survivors<V>(cache: CacheModel<V>, key: Seq<char>, now: nat)
    requires
        cache.wf(),
    ensures
        ({
            let kept = cache.entries.filter(survives(key, now, cache.time_to_live));
            &&& kept.len() <= cache.entries.len()
            &&& forall|i: int|
                0 <= i < kept.len() ==> cache.entries.contains(#[trigger] kept[i])
                    && !kept[i].expired(now, cache.time_to_live) && kept[i].key != key
            &&& forall|i: int, j: int| 0 <= i < j < kept.len() ==> kept[i].key != kept[j].key
            &&& forall|i: int|
                0 <= i < cache.entries.len() && !cache.entries[i].expired(
                    now,
                    cache.time_to_live,
                ) && cache.entries[i].key != key ==> kept.contains(#[trigger] cache.entries[i])
        }),
{
    lemma_filter_keeps_keys_apart(cache.entries, survives(key, now, cache.time_to_live));
}

/// The key that an insertion of `key` at `now` evicts for lack of room: the
/// least recently used among the live entries of other keys, where these
/// alone fill the cache.
pub open spec fn evicted<V>(cache: CacheModel<V>, key: Seq<char>, now: nat) -> Option<Seq<char>> {
    let kept = cache.entries.filter(survives(key, now, cache.time_to_live));
    if cache.max_entries > 0 && kept.len() >= cache.max_entries {
        Some(kept[0].key)
    } else {
        None
    }
}

/// An insertion keeps the cache well-formed, and so within its capacity; the
/// new entry is the most recently used one.
pub proof fn lemma_insert_keeps_capacity<V>(
    cache: CacheModel<V>,
    key: Seq<char>,
    value: V,
    now: nat,
)
    requires
        cache.wf(),
    ensures
        cache.store(key, value, now).wf(),
        cache.store(key, value, now).entries.len() <= cache.max_entries,
        cache.max_entries > 0 ==> cache.store(key, value, now).entries.last() == (EntryModel {
            key,
            value,
            inserted_at: now,
        }),
{
    lemma_survivors(cache, key, now);
}

/// After `insert` of a value at `inserted`, a `get` of the key at any tick
/// from `inserted` on returns that value while the entry is younger than the
/// time to live, and nothing from then on.
pub proof fn lemma_ttl_visibility<V>(
    cache: CacheModel<V>,
    key: Seq<char>,
    value: V,
    inserted: nat,
    now: nat,
)
    requires
        cache.wf(),
        cache.max_entries > 0,
        inserted <= now,
    ensures
        cache.store(key, value, inserted).lookup(key, now) == if now < inserted
            + cache.time_to_live {
            Some(value)
        } else {
            None
        },
{
    let after = cache.store(key, value, inserted);
    lemma_insert_keeps_capacity(cache, key, value, inserted);
    lemma_lookup_finds_entry(after, after.entries.len() - 1, now);
}

/// Of two values inserted for one key, only the second is ever returned.
pub proof fn lemma_last_write_wins<V>(
    cache: CacheModel<V>,
    key: Seq<char>,
    first: V,
    first_at: nat,
    second: V,
    second_at: nat,
    now: nat,
)
    requires
        cache.wf(),
        cache.max_entries > 0,
        second_at <= now,
    ensures
        cache.store(key, first, first_at).store(key, second, second_at).lookup(key, now) == if now
            < second_at + cache.time_to_live {
            Some(second)
        } else {
            None
        },
        cache.store(key, first, first_at).store(key, second, second_at).entries.filter(
            |entry: EntryModel<V>| entry.key == key,
        ).len() == 1,
{
    let once = cache.store(key, first, first_at);
    lemma_insert_keeps_capacity(cache, key, first, first_at);
    lemma_ttl_visibility(once, key, second, second_at, now);
    let twice = once.store(key, second, second_at);
    lemma_insert_keeps_capacity(once, key, second, second_at);
    lemma_one_entry_per_key(twice, twice.entries.len() - 1);
}

/// In a well-formed cache exactly one entry belongs to a key that is held.
proof fn lemma_one_entry_per_key<V>(cache: CacheModel<V>, index: int)
    requires
        cache.wf(),
        0 <= index < cache.entries.len(),
    ensures
        cache.entries.filter(|entry: EntryModel<V>| entry.key == cache.entries[index].key).len()
            == 1,
    decreases cache.entries.len(),
{
    reveal(Seq::filter);
    let key = cache.entries[index].key;
    let front = CacheModel { entries: cache.entries.drop_last(), ..cache };
    if index == cache.entries.len() - 1 {
        front.entries.lemma_all_neg_filter_empty(|entry: EntryModel<V>| entry.key == key);
    } else {
        lemma_one_entry_per_key(front, index);
    }
}

/// An insertion leaves every other key as retrievable as it was, from the
/// tick of the insertion on, but for the one key that it evicts.
pub proof fn lemma_insert_spares_the_rest<V>(
    cache: CacheModel<V>,
    key: Seq<char>,
    value: V,
    now: nat,
    other: Seq<char>,
    later: nat,
)
    requires
        cache.wf(),
        cache.max_entries > 0,
        other != key,
        now <= later,
        evicted(cache, key, now) != Some(other),
    ensures
        cache.store(key, value, now).lookup(other, later) == cache.lookup(other, later),
{
    let after = cache.store(key, value, now);
    let kept = cache.entries.filter(survives(key, now, cache.time_to_live));
    let room = most_recent(kept, (cache.max_entries - 1) as nat);
    lemma_survivors(cache, key, now);
    if exists|at: int| cache.holds(other, at) {
        let entry = cache.entries[choose|at: int| cache.holds(other, at)];
        if !entry.expired(now, cache.time_to_live) {
            // The entry survives the insertion, and it is not the one that leaves for room.
            let from = choose|from: int| 0 <= from < kept.len() && kept[from] == entry;
            lemma_lookup_finds_entry(after, from - (kept.len() - room.len()), later);
        }
    } else {
        assert forall|i: int| 0 <= i < cache.entries.len() implies cache.entries[i].key
            != other by {
            assert(!cache.holds(other, i));
        }
    }
}

/// The key that an insertion evicts is not retrievable afterwards.
pub proof fn lemma_insert_evicts<V>(
    cache: CacheModel<V>,
    key: Seq<char>,
    value: V,
    now: nat,
    later: nat,
)
    requires
        cache.wf(),
        evicted(cache, key, now) is Some,
    ensures
        cache.store(key, value, now).lookup(evicted(cache, key, now).unwrap(), later) is None,
{
    lemma_survivors(cache, key, now);
}

/// In a cache that is full of live entries, the insertion of a new key evicts
/// the least recently used entry and no other: afterwards the cache holds as
/// many entries as before, the new key and every old key but that one are
/// retrievable, and that one is not.
pub proof fn lemma_full_cache_evicts_least_recent<V>(
    cache: CacheModel<V>,
    key: Seq<char>,
    value: V,
    now: nat,
)
    requires
        cache.wf(),
        cache.max_entries > 0,
        cache.entries.len() == cache.max_entries,
        forall|i: int|
            0 <= i < cache.entries.len() ==> !(#[trigger] cache.entries[i]).expired(
                now,
                cache.time_to_live,
            ) && cache.entries[i].key != key,
    ensures
        evicted(cache, key, now) == Some(cache.entries[0].key),
        cache.store(key, value, now).entries.len() == cache.max_entries,
        cache.store(key, value, now).lookup(cache.entries[0].key, now) is None,
        cache.store(key, value, now).lookup(key, now) == Some(value),
        forall|i: int|
            1 <= i < cache.entries.len() ==> cache.store(key, value, now).lookup(
                #[trigger] cache.entries[i].key,
                now,
            ) == Some(cache.entries[i].value),
{
    lemma_filter_keeps_all(cache.entries, survives(key, now, cache.time_to_live));
    lemma_ttl_visibility(cache, key, value, now, now);
    assert forall|i: int| 1 <= i < cache.entries.len() implies cache.store(key, value, now).lookup(
        #[trigger] cache.entries[i].key,
        now,
    ) == Some(cache.entries[i].value) by {
        lemma_insert_spares_the_rest(cache, key, value, now, cache.entries[i].key, now);
        lemma_lookup_finds_entry(cache, i, now);
    }
}

/// One use of the cache.
pub enum Use<V> {
    Get { key: Seq<char>, now: nat },
    Insert { key: Seq<char>, value: V, now: nat },
}

/// The cache after one use.
pub open spec fn after<V>(cache: CacheModel<V>, step: Use<V>) -> CacheModel<V> {
    match step {
        Use::Get { key, now } => cache.touch(key, now),
        Use::Insert { key, value, now } => cache.store(key, value, now),
    }
}

/// The cache after a series of uses, taken in order.
pub open spec fn after_all<V>(cache: CacheModel<V>, steps: Seq<Use<V>>) -> CacheModel<V>
    decreases steps.len(),
{
    if steps.len() == 0 {
        cache
    } else {
        after(after_all(cache, steps.drop_last()), steps.last())
    }
}

/// Whether a series of uses up to the tick `until` leaves the entry of `key`
/// alone: none of them inserts for `key`, and none evicts `key`.
pub open spec fn leaves_alone<V>(
    cache: CacheModel<V>,
    steps: Seq<Use<V>>,
    key: Seq<char>,
    until: nat,
) -> bool
    decreases steps.len(),
{
    if steps.len() == 0 {
        true
    } else {
        &&& leaves_alone(cache, steps.drop_last(), key, until)
        &&& match steps.last() {
            Use::Get { .. } => true,
            Use::Insert { key: other, now, .. } => other != key && now <= until && evicted(
                after_all(cache, steps.drop_last()),
                other,
                now,
            ) != Some(key),
        }
    }
}

/// Uses that leave the entry of a key alone do not change what a `get` of
/// the key returns at `until`, however many they are.
pub proof fn lemma_uses_keep_entry<V>(
    cache: CacheModel<V>,
    steps: Seq<Use<V>>,
    key: Seq<char>,
    until: nat,
)
    requires
        cache.wf(),
        cache.max_entries > 0,
        leaves_alone(cache, steps, key, until),
    ensures
        after_all(cache, steps).wf(),
        after_all(cache, steps).max_entries == cache.max_entries,
        after_all(cache, steps).time_to_live == cache.time_to_live,
        after_all(cache, steps).lookup(key, until) == cache.lookup(key, until),
    decreases steps.len(),
{
    if steps.len() > 0 {
        let before = after_all(cache, steps.drop_last());
        lemma_uses_keep_entry(cache, steps.drop_last(), key, until);
        match steps.last() {
            Use::Get { key: other, now } => {
                lemma_get_keeps_contents(before, other, now, key, until);
            },
            Use::Insert { key: other, value, now } => {
                lemma_insert_keeps_capacity(before, other, value, now);
                lemma_insert_spares_the_rest(before, other, value, now, key, until);
            },
        }
    }
}

/// After `insert` of a value at `inserted`, every `get` of the key at a tick
/// from `inserted` on returns that value until the time to live has passed,
/// and nothing from then on, whatever use is made of the cache in between,
/// as long as the entry is neither overwritten nor evicted.
pub proof fn lemma_ttl_visibility_through_use<V>(
    cache: CacheModel<V>,
    key: Seq<char>,
    value: V,
    inserted: nat,
    steps: Seq<Use<V>>,
    now: nat,
)
    requires
        cache.wf(),
        cache.max_entries > 0,
        inserted <= now,
        leaves_alone(cache.store(key, value, inserted), steps, key, now),
    ensures
        after_all(cache.store(key, value, inserted), steps).lookup(key, now) == if now < inserted
            + cache.time_to_live {
            Some(value)
        } else {
            None
        },
{
    lemma_insert_keeps_capacity(cache, key, value, inserted);
    lemma_ttl_visibility(cache, key, value, inserted, now);
    lemma_uses_keep_entry(cache.store(key, value, inserted), steps, key, now);
}

/// The cache after the insertions of `keys[i]` with `values[i]` at
/// `ticks[i]`, in the order of the indices.
pub open spec fn filled<V>(
    cache: CacheModel<V>,
    keys: Seq<Seq<char>>,
    values: Seq<V>,
    ticks: Seq<nat>,
) -> CacheModel<V>
    decreases keys.len(),
{
    if keys.len() == 0 {
        cache
    } else {
        filled(cache, keys.drop_last(), values.drop_last(), ticks.drop_last()).store(
            keys.last(),
            values.last(),
            ticks.last(),
        )
    }
}

/// The entries that a series of insertions writes, in the order of the
/// insertions.
pub open spec fn written<V>(keys: Seq<Seq<char>>, values: Seq<V>, ticks: Seq<nat>) -> Seq<
    EntryModel<V>,
> {
    Seq::new(
        keys.len(),
        |i: int| EntryModel { key: keys[i], value: values[i], inserted_at: ticks[i] },
    )
}

/// Insertions of distinct keys into an empty cache, none of which outlives
/// the time to live before the last is made, leave the most recent ones, as
/// many as the cache can hold.
proof fn lemma_filled_from_empty<V>(
    max_entries: nat,
    time_to_live: nat,
    keys: Seq<Seq<char>>,
    values: Seq<V>,
    ticks: Seq<nat>,
    count: int,
)
    requires
        max_entries > 0,
        values.len() == keys.len(),
        ticks.len() == keys.len(),
        0 <= count <= keys.len(),
        forall|i: int, j: int| 0 <= i < j < keys.len() ==> keys[i] != keys[j],
        forall|i: int, j: int| 0 <= i < j < keys.len() ==> ticks[i] <= ticks[j],
        keys.len() > 0 ==> ticks.last() < ticks[0] + time_to_live,
    ensures
        filled(
            CacheModel::empty(max_entries, time_to_live),
            keys.take(count),
            values.take(count),
            ticks.take(count),
        ) == (CacheModel {
            entries: most_recent(written(keys, values, ticks).take(count), max_entries),
            max_entries,
            time_to_live,
        }),
        filled(
            CacheModel::empty(max_entries, time_to_live),
            keys.take(count),
            values.take(count),
            ticks.take(count),
        ).wf(),
    decreases count,
{
    let empty = CacheModel::<V>::empty(max_entries, time_to_live);
    let all = written(keys, values, ticks);
    if count == 0 {
        assert(most_recent(all.take(0), max_entries) =~= Seq::empty());
    } else {
        let before = filled(
            empty,
            keys.take(count - 1),
            values.take(count - 1),
            ticks.take(count - 1),
        );
        lemma_filled_from_empty(max_entries, time_to_live, keys, values, ticks, count - 1);
        assert(keys.take(count).drop_last() =~= keys.take(count - 1));
        assert(values.take(count).drop_last() =~= values.take(count - 1));
        assert(ticks.take(count).drop_last() =~= ticks.take(count - 1));
        let key = keys[count - 1];
        let now = ticks[count - 1];
        let after = before.store(key, values[count - 1], now);
        // Nothing has expired and every key is new, so the insertion purges nothing.
        lemma_filter_keeps_all(before.entries, survives(key, now, time_to_live));
        assert(after.entries =~= most_recent(all.take(count), max_entries));
    }
}

/// A cache for `max_entries` entries that starts empty and takes one
/// insertion more than it can hold, all of distinct keys and none expiring
/// in between, ends with exactly `max_entries` keys retrievable: all but
/// the first one inserted, which is the least recently used.
pub proof fn lemma_capacity_bound<V>(
    max_entries: nat,
    time_to_live: nat,
    keys: Seq<Seq<char>>,
    values: Seq<V>,
    ticks: Seq<nat>,
)
    requires
        keys.len() == max_entries + 1,
        values.len() == keys.len(),
        ticks.len() == keys.len(),
        forall|i: int, j: int| 0 <= i < j < keys.len() ==> keys[i] != keys[j],
        forall|i: int, j: int| 0 <= i < j < keys.len() ==> ticks[i] <= ticks[j],
        ticks.last() < ticks[0] + time_to_live,
    ensures
        ({
            let cache = filled(CacheModel::empty(max_entries, time_to_live), keys, values, ticks);
            let now = ticks.last();
            &&& cache.wf()
            &&& cache.entries.len() == max_entries
            &&& cache.lookup(keys[0], now) is None
            &&& forall|i: int|
                1 <= i <= max_entries ==> cache.lookup(#[trigger] keys[i], now) == Some(values[i])
            &&& forall|key: Seq<char>|
                cache.lookup(key, now) is Some ==> exists|i: int|
                    1 <= i <= max_entries && #[trigger] keys[i] == key
        }),
{
    let empty = CacheModel::<V>::empty(max_entries, time_to_live);
    let cache = filled(empty, keys, values, ticks);
    let now = ticks.last();
    let all = written(keys, values, ticks);
    let count = keys.len() as int;
    assert(keys.take(count) =~= keys);
    assert(values.take(count) =~= values);
    assert(ticks.take(count) =~= ticks);
    if max_entries == 0 {
        assert(filled(empty, keys.drop_last(), values.drop_last(), ticks.drop_last()) == empty);
    } else {
        lemma_filled_from_empty(max_entries, time_to_live, keys, values, ticks, count);
        assert forall|i: int| 1 <= i <= max_entries implies cache.lookup(#[trigger] keys[i], now)
            == Some(values[i]) by {
            lemma_lookup_finds_entry(cache, i - 1, now);
        }
    }
}

/// A filter that every element passes changes nothing.
proof fn lemma_filter_keeps_all<A>(items: Seq<A>, keep: spec_fn(A) -> bool)
    requires
        forall|i: int| 0 <= i < items.len() ==> keep(#[trigger] items[i]),
    ensures
        items.filter(keep) == items,
    decreases items.len(),
{
    reveal(Seq::filter);
    if items.len() > 0 {
        let front = items.drop_last();
        lemma_filter_keeps_all(front, keep);
    }
}

} // verus!
