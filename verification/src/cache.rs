//! A bounded, time-expiring cache that sits beside the content repository.
//!
//! The layer is cache-aside: `get` answers from memory or not at all, and the
//! caller fetches a missing value itself and hands it to `insert`. The layer
//! never calls the repository.
//!
//! Time is counted in ticks. The functions whose name ends in `_at` take the
//! tick as an argument; the others read it from the layer's own clock, whose
//! tick is a second.

use crate::clock::Clock;
use vstd::prelude::*;

verus! {

/// How many entries a cache holds at most, and for how many ticks an entry may
/// be served.
#[derive(Clone, Copy, Debug, PartialEq, Eq, Structural)]
pub struct CacheConfig {
    pub max_entries: u32,
    pub time_to_live: u64,
}

/// The capacity of a cache where none is configured.
pub const DEFAULT_MAX_ENTRIES: u32 = 1000;

/// The time to live, in ticks, where none is configured.
pub const DEFAULT_TIME_TO_LIVE: u64 = 120;

impl Default for CacheConfig {
    fn default() -> (config: CacheConfig)
        ensures
            config.max_entries == DEFAULT_MAX_ENTRIES,
            config.time_to_live == DEFAULT_TIME_TO_LIVE,
    {
        CacheConfig { max_entries: DEFAULT_MAX_ENTRIES, time_to_live: DEFAULT_TIME_TO_LIVE }
    }
}

/// The model of one entry.
pub struct EntryModel<V> {
    pub key: Seq<char>,
    pub value: V,
    /// The tick at which the entry was inserted.
    pub inserted_at: nat,
}

impl<V> EntryModel<V> {
    /// The ticks that have passed since the insertion. A tick before the
    /// insertion counts as the insertion itself.
    pub open spec fn age(self, now: nat) -> nat {
        if now >= self.inserted_at {
            (now - self.inserted_at) as nat
        } else {
            0
        }
    }

    /// An entry is expired once it is as old as the time to live.
    pub open spec fn expired(self, now: nat, time_to_live: nat) -> bool {
        self.age(now) >= time_to_live
    }
}

/// The model of a cache: its entries from the least to the most recently
/// used, and its configuration.
pub struct CacheModel<V> {
    pub entries: Seq<EntryModel<V>>,
    pub max_entries: nat,
    pub time_to_live: nat,
}

/// The last `count` elements of `entries`, or all of them where there are
/// fewer.
pub open spec fn most_recent<V>(entries: Seq<EntryModel<V>>, count: nat) -> Seq<EntryModel<V>> {
    if entries.len() > count {
        entries.skip(entries.len() - count)
    } else {
        entries
    }
}

/// The entries that an insertion of `key` at `now` leaves in place: those
/// that are not expired and belong to another key.
pub open spec fn survives<V>(key: Seq<char>, now: nat, time_to_live: nat) -> spec_fn(
    EntryModel<V>,
) -> bool {
    |entry: EntryModel<V>| !entry.expired(now, time_to_live) && entry.key != key
}

impl<V> CacheModel<V> {
    pub open spec fn empty(max_entries: nat, time_to_live: nat) -> Self {
        CacheModel { entries: Seq::empty(), max_entries, time_to_live }
    }

    /// No key occurs twice, and the cache is within its capacity.
    pub open spec fn wf(self) -> bool {
        &&& self.entries.len() <= self.max_entries
        &&& forall|i: int, j: int|
            0 <= i < j < self.entries.len() ==> self.entries[i].key != self.entries[j].key
    }

    /// Whether the entry at `index` belongs to `key`.
    pub open spec fn holds(self, key: Seq<char>, index: int) -> bool {
        0 <= index < self.entries.len() && self.entries[index].key == key
    }

    /// The place of the entry of `key`, if there is one.
    pub open spec fn slot(self, key: Seq<char>) -> Option<int> {
        if exists|index: int| self.holds(key, index) {
            Some(choose|index: int| self.holds(key, index))
        } else {
            None
        }
    }

    /// In a well-formed cache a key has one place at most.
    pub proof fn lemma_slot_is_unique(self, key: Seq<char>, index: int)
        requires
            self.wf(),
            self.holds(key, index),
        ensures
            self.slot(key) == Some(index),
    {
    }

    /// The place of the entry of `key`, if there is one that has not expired
    /// at `now`.
    pub open spec fn live_slot(self, key: Seq<char>, now: nat) -> Option<int> {
        match self.slot(key) {
            Some(index) => if self.entries[index].expired(now, self.time_to_live) {
                None
            } else {
                Some(index)
            },
            None => None,
        }
    }

    /// What `get` returns for `key` at `now`.
    pub open spec fn lookup(self, key: Seq<char>, now: nat) -> Option<V> {
        match self.live_slot(key, now) {
            Some(index) => Some(self.entries[index].value),
            None => None,
        }
    }

    /// The cache after `get` for `key` at `now`: an entry that is served
    /// becomes the most recently used one; nothing else changes.
    pub open spec fn touch(self, key: Seq<char>, now: nat) -> Self {
        match self.live_slot(key, now) {
            Some(index) => CacheModel {
                entries: self.entries.remove(index).push(self.entries[index]),
                ..self
            },
            None => self,
        }
    }

    /// Whether a `get` for `key` at `now` returns `value` and leaves the cache
    /// as `after`.
    pub open spec fn gets(self, key: Seq<char>, now: nat, value: Option<V>, after: Self) -> bool {
        value == self.lookup(key, now) && after == self.touch(key, now)
    }

    /// Whether an `insert` of `value` for `key` at `now` leaves the cache as
    /// `after`.
    pub open spec fn inserts(self, key: Seq<char>, value: V, now: nat, after: Self) -> bool {
        after == self.store(key, value, now)
    }

    /// The cache after `insert` of `value` for `key` at `now`. Expired entries
    /// and an earlier entry of `key` leave. If the cache is then still full,
    /// the least recently used entries leave until there is room for one. The
    /// new entry becomes the most recently used one. A cache without capacity
    /// stores nothing.
    pub open spec fn store(self, key: Seq<char>, value: V, now: nat) -> Self {
        if self.max_entries == 0 {
            CacheModel { entries: Seq::empty(), ..self }
        } else {
            let kept = self.entries.filter(survives(key, now, self.time_to_live));
            let room = most_recent(kept, (self.max_entries - 1) as nat);
            CacheModel {
                entries: room.push(EntryModel { key, value, inserted_at: now }),
                ..self
            }
        }
    }
}

/// One cached value with its key and the tick of its insertion.
struct CacheEntry<V> {
    key: String,
    value: V,
    inserted_at: u64,
}

impl<V> View for CacheEntry<V> {
    type V = EntryModel<V>;

    closed spec fn view(&self) -> EntryModel<V> {
        EntryModel { key: self.key@, value: self.value, inserted_at: self.inserted_at as nat }
    }
}

impl<V> CacheEntry<V> {
    fn is_expired(&self, now: u64, time_to_live: u64) -> (expired: bool)
        ensures
            expired == self@.expired(now as nat, time_to_live as nat),
    {
        if now >= self.inserted_at {
            now - self.inserted_at >= time_to_live
        } else {
            time_to_live == 0
        }
    }
}

/// The cache-aside layer for values of type `V`, keyed by text.
pub struct CacheAsideLayer<V> {
    config: CacheConfig,
    /// From the least to the most recently used.
    entries: Vec<CacheEntry<V>>,
    /// Started with the cache; `get` and `insert` read their tick from it.
    clock: Clock,
}

/// What a borrowed result holds.
pub open spec fn owned<V>(value: Option<&V>) -> Option<V> {
    match value {
        Some(v) => Some(*v),
        None => None,
    }
}

/// What the repository answered to a lookup.
#[derive(Debug, PartialEq, Eq)]
pub enum Fetched<V> {
    Found(V),
    Absent,
    Failed,
}

/// What the serving layer answers to a request for one entity.
#[derive(Debug, PartialEq, Eq)]
pub enum Reply<V> {
    Page(V),
    NotFound,
    Unavailable,
}

spec fn entry_models<V>(entries: Seq<CacheEntry<V>>) -> Seq<EntryModel<V>> {
    Seq::new(entries.len(), |i: int| entries[i]@)
}

impl<V> View for CacheAsideLayer<V> {
    type V = CacheModel<V>;

    closed spec fn view(&self) -> CacheModel<V> {
        CacheModel {
            entries: entry_models(self.entries@),
            max_entries: self.config.max_entries as nat,
            time_to_live: self.config.time_to_live as nat,
        }
    }
}

impl<V> CacheAsideLayer<V> {
    #[verifier::type_invariant]
    spec fn inv(self) -> bool {
        self@.wf()
    }

    /// The latest tick that `get`, `insert` or `populate` read from the
    /// layer's clock. The ticks that they read never go back.
    pub closed spec fn latest_tick(&self) -> nat {
        self.clock.latest()
    }

    /// Reads the tick from the layer's clock.
    fn tick(&mut self) -> (now: u64)
        ensures
            now >= old(self).latest_tick(),
            final(self).latest_tick() == now,
            final(self)@ == old(self)@,
    {
        proof {
            use_type_invariant(&*self);
        }
        let mut clock = self.clock;
        let now = clock.now();
        self.clock = clock;
        now
    }

    /// An empty cache with the given configuration.
    pub fn new(config: CacheConfig) -> (cache: Self)
        ensures
            cache@ == CacheModel::<V>::empty(
                config.max_entries as nat,
                config.time_to_live as nat,
            ),
            cache@.wf(),
            cache.latest_tick() == 0,
    {
        let cache = CacheAsideLayer {
            config,
            entries: Vec::new(),
            clock: Clock::start(),
        };
        assert(cache@.entries =~= Seq::empty());
        cache
    }

    /// The configuration that the cache was made with.
    pub fn config(&self) -> (config: CacheConfig)
        ensures
            config.max_entries == self@.max_entries,
            config.time_to_live == self@.time_to_live,
            self@.wf(),
    {
        proof {
            use_type_invariant(self);
        }
        self.config
    }

    /// The number of entries held, expired ones that have not been purged yet
    /// included.
    pub fn len(&self) -> (len: usize)
        ensures
            len == self@.entries.len(),
            self@.wf(),
    {
        proof {
            use_type_invariant(self);
        }
        self.entries.len()
    }

    fn position(&self, key: &str) -> (place: Option<usize>)
        ensures
            match place {
                Some(index) => self@.slot(key@) == Some(index as int) && index
                    < self.entries@.len(),
                None => self@.slot(key@) is None,
            },
    {
        proof {
            use_type_invariant(self);
        }
        let mut index: usize = 0;
        while index < self.entries.len()
            invariant
                self@.wf(),
                index <= self.entries@.len(),
                forall|i: int| 0 <= i < index ==> !self@.holds(key@, i),
            decreases self.entries@.len() - index,
        {
            if same_text(self.entries[index].key.as_str(), key) {
                proof {
                    self@.lemma_slot_is_unique(key@, index as int);
                }
                return Some(index);
            }
            index += 1;
        }
        None
    }

    /// Looks `key` up at the present tick of the cache's clock, as `get_at`
    /// does for a given tick.
    pub fn get(&mut self, key: &str) -> (value: Option<&V>)
        ensures
            old(self)@.gets(key@, final(self).latest_tick(), owned(value), final(self)@),
            final(self).latest_tick() >= old(self).latest_tick(),
            final(self)@.wf(),
    {
        let now = self.tick();
        self.get_at(key, now)
    }

    /// Stores `value` for `key`, stamped with the present tick of the cache's
    /// clock, as `insert_at` does for a given tick.
    pub fn insert(&mut self, key: String, value: V)
        ensures
            old(self)@.inserts(key@, value, final(self).latest_tick(), final(self)@),
            final(self).latest_tick() >= old(self).latest_tick(),
            final(self)@.wf(),
    {
        let now = self.tick();
        self.insert_at(key, value, now)
    }

    /// Looks `key` up at tick `now`. A live entry is returned and becomes the
    /// most recently used one; an absent or expired one gives `None` and
    /// changes nothing.
    pub fn get_at(&mut self, key: &str, now: u64) -> (value: Option<&V>)
        ensures
            old(self)@.gets(key@, now as nat, owned(value), final(self)@),
            final(self).latest_tick() == old(self).latest_tick(),
            final(self)@.wf(),
    {
        proof {
            use_type_invariant(&*self);
        }
        match self.position(key) {
            Some(index) => {
                if self.entries[index].is_expired(now, self.config.time_to_live) {
                    None
                } else {
                    let mut entries: Vec<CacheEntry<V>> = Vec::new();
                    core::mem::swap(&mut self.entries, &mut entries);
                    let ghost before = entries@;
                    let entry = entries.remove(index);
                    entries.push(entry);
                    assert(entry_models(entries@) =~= entry_models(before).remove(
                        index as int,
                    ).push(entry_models(before)[index as int]));
                    self.entries = entries;
                    let last = self.entries.len() - 1;
                    Some(&self.entries[last].value)
                }
            },
            None => None,
        }
    }

    /// Stores `value` for `key` with `now` as the tick of its insertion. Entries
    /// that have expired are dropped first, and so is an earlier entry of
    /// `key`; if the cache is still full, the least recently used entry makes
    /// room.
    pub fn insert_at(&mut self, key: String, value: V, now: u64)
        ensures
            old(self)@.inserts(key@, value, now as nat, final(self)@),
            final(self).latest_tick() == old(self).latest_tick(),
            final(self)@.wf(),
    {
        proof {
            use_type_invariant(&*self);
        }
        let ghost model = self@;
        let capacity = self.config.max_entries as usize;
        if capacity == 0 {
            assert(self@.entries =~= Seq::empty());
            return ;
        }
        let mut entries: Vec<CacheEntry<V>> = Vec::new();
        core::mem::swap(&mut self.entries, &mut entries);
        purge(&mut entries, key.as_str(), now, self.config.time_to_live);
        let ghost kept = entry_models(entries@);
        proof {
            lemma_filter_keeps_keys_apart(
                model.entries,
                survives(key@, now as nat, model.time_to_live),
            );
        }
        if entries.len() >= capacity {
            entries.remove(0);
        }
        let ghost room = entry_models(entries@);
        assert(room == most_recent(kept, (model.max_entries - 1) as nat));
        entries.push(CacheEntry { key, value, inserted_at: now });
        assert(entry_models(entries@) =~= room.push(
            EntryModel { key: key@, value, inserted_at: now as nat },
        ));
        self.entries = entries;
    }
}

impl<V: Clone> CacheAsideLayer<V> {
    /// Completes a miss at tick `now` with what the repository answered. An
    /// entity that was found is served, and a copy of it is stored for `key`;
    /// nothing is stored for an entity that is absent or could not be fetched.
    pub fn populate_at(&mut self, key: String, fetched: Fetched<V>, now: u64) -> (reply: Reply<V>)
        ensures
            match fetched {
                Fetched::Found(entity) => reply == Reply::Page(entity) && exists|copy: V|
                    cloned(entity, copy) && #[trigger] old(self)@.inserts(
                        key@,
                        copy,
                        now as nat,
                        final(self)@,
                    ),
                Fetched::Absent => reply == Reply::<V>::NotFound && final(self)@ == old(self)@,
                Fetched::Failed => reply == Reply::<V>::Unavailable && final(self)@ == old(self)@,
            },
            final(self).latest_tick() == old(self).latest_tick(),
            final(self)@.wf(),
    {
        proof {
            use_type_invariant(&*self);
        }
        match fetched {
            Fetched::Found(entity) => {
                let copy = entity.clone();
                self.insert_at(key, copy, now);
                Reply::Page(entity)
            },
            Fetched::Absent => Reply::NotFound,
            Fetched::Failed => Reply::Unavailable,
        }
    }

    /// Completes a miss at the present tick of the cache's clock, as
    /// `populate_at` does for a given tick.
    pub fn populate(&mut self, key: String, fetched: Fetched<V>) -> (reply: Reply<V>)
        ensures
            match fetched {
                Fetched::Found(entity) => reply == Reply::Page(entity) && exists|copy: V|
                    cloned(entity, copy) && #[trigger] old(self)@.inserts(
                        key@,
                        copy,
                        final(self).latest_tick(),
                        final(self)@,
                    ),
                Fetched::Absent => reply == Reply::<V>::NotFound && final(self)@ == old(self)@,
                Fetched::Failed => reply == Reply::<V>::Unavailable && final(self)@ == old(self)@,
            },
            final(self).latest_tick() >= old(self).latest_tick(),
            final(self)@.wf(),
    {
        let now = self.tick();
        self.populate_at(key, fetched, now)
    }
}

/// Entries that pass a filter come from the sequence and keep their order,
/// so keys that were distinct before are distinct after.
pub proof fn lemma_filter_keeps_keys_apart<V>(
    entries: Seq<EntryModel<V>>,
    keep: spec_fn(EntryModel<V>) -> bool,
)
    requires
        forall|i: int, j: int| 0 <= i < j < entries.len() ==> entries[i].key != entries[j].key,
    ensures
        forall|i: int, j: int|
            0 <= i < j < entries.filter(keep).len() ==> entries.filter(keep)[i].key
                != entries.filter(keep)[j].key,
        forall|i: int|
            0 <= i < entries.filter(keep).len() ==> entries.contains(
                #[trigger] entries.filter(keep)[i],
            ),
    decreases entries.len(),
{
    reveal(Seq::filter);
    if entries.len() > 0 {
        let front = entries.drop_last();
        lemma_filter_keeps_keys_apart(front, keep);
        let kept = entries.filter(keep);
        assert forall|i: int, j: int| 0 <= i < j < kept.len() implies kept[i].key
            != kept[j].key by {
            if j == front.filter(keep).len() {
                // `kept[j]` is the last entry, and `kept[i]` stood before it.
                assert(front.contains(front.filter(keep)[i]));
            }
        }
    }
}

/// Removes the entries that are expired at `now` and the entry of `key`,
/// keeping the order of the others.
fn purge<V>(entries: &mut Vec<CacheEntry<V>>, key: &str, now: u64, time_to_live: u64)
    ensures
        entry_models(final(entries)@) == entry_models(old(entries)@).filter(
            survives(key@, now as nat, time_to_live as nat),
        ),
{
    let ghost initial = entry_models(entries@);
    let ghost keep = survives::<V>(key@, now as nat, time_to_live as nat);
    let ghost mut seen: int = 0;
    let mut index: usize = 0;
    while index < entries.len()
        invariant
            keep == survives::<V>(key@, now as nat, time_to_live as nat),
            0 <= seen <= initial.len(),
            index <= entries@.len(),
            entries@.len() - index == initial.len() - seen,
            entry_models(entries@).take(index as int) == initial.take(seen).filter(keep),
            entry_models(entries@).skip(index as int) == initial.skip(seen),
        decreases entries@.len() - index,
    {
        let leaves = entries[index].is_expired(now, time_to_live) || same_text(
            entries[index].key.as_str(),
            key,
        );
        proof {
            assert(initial[seen] == initial.skip(seen)[0]);
            assert(initial.take(seen + 1) =~= initial.take(seen).push(initial[seen]));
            initial.take(seen).lemma_filter_push(initial[seen], keep);
        }
        if leaves {
            entries.remove(index);
        } else {
            index += 1;
        }
        proof {
            assert(initial.skip(seen + 1) =~= initial.skip(seen).skip(1));
            seen = seen + 1;
        }
    }
    assert(initial.take(seen) =~= initial);
}

/// Whether two texts are equal, by std's `==` on `str`.
#[verifier::external_body]
fn same_text(a: &str, b: &str) -> (same: bool)
    ensures
        same == (a@ == b@),
{
    a == b
}

} // verus!
