//! The result cache: values by fingerprint, each with the time at which it
//! expires, bounded in number with the least recently used entry leaving
//! first.

use vstd::prelude::*;

use crate::json::{Json, JsonValue};

verus! {

/// One cached result.
pub struct CacheEntry {
    pub key: u64,
    pub value: Json,
    pub expiry: u64,
}

/// The mathematical content of a cache entry.
pub ghost struct EntryModel {
    pub key: u64,
    pub value: JsonValue,
    pub expiry: u64,
}

/// The mathematical content of a cache: its entries from the least to the
/// most recently used, and the number of entries it may hold.
pub ghost struct StoreModel {
    pub entries: Seq<EntryModel>,
    pub capacity: nat,
}

/// The position of the first entry with the key `key`.
pub open spec fn first_with(entries: Seq<EntryModel>, key: u64) -> Option<int>
    decreases entries.len(),
{
    if entries.len() == 0 {
        None
    } else if entries.last().key == key && first_with(entries.drop_last(), key) is None {
        Some(entries.len() - 1)
    } else {
        first_with(entries.drop_last(), key)
    }
}

/// The time at which a value stored at `now` for `max_age` expires.
pub open spec fn expiry_of(now: u64, max_age: u64) -> u64 {
    if now + max_age > u64::MAX {
        u64::MAX
    } else {
        (now + max_age) as u64
    }
}

impl StoreModel {
    /// No key occurs twice, and the entries are within the capacity.
    pub open spec fn wf(self) -> bool {
        &&& self.entries.len() <= self.capacity
        &&& forall|i: int, j: int|
            0 <= i < self.entries.len() && 0 <= j < self.entries.len() && i != j
                ==> self.entries[i].key != self.entries[j].key
    }

    /// The value served for `key` at the time `now`: that of the entry
    /// with this key, unless it has expired.
    pub open spec fn lookup(self, key: u64, now: u64) -> Option<JsonValue> {
        match first_with(self.entries, key) {
            Some(i) => if now < self.entries[i].expiry {
                Some(self.entries[i].value)
            } else {
                None
            },
            None => None,
        }
    }

    /// The cache after a look at `key` at the time `now`: an entry that is
    /// served becomes the most recently used, an expired one leaves.
    pub open spec fn touched(self, key: u64, now: u64) -> StoreModel {
        match first_with(self.entries, key) {
            Some(i) => if now < self.entries[i].expiry {
                StoreModel { entries: self.entries.remove(i).push(self.entries[i]), ..self }
            } else {
                StoreModel { entries: self.entries.remove(i), ..self }
            },
            None => self,
        }
    }

    /// The cache after storing `value` for `key` at the time `now`. With a
    /// `max_age` of 0, or no capacity, nothing is stored. Otherwise the
    /// entry replaces the one of the same key, or else, where the cache is
    /// full, the least recently used one.
    pub open spec fn stored(self, key: u64, value: JsonValue, now: u64, max_age: u64) -> StoreModel {
        if max_age == 0 || self.capacity == 0 {
            self
        } else {
            let without = match first_with(self.entries, key) {
                Some(i) => self.entries.remove(i),
                None => self.entries,
            };
            let room = if without.len() >= self.capacity {
                without.skip(1)
            } else {
                without
            };
            StoreModel {
                entries: room.push(EntryModel { key, value, expiry: expiry_of(now, max_age) }),
                ..self
            }
        }
    }
}

/// `first_with` finds the first entry with the key, and finds one if there
/// is any.
pub proof fn lemma_first_with(entries: Seq<EntryModel>, key: u64)
    ensures
        match first_with(entries, key) {
            Some(i) => 0 <= i < entries.len() && entries[i].key == key && forall|j: int|
                0 <= j < i ==> entries[j].key != key,
            None => forall|j: int| 0 <= j < entries.len() ==> entries[j].key != key,
        },
    decreases entries.len(),
{
    if entries.len() > 0 {
        let front = entries.drop_last();
        lemma_first_with(front, key);
        assert forall|j: int| 0 <= j < front.len() implies front[j] == entries[j] by {}
        match first_with(front, key) {
            Some(i) => {
                assert(front[i] == entries[i]);
            },
            None => {
                assert forall|j: int| 0 <= j < entries.len() - 1 implies entries[j].key != key by {
                    assert(front[j] == entries[j]);
                }
            },
        }
    }
}

/// A look keeps a cache well formed.
pub proof fn lemma_touched_wf(s: StoreModel, key: u64, now: u64)
    requires
        s.wf(),
    ensures
        s.touched(key, now).wf(),
{
    lemma_first_with(s.entries, key);
    let t = s.touched(key, now).entries;
    match first_with(s.entries, key) {
        Some(i) => {
            let rest = s.entries.remove(i);
            assert forall|a: int| 0 <= a < rest.len() implies rest[a] == s.entries[if a < i {
                a
            } else {
                a + 1
            }] by {}
            assert forall|a: int, b: int|
                0 <= a < t.len() && 0 <= b < t.len() && a != b implies t[a].key != t[b].key by {
                if a < rest.len() {
                    assert(t[a] == rest[a]);
                }
                if b < rest.len() {
                    assert(t[b] == rest[b]);
                }
            }
        },
        None => {},
    }
}

/// Storing keeps a cache well formed.
pub proof fn lemma_stored_wf(s: StoreModel, key: u64, value: JsonValue, now: u64, max_age: u64)
    requires
        s.wf(),
    ensures
        s.stored(key, value, now, max_age).wf(),
{
    lemma_first_with(s.entries, key);
    if max_age != 0 && s.capacity != 0 {
        let without = match first_with(s.entries, key) {
            Some(i) => s.entries.remove(i),
            None => s.entries,
        };
        assert forall|a: int| 0 <= a < without.len() implies without[a].key != key && exists|b: int|
            0 <= b < s.entries.len() && s.entries[b] == without[a] && (b == a || b == a + 1) by {
            match first_with(s.entries, key) {
                Some(i) => {
                    let b = if a < i {
                        a
                    } else {
                        a + 1
                    };
                    assert(without[a] == s.entries[b]);
                },
                None => {
                    assert(without[a] == s.entries[a]);
                },
            }
        }
        assert forall|a: int, b: int|
            0 <= a < without.len() && 0 <= b < without.len() && a != b implies without[a].key
            != without[b].key by {
            match first_with(s.entries, key) {
                Some(i) => {
                    assert(without[a] == s.entries[if a < i {
                        a
                    } else {
                        a + 1
                    }]);
                    assert(without[b] == s.entries[if b < i {
                        b
                    } else {
                        b + 1
                    }]);
                },
                None => {},
            }
        }
        let room = if without.len() >= s.capacity {
            without.skip(1)
        } else {
            without
        };
        let t = s.stored(key, value, now, max_age).entries;
        assert forall|a: int, b: int|
            0 <= a < t.len() && 0 <= b < t.len() && a != b implies t[a].key != t[b].key by {
            let off: int = if without.len() >= s.capacity {
                1
            } else {
                0
            };
            if a < room.len() {
                assert(t[a] == without[a + off]);
            }
            if b < room.len() {
                assert(t[b] == without[b + off]);
            }
        }
    }
}

/// Within its `max_age`, what was stored is served as it was stored.
pub proof fn lemma_stored_is_served(
    s: StoreModel,
    key: u64,
    value: JsonValue,
    stored_at: u64,
    max_age: u64,
    now: u64,
)
    requires
        s.wf(),
        max_age > 0,
        s.capacity > 0,
        stored_at + max_age <= u64::MAX,
        stored_at <= now < stored_at + max_age,
    ensures
        s.stored(key, value, stored_at, max_age).lookup(key, now) == Some(value),
{
    lemma_first_with(s.entries, key);
    lemma_stored_wf(s, key, value, stored_at, max_age);
    let t = s.stored(key, value, stored_at, max_age).entries;
    lemma_first_with(t, key);
    assert(t[t.len() - 1].key == key);
    assert(first_with(t, key) == Some(t.len() - 1));
}

/// From its expiry on, what was stored is no longer served.
pub proof fn lemma_expired_is_not_served(
    s: StoreModel,
    key: u64,
    value: JsonValue,
    stored_at: u64,
    max_age: u64,
    now: u64,
)
    requires
        s.wf(),
        max_age > 0,
        s.capacity > 0,
        stored_at + max_age <= now,
    ensures
        s.stored(key, value, stored_at, max_age).lookup(key, now) is None,
{
    lemma_first_with(s.entries, key);
    lemma_stored_wf(s, key, value, stored_at, max_age);
    let t = s.stored(key, value, stored_at, max_age).entries;
    lemma_first_with(t, key);
    assert(t[t.len() - 1].key == key);
    assert(first_with(t, key) == Some(t.len() - 1));
}

/// What is served is the value of an entry that has not expired.
pub proof fn lemma_served_is_fresh(s: StoreModel, key: u64, now: u64)
    ensures
        match s.lookup(key, now) {
            Some(v) => exists|i: int|
                0 <= i < s.entries.len() && s.entries[i].key == key && s.entries[i].value == v
                    && now < s.entries[i].expiry,
            None => true,
        },
{
    lemma_first_with(s.entries, key);
}

/// The result cache.
pub struct CacheStore {
    entries: Vec<CacheEntry>,
    max_entries: usize,
}

/// The mathematical content of a list of entries.
pub open spec fn entries_model(entries: Seq<CacheEntry>) -> Seq<EntryModel> {
    Seq::new(
        entries.len(),
        |i: int| EntryModel { key: entries[i].key, value: entries[i].value@, expiry: entries[i].expiry },
    )
}

impl View for CacheStore {
    type V = StoreModel;

    closed spec fn view(&self) -> StoreModel {
        StoreModel { entries: entries_model(self.entries@), capacity: self.max_entries as nat }
    }
}

impl CacheStore {
    #[verifier::type_invariant]
    closed spec fn well_formed(&self) -> bool {
        self@.wf()
    }

    /// An empty cache for at most `max_entries` entries.
    pub fn new(max_entries: usize) -> (r: Self)
        ensures
            r@.entries.len() == 0,
            r@.capacity == max_entries,
            r@.wf(),
    {
        let r = CacheStore { entries: Vec::new(), max_entries };
        assert(entries_model(r.entries@) =~= Seq::<EntryModel>::empty());
        r
    }

    /// The number of entries.
    pub fn len(&self) -> (n: usize)
        ensures
            n == self@.entries.len(),
            self@.wf(),
    {
        proof {
            use_type_invariant(self);
        }
        self.entries.len()
    }

    fn find(entries: &Vec<CacheEntry>, key: u64) -> (r: Option<usize>)
        ensures
            match r {
                Some(i) => first_with(entries_model(entries@), key) == Some(i as int) && i
                    < entries.len(),
                None => first_with(entries_model(entries@), key) is None,
            },
    {
        let ghost model = entries_model(entries@);
        let mut i: usize = 0;
        while i < entries.len()
            invariant
                i <= entries.len(),
                model == entries_model(entries@),
                forall|j: int| 0 <= j < i ==> model[j].key != key,
            decreases entries.len() - i,
        {
            if entries[i].key == key {
                proof {
                    lemma_first_with(model, key);
                    assert(model[i as int].key == key);
                }
                return Some(i);
            }
            i += 1;
        }
        proof {
            lemma_first_with(model, key);
        }
        None
    }

    /// Looks `key` up at the time `now`. An entry that has not expired is
    /// served and becomes the most recently used; an expired one leaves.
    pub fn get(&mut self, key: u64, now: u64) -> (r: Option<Json>)
        ensures
            match r {
                Some(v) => old(self)@.lookup(key, now) == Some(v@),
                None => old(self)@.lookup(key, now) is None,
            },
            final(self)@ == old(self)@.touched(key, now),
            final(self)@.wf(),
    {
        proof {
            use_type_invariant(&*self);
            lemma_touched_wf(self@, key, now);
        }
        let mut taken = CacheStore { entries: Vec::new(), max_entries: 0 };
        proof {
            assert(entries_model(taken.entries@) =~= Seq::<EntryModel>::empty());
        }
        std::mem::swap(self, &mut taken);
        let CacheStore { entries: mut entries, max_entries } = taken;
        let ghost before = entries_model(entries@);
        let r = match Self::find(&entries, key) {
            Some(i) => {
                let entry = entries.remove(i);
                assert(entries_model(entries@) =~= before.remove(i as int));
                if now < entry.expiry {
                    let value = entry.value.clone();
                    entries.push(entry);
                    assert(entries_model(entries@) =~= before.remove(i as int).push(
                        before[i as int],
                    ));
                    Some(value)
                } else {
                    None
                }
            },
            None => None,
        };
        *self = CacheStore { entries, max_entries };
        r
    }

    /// Stores `value` for `key` at the time `now`, to expire `max_age`
    /// later.
    pub fn insert(&mut self, key: u64, value: Json, now: u64, max_age: u64)
        ensures
            final(self)@ == old(self)@.stored(key, value@, now, max_age),
            final(self)@.wf(),
    {
        proof {
            use_type_invariant(&*self);
            lemma_stored_wf(self@, key, value@, now, max_age);
        }
        if max_age == 0 || self.max_entries == 0 {
            return ;
        }
        let mut taken = CacheStore { entries: Vec::new(), max_entries: 0 };
        proof {
            assert(entries_model(taken.entries@) =~= Seq::<EntryModel>::empty());
        }
        std::mem::swap(self, &mut taken);
        let CacheStore { entries: mut entries, max_entries } = taken;
        let ghost before = entries_model(entries@);
        match Self::find(&entries, key) {
            Some(i) => {
                entries.remove(i);
                assert(entries_model(entries@) =~= before.remove(i as int));
            },
            None => {},
        }
        let ghost without = entries_model(entries@);
        if entries.len() >= max_entries {
            entries.remove(0);
            assert(entries_model(entries@) =~= without.skip(1));
        }
        let ghost room = entries_model(entries@);
        let expiry = if now > u64::MAX - max_age {
            u64::MAX
        } else {
            now + max_age
        };
        entries.push(CacheEntry { key, value, expiry });
        assert(entries_model(entries@) =~= room.push(
            EntryModel { key, value: value@, expiry: expiry_of(now, max_age) },
        ));
        *self = CacheStore { entries, max_entries };
    }
}

impl Clone for CacheStore {
    fn clone(&self) -> (r: Self)
        ensures
            r@ == self@,
            r@.wf(),
    {
        proof {
            use_type_invariant(self);
        }
        let mut entries: Vec<CacheEntry> = Vec::new();
        let mut i: usize = 0;
        while i < self.entries.len()
            invariant
                i <= self.entries.len(),
                entries.len() == i,
                forall|j: int|
                    0 <= j < i ==> (#[trigger] entries@[j]).key == self.entries@[j].key
                        && entries@[j].value@ == self.entries@[j].value@ && entries@[j].expiry
                        == self.entries@[j].expiry,
            decreases self.entries.len() - i,
        {
            let entry = &self.entries[i];
            entries.push(
                CacheEntry { key: entry.key, value: entry.value.clone(), expiry: entry.expiry },
            );
            i += 1;
        }
        assert(entries_model(entries@) =~= entries_model(self.entries@));
        CacheStore { entries, max_entries: self.max_entries }
    }
}

} // verus!
