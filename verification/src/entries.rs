//! Tables keyed by name, kept as lists of entries in insertion order.

use vstd::prelude::*;

use crate::names::str_eq;

verus! {

/// The position of the first entry named `key`.
pub open spec fn position<T>(entries: Seq<(String, T)>, key: Seq<char>) -> Option<int>
    decreases entries.len(),
{
    if entries.len() == 0 {
        None
    } else {
        match position(entries.drop_last(), key) {
            Some(i) => Some(i),
            None => if entries.last().0@ == key {
                Some(entries.len() - 1)
            } else {
                None
            },
        }
    }
}

/// The value of the first entry named `key`.
pub open spec fn lookup<T>(entries: Seq<(String, T)>, key: Seq<char>) -> Option<T> {
    match position(entries, key) {
        Some(i) => Some(entries[i].1),
        None => None,
    }
}

/// What `position` finds is the first entry of that name, and it finds one
/// if there is any.
pub proof fn lemma_position<T>(entries: Seq<(String, T)>, key: Seq<char>)
    ensures
        match position(entries, key) {
            Some(i) => 0 <= i < entries.len() && entries[i].0@ == key && forall|j: int|
                0 <= j < i ==> entries[j].0@ != key,
            None => forall|j: int| 0 <= j < entries.len() ==> entries[j].0@ != key,
        },
    decreases entries.len(),
{
    if entries.len() > 0 {
        let front = entries.drop_last();
        lemma_position(front, key);
        assert forall|j: int| 0 <= j < front.len() implies front[j] == entries[j] by {}
        match position(front, key) {
            Some(i) => {
                assert(front[i] == entries[i]);
            },
            None => {
                assert forall|j: int| 0 <= j < entries.len() - 1 implies entries[j].0@ != key by {
                    assert(front[j] == entries[j]);
                }
            },
        }
    }
}

/// The position of the first entry named `key`.
pub fn find_index<T>(entries: &Vec<(String, T)>, key: &str) -> (r: Option<usize>)
    ensures
        match r {
            Some(i) => position(entries@, key@) == Some(i as int) && i < entries.len(),
            None => position(entries@, key@) is None,
        },
{
    let mut i: usize = 0;
    while i < entries.len()
        invariant
            i <= entries.len(),
            forall|j: int| 0 <= j < i ==> entries[j].0@ != key@,
        decreases entries.len() - i,
    {
        if str_eq(entries[i].0.as_str(), key) {
            proof {
                lemma_position(entries@, key@);
            }
            return Some(i);
        }
        i += 1;
    }
    proof {
        lemma_position(entries@, key@);
    }
    None
}

/// The value of the first entry named `key`.
pub fn find<'a, T>(entries: &'a Vec<(String, T)>, key: &str) -> (r: Option<&'a T>)
    ensures
        match r {
            Some(v) => lookup(entries@, key@) == Some(*v),
            None => lookup(entries@, key@) is None,
        },
{
    match find_index(entries, key) {
        Some(i) => Some(&entries[i].1),
        None => None,
    }
}

/// No two entries of the table have the same name.
pub open spec fn distinct_keys<T>(entries: Seq<(String, T)>) -> bool {
    forall|i: int, j: int|
        0 <= i < j < entries.len() ==> (#[trigger] entries[i]).0@ != (#[trigger] entries[j]).0@
}

/// Setting an entry keeps the names of a table distinct.
pub proof fn lemma_upsert_distinct<T>(before: Seq<(String, T)>, key: String, value: T)
    requires
        distinct_keys(before),
    ensures
        distinct_keys(
            match position(before, key@) {
                Some(i) => before.update(i, (key, value)),
                None => before.push((key, value)),
            },
        ),
{
    lemma_position(before, key@);
}

/// Sets the value for `key`: in place where an entry of that name exists,
/// as a new last entry where none does. A table in which no name occurs
/// twice stays one.
pub fn upsert<T>(entries: &mut Vec<(String, T)>, key: String, value: T)
    ensures
        match position(old(entries)@, key@) {
            Some(i) => final(entries)@ == old(entries)@.update(i, (key, value)),
            None => final(entries)@ == old(entries)@.push((key, value)),
        },
        distinct_keys(old(entries)@) ==> distinct_keys(final(entries)@),
{
    proof {
        if distinct_keys(entries@) {
            lemma_upsert_distinct(entries@, key, value);
        }
    }
    match find_index(entries, key.as_str()) {
        Some(i) => {
            entries.set(i, (key, value));
        },
        None => {
            entries.push((key, value));
        },
    }
}

/// The position of the first entry of a table of mathematical values that
/// has the key `key`.
pub open spec fn key_index<V>(entries: Seq<(Seq<char>, V)>, key: Seq<char>) -> Option<int>
    decreases entries.len(),
{
    if entries.len() == 0 {
        None
    } else {
        match key_index(entries.drop_last(), key) {
            Some(i) => Some(i),
            None => if entries.last().0 == key {
                Some(entries.len() - 1)
            } else {
                None
            },
        }
    }
}

/// A table of mathematical values with one entry set: in place where the
/// table has the key, as a new last entry where it has not.
pub open spec fn set_entry<V>(entries: Seq<(Seq<char>, V)>, key: Seq<char>, value: V) -> Seq<
    (Seq<char>, V),
> {
    match key_index(entries, key) {
        Some(i) => entries.update(i, (key, value)),
        None => entries.push((key, value)),
    }
}

/// No two entries of a table of mathematical values have the same key.
pub open spec fn unique_keys<V>(entries: Seq<(Seq<char>, V)>) -> bool {
    forall|i: int, j: int|
        0 <= i < j < entries.len() ==> (#[trigger] entries[i]).0 != (#[trigger] entries[j]).0
}

/// Setting an entry keeps the keys of a table distinct.
pub proof fn lemma_set_entry_unique<V>(entries: Seq<(Seq<char>, V)>, key: Seq<char>, value: V)
    requires
        unique_keys(entries),
    ensures
        unique_keys(set_entry(entries, key, value)),
{
    lemma_key_index(entries, key);
}

/// Setting an entry takes no key out of a table, and the table has the key
/// that was set.
pub proof fn lemma_set_entry_keeps_keys<V>(
    entries: Seq<(Seq<char>, V)>,
    key: Seq<char>,
    value: V,
    other: Seq<char>,
)
    ensures
        key_index(set_entry(entries, key, value), key) is Some,
        key_index(entries, other) is Some ==> key_index(set_entry(entries, key, value), other)
            is Some,
{
    let after = set_entry(entries, key, value);
    lemma_key_index(entries, key);
    lemma_key_index(entries, other);
    lemma_key_index(after, key);
    lemma_key_index(after, other);
    match key_index(entries, key) {
        Some(i) => {
            assert(after[i].0 == key);
        },
        None => {
            assert(after[entries.len() as int].0 == key);
        },
    }
    if key_index(entries, other) is Some {
        let j = key_index(entries, other)->0;
        assert(after[j].0 == other);
    }
}

/// The names of a table are distinct exactly if the keys of its
/// mathematical content are.
pub proof fn lemma_distinct_viewed<T: View>(entries: Seq<(String, T)>)
    ensures
        distinct_keys(entries) == unique_keys(viewed(entries)),
{
    if distinct_keys(entries) {
        assert forall|i: int, j: int| 0 <= i < j < viewed(entries).len() implies (
        #[trigger] viewed(entries)[i]).0 != (#[trigger] viewed(entries)[j]).0 by {
            assert(entries[i].0@ != entries[j].0@);
        }
    }
    if unique_keys(viewed(entries)) {
        assert forall|i: int, j: int| 0 <= i < j < entries.len() implies (#[trigger] entries[i]).0@
            != (#[trigger] entries[j]).0@ by {
            assert(viewed(entries)[i].0 != viewed(entries)[j].0);
        }
    }
}

/// The value that a table of mathematical values has for `key`.
pub open spec fn get_entry<V>(entries: Seq<(Seq<char>, V)>, key: Seq<char>) -> Option<V> {
    match key_index(entries, key) {
        Some(i) => Some(entries[i].1),
        None => None,
    }
}

/// The keys of a table as texts, with its values as they are.
pub open spec fn keyed<T>(entries: Seq<(String, T)>) -> Seq<(Seq<char>, T)> {
    Seq::new(entries.len(), |i: int| (entries[i].0@, entries[i].1))
}

/// What `key_index` finds is the first entry of that key, and it finds one
/// if there is any.
pub proof fn lemma_key_index<V>(entries: Seq<(Seq<char>, V)>, key: Seq<char>)
    ensures
        match key_index(entries, key) {
            Some(i) => 0 <= i < entries.len() && entries[i].0 == key && forall|j: int|
                0 <= j < i ==> entries[j].0 != key,
            None => forall|j: int| 0 <= j < entries.len() ==> entries[j].0 != key,
        },
    decreases entries.len(),
{
    if entries.len() > 0 {
        let front = entries.drop_last();
        lemma_key_index(front, key);
        assert forall|j: int| 0 <= j < front.len() implies front[j] == entries[j] by {}
        match key_index(front, key) {
            Some(i) => {
                assert(front[i] == entries[i]);
            },
            None => {
                assert forall|j: int| 0 <= j < entries.len() - 1 implies entries[j].0 != key by {
                    assert(front[j] == entries[j]);
                }
            },
        }
    }
}

/// Two tables with the same keys in the same places have a key in the
/// same place.
pub proof fn lemma_same_keys<A, B>(
    left: Seq<(Seq<char>, A)>,
    right: Seq<(Seq<char>, B)>,
    key: Seq<char>,
)
    requires
        left.len() == right.len(),
        forall|i: int| 0 <= i < left.len() ==> left[i].0 == right[i].0,
    ensures
        key_index(left, key) == key_index(right, key),
    decreases left.len(),
{
    if left.len() > 0 {
        assert forall|i: int| 0 <= i < left.len() - 1 implies left.drop_last()[i].0
            == right.drop_last()[i].0 by {
            assert(left.drop_last()[i] == left[i]);
            assert(right.drop_last()[i] == right[i]);
        }
        lemma_same_keys(left.drop_last(), right.drop_last(), key);
    }
}

/// The position of a key in a table is its position among the keys as
/// texts.
pub proof fn lemma_position_keyed<T>(entries: Seq<(String, T)>, key: Seq<char>)
    ensures
        position(entries, key) == key_index(keyed(entries), key),
    decreases entries.len(),
{
    if entries.len() > 0 {
        lemma_position_keyed(entries.drop_last(), key);
        assert(keyed(entries).drop_last() =~= keyed(entries.drop_last()));
    }
}

/// The mathematical content of a table: its keys as texts with the
/// mathematical content of its values.
pub open spec fn viewed<T: View>(entries: Seq<(String, T)>) -> Seq<(Seq<char>, T::V)> {
    Seq::new(entries.len(), |i: int| (entries[i].0@, entries[i].1@))
}

/// Setting an entry of a table sets the entry of its mathematical content.
pub proof fn lemma_upsert_viewed<T: View>(
    before: Seq<(String, T)>,
    after: Seq<(String, T)>,
    key: String,
    value: T,
)
    requires
        match position(before, key@) {
            Some(i) => after == before.update(i, (key, value)),
            None => after == before.push((key, value)),
        },
    ensures
        viewed(after) == set_entry(viewed(before), key@, value@),
{
    lemma_position_keyed(before, key@);
    lemma_same_keys(keyed(before), viewed(before), key@);
    lemma_key_index(viewed(before), key@);
    match position(before, key@) {
        Some(i) => {
            assert(viewed(after) =~= viewed(before).update(i, (key@, value@)));
        },
        None => {
            assert(viewed(after) =~= viewed(before).push((key@, value@)));
        },
    }
}

/// Sets the value for `key` in a table. A table in which no name occurs
/// twice stays one.
pub fn put<T: View>(entries: &mut Vec<(String, T)>, key: String, value: T)
    ensures
        viewed(final(entries)@) == set_entry(viewed(old(entries)@), key@, value@),
        distinct_keys(old(entries)@) ==> distinct_keys(final(entries)@),
{
    let ghost before = entries@;
    upsert(entries, key, value);
    proof {
        lemma_upsert_viewed(before, entries@, key, value);
    }
}

} // verus!
