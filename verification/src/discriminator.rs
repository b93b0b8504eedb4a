//! The rule that picks a concrete object type for a union or interface.

use vstd::prelude::*;

use crate::context::{get_entry, object_get};
use crate::json::{Json, JsonValue};
use crate::names::str_eq;

verus! {

/// Chooses, for a value of a union or interface type, the name of the
/// concrete object type that it belongs to.
#[derive(Clone, Debug, PartialEq, Eq)]
pub struct Discriminator {
    /// Name of the union or interface.
    pub name: String,
    /// Names of the possible concrete types.
    pub types: Vec<String>,
    /// Field of the value that carries the concrete type's name, if any.
    pub typename_field: Option<String>,
}

/// Whether `name` is among `names`.
pub open spec fn has_name(names: Seq<String>, name: Seq<char>) -> bool {
    exists|i: int| 0 <= i < names.len() && #[trigger] names[i]@ == name
}

/// The position of the first entry of an object that has the key `key`.
pub open spec fn key_position(entries: Seq<(Seq<char>, JsonValue)>, key: Seq<char>) -> Option<int>
    decreases entries.len(),
{
    if entries.len() == 0 {
        None
    } else if entries.last().0 == key && key_position(entries.drop_last(), key) is None {
        Some(entries.len() - 1)
    } else {
        key_position(entries.drop_last(), key)
    }
}

/// The entries of an object with its `__typename` set to `name`: in place
/// where there is such an entry, as a new last entry where there is none.
pub open spec fn with_typename(entries: Seq<(Seq<char>, JsonValue)>, name: Seq<char>) -> Seq<
    (Seq<char>, JsonValue),
> {
    match key_position(entries, "__typename"@) {
        Some(i) => entries.update(i, ("__typename"@, JsonValue::String(name))),
        None => entries.push(("__typename"@, JsonValue::String(name))),
    }
}

proof fn lemma_key_position(entries: Seq<(Seq<char>, JsonValue)>, key: Seq<char>)
    ensures
        match key_position(entries, key) {
            Some(i) => 0 <= i < entries.len() && entries[i].0 == key && forall|j: int|
                0 <= j < i ==> entries[j].0 != key,
            None => forall|j: int| 0 <= j < entries.len() ==> entries[j].0 != key,
        },
    decreases entries.len(),
{
    if entries.len() > 0 {
        let front = entries.drop_last();
        lemma_key_position(front, key);
        assert forall|j: int| 0 <= j < front.len() implies front[j] == entries[j] by {}
        match key_position(front, key) {
            Some(i) => {
                assert(front[i] == entries[i]);
            },
            None => {
                assert forall|j: int| 0 <= j < entries.len() - 1 implies entries[j].0 != key by {
                    assert(front[j] == entries[j]);
                }
            },
        }
    }
}

/// Whether `name` is among `names`.
fn contains_name(names: &Vec<String>, name: &str) -> (r: bool)
    ensures
        r == has_name(names@, name@),
{
    let mut i: usize = 0;
    while i < names.len()
        invariant
            i <= names.len(),
            forall|j: int| 0 <= j < i ==> names[j]@ != name@,
        decreases names.len() - i,
    {
        if str_eq(names[i].as_str(), name) {
            return true;
        }
        i += 1;
    }
    false
}

/// Sets `__typename` to `name` in the entries of an object.
fn set_typename(entries: Vec<(String, Json)>, name: String) -> (r: Vec<(String, Json)>)
    ensures
        Json::Object(r)@->Object_0 == with_typename(Json::Object(entries)@->Object_0, name@),
{
    let ghost before = Json::Object(entries)@->Object_0;
    let mut list = entries;
    let mut i: usize = 0;
    while i < list.len()
        invariant
            i <= list.len(),
            before == Json::Object(entries)@->Object_0,
            before == Json::Object(list)@->Object_0,
            forall|j: int| 0 <= j < i ==> before[j].0 != "__typename"@,
        decreases list.len() - i,
    {
        if str_eq(list[i].0.as_str(), "__typename") {
            proof {
                lemma_key_position(before, "__typename"@);
                assert(before[i as int].0 == "__typename"@);
            }
            let ghost old_entries = list@;
            list.set(i, (String::from_str("__typename"), Json::String(name)));
            assert forall|j: int| 0 <= j < list.len() implies Json::Object(
                list,
            )@->Object_0[j] == before.update(
                i as int,
                ("__typename"@, JsonValue::String(name@)),
            )[j] by {
                if j != i {
                    assert(list@[j] == old_entries[j]);
                    assert(before[j] == (old_entries[j].0@, old_entries[j].1@));
                } else {
                    assert(list@[j].1@ == JsonValue::String(name@));
                }
            }
            assert(Json::Object(list)@->Object_0 =~= before.update(
                i as int,
                ("__typename"@, JsonValue::String(name@)),
            ));
            return list;
        }
        i += 1;
    }
    proof {
        lemma_key_position(before, "__typename"@);
    }
    let ghost old_entries = list@;
    list.push((String::from_str("__typename"), Json::String(name)));
    assert forall|j: int| 0 <= j < list.len() implies Json::Object(list)@->Object_0[j]
        == before.push(("__typename"@, JsonValue::String(name@)))[j] by {
        if j < old_entries.len() {
            assert(list@[j] == old_entries[j]);
            assert(before[j] == (old_entries[j].0@, old_entries[j].1@));
        } else {
            assert(list@[j].1@ == JsonValue::String(name@));
        }
    }
    assert(Json::Object(list)@->Object_0 =~= before.push(
        ("__typename"@, JsonValue::String(name@)),
    ));
    list
}

impl Discriminator {
    /// The field that carries the name of the concrete type.
    pub open spec fn field(&self) -> Seq<char> {
        match self.typename_field {
            Some(f) => f@,
            None => "__typename"@,
        }
    }

    /// `v` tagged with the name of its concrete type. An object is tagged
    /// with the string that it has in the discriminating field, which must
    /// name one of the possible types; a list is tagged item by item; null
    /// stays null. Anything else cannot be tagged.
    pub open spec fn spec_tag(&self, v: JsonValue) -> Option<JsonValue>
        decreases v,
    {
        match v {
            JsonValue::Null => Some(JsonValue::Null),
            JsonValue::Array(items) => if forall|i: int|
                0 <= i < items.len() ==> self.spec_tag(#[trigger] items[i]) is Some {
                Some(
                    JsonValue::Array(
                        Seq::new(
                            items.len(),
                            |i: int|
                                if 0 <= i < items.len() {
                                    self.spec_tag(items[i])->0
                                } else {
                                    JsonValue::Null
                                },
                        ),
                    ),
                )
            } else {
                None
            },
            JsonValue::Object(entries) => match object_get(entries, self.field()) {
                Some(JsonValue::String(name)) => if has_name(self.types@, name) {
                    Some(JsonValue::Object(with_typename(entries, name)))
                } else {
                    None
                },
                _ => None,
            },
            _ => None,
        }
    }

    /// Tags `v` with the name of its concrete type.
    pub fn tag(&self, v: Json) -> (r: Option<Json>)
        ensures
            match r {
                Some(t) => self.spec_tag(v@) == Some(t@),
                None => self.spec_tag(v@) is None,
            },
        decreases v,
    {
        match v {
            Json::Null => Some(Json::Null),
            Json::Array(items) => {
                let ghost before = items;
                let mut out: Vec<Json> = Vec::new();
                for item in it: items
                    invariant
                        it.seq() == before@,
                        v == Json::Array(before),
                        out.len() == it.index(),
                        forall|j: int|
                            0 <= j < out.len() ==> self.spec_tag(before[j]@) == Some(
                                (#[trigger] out[j])@,
                            ),
                {
                    proof {
                        let i = out.len() as int;
                        assert(item == before@[i]);
                        assert(v->Array_0 == before);
                        assert(decreases_to!(v => v->Array_0));
                        assert(decreases_to!(before => before[i]));
                    }
                    let ghost i = out.len() as int;
                    match self.tag(item) {
                        Some(tagged) => {
                            out.push(tagged);
                        },
                        None => {
                            assert(self.spec_tag(v@->Array_0[i]) is None);
                            return None;
                        },
                    }
                }
                let r = Json::Array(out);
                proof {
                    assert forall|i: int| 0 <= i < v@->Array_0.len() implies self.spec_tag(
                        #[trigger] v@->Array_0[i],
                    ) is Some by {
                        assert(self.spec_tag(before[i]@) == Some(out[i]@));
                    }
                    assert(r@->Array_0 =~= self.spec_tag(v@)->0->Array_0);
                }
                Some(r)
            },
            Json::Object(entries) => {
                let field = match &self.typename_field {
                    Some(f) => f.as_str(),
                    None => "__typename",
                };
                let name = match get_entry(&entries, field) {
                    Some(Json::String(name)) => {
                        if contains_name(&self.types, name.as_str()) {
                            Some(name.clone())
                        } else {
                            None
                        }
                    },
                    _ => None,
                };
                match name {
                    Some(name) => Some(Json::Object(set_typename(entries, name))),
                    None => None,
                }
            },
            _ => None,
        }
    }
}

} // verus!
