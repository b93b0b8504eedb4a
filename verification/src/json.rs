//! JSON-shaped values with a mathematical view.

use vstd::prelude::*;

verus! {

/// A JSON value. Numbers are kept in their decimal text form, objects as
/// their entries in iteration order.
#[derive(Debug, PartialEq, Eq)]
pub enum Json {
    Null,
    Bool(bool),
    Number(String),
    String(String),
    Array(Vec<Json>),
    Object(Vec<(String, Json)>),
}

/// The mathematical value of a [`Json`].
pub ghost enum JsonValue {
    Null,
    Bool(bool),
    Number(Seq<char>),
    String(Seq<char>),
    Array(Seq<JsonValue>),
    Object(Seq<(Seq<char>, JsonValue)>),
}

/// The value that a [`Json`] stands for.
pub open spec fn json_value(j: &Json) -> JsonValue
    decreases j,
{
    match j {
        Json::Null => JsonValue::Null,
        Json::Bool(b) => JsonValue::Bool(*b),
        Json::Number(n) => JsonValue::Number(n@),
        Json::String(s) => JsonValue::String(s@),
        Json::Array(items) => JsonValue::Array(
            Seq::new(
                items.len() as nat,
                |i: int|
                    if 0 <= i < items.len() {
                        json_value(&items[i])
                    } else {
                        JsonValue::Null
                    },
            ),
        ),
        Json::Object(entries) => JsonValue::Object(
            Seq::new(
                entries.len() as nat,
                |i: int|
                    if 0 <= i < entries.len() {
                        (entries[i].0@, json_value(&entries[i].1))
                    } else {
                        (Seq::empty(), JsonValue::Null)
                    },
            ),
        ),
    }
}

impl View for Json {
    type V = JsonValue;

    open spec fn view(&self) -> JsonValue {
        json_value(self)
    }
}

impl Clone for Json {
    fn clone(&self) -> (r: Self)
        ensures
            r@ == self@,
        decreases self,
    {
        match self {
            Json::Null => Json::Null,
            Json::Bool(b) => Json::Bool(*b),
            Json::Number(n) => Json::Number(n.clone()),
            Json::String(s) => Json::String(s.clone()),
            Json::Array(items) => {
                let mut out: Vec<Json> = Vec::new();
                let mut i: usize = 0;
                while i < items.len()
                    invariant
                        i <= items.len(),
                        out.len() == i,
                        *self == Json::Array(*items),
                        forall|j: int| 0 <= j < i ==> (#[trigger] out[j])@ == items[j]@,
                    decreases items.len() - i,
                {
                    let item = &items[i];
                    proof {
                        assert(self->Array_0 == *items);
                        assert(decreases_to!(*self => self->Array_0));
                        assert(decreases_to!(*items => items[i as int]));
                    }
                    out.push(item.clone());
                    i += 1;
                }
                let r = Json::Array(out);
                assert(r@->Array_0 =~= self@->Array_0);
                r
            },
            Json::Object(entries) => {
                let mut out: Vec<(String, Json)> = Vec::new();
                let mut i: usize = 0;
                while i < entries.len()
                    invariant
                        i <= entries.len(),
                        out.len() == i,
                        *self == Json::Object(*entries),
                        forall|j: int|
                            0 <= j < i ==> (#[trigger] out[j]).0@ == entries[j].0@ && out[j].1@
                                == entries[j].1@,
                    decreases entries.len() - i,
                {
                    let entry = &entries[i];
                    proof {
                        assert(self->Object_0 == *entries);
                        assert(decreases_to!(*self => self->Object_0));
                        assert(decreases_to!(*entries => entries[i as int]));
                        assert(decreases_to!(entries[i as int] => entries[i as int].1));
                    }
                    out.push((entry.0.clone(), entry.1.clone()));
                    i += 1;
                }
                let r = Json::Object(out);
                assert(*self == Json::Object(*entries));
                assert(self@ == Json::Object(*entries)@);
                assert(Json::Object(*entries)@->Object_0.len() == entries.len());
                assert forall|j: int| 0 <= j < entries.len() implies r@->Object_0[j]
                    == self@->Object_0[j] by {
                    assert(out[j].0@ == entries[j].0@);
                }
                assert(r@->Object_0 =~= self@->Object_0);
                r
            },
        }
    }
}

/// Why a text could not be read as JSON, or a value not written as JSON.
#[derive(Clone, Copy, Debug, PartialEq, Eq, Structural)]
pub enum JsonError {
    /// The text is not a JSON document.
    Parse,
    /// The value holds a number whose text is not a JSON number.
    Serialize,
}

#[verifier::external_type_specification]
#[verifier::external_body]
pub struct ExSerdeJsonError(serde_json::Error);

#[verifier::external_type_specification]
#[verifier::external_body]
pub struct ExSerdeJsonValue(serde_json::Value);

/// The value that `serde_json::from_str` reads from `text`, if it reads one.
pub uninterp spec fn parsed(text: Seq<char>) -> Option<JsonValue>;

/// The compact JSON text that `serde_json::to_string` writes for `value`, if
/// every number in `value` is one that `serde_json` accepts.
pub uninterp spec fn rendered(value: JsonValue) -> Option<Seq<char>>;

/// Moves a `serde_json::Value` into a [`Json`], variant by variant; a number
/// becomes the text that `serde_json` prints for it.
#[verifier::external_body]
fn json_of_value(v: serde_json::Value) -> Json {
    match v {
        serde_json::Value::Null => Json::Null,
        serde_json::Value::Bool(b) => Json::Bool(b),
        serde_json::Value::Number(n) => Json::Number(n.to_string()),
        serde_json::Value::String(s) => Json::String(s),
        serde_json::Value::Array(a) => Json::Array(a.into_iter().map(json_of_value).collect()),
        serde_json::Value::Object(o) => Json::Object(
            o.into_iter().map(|(k, v)| (k, json_of_value(v))).collect(),
        ),
    }
}

/// Copies a [`Json`] into a `serde_json::Value`, variant by variant; the text
/// of a number is read by `serde_json::Number::from_str`, whose error is
/// handed on.
#[verifier::external_body]
fn value_of_json(j: &Json) -> Result<serde_json::Value, serde_json::Error> {
    Ok(match j {
        Json::Null => serde_json::Value::Null,
        Json::Bool(b) => serde_json::Value::Bool(*b),
        Json::Number(n) => serde_json::Value::Number(n.parse()?),
        Json::String(s) => serde_json::Value::String(s.clone()),
        Json::Array(a) => serde_json::Value::Array(
            a.iter().map(value_of_json).collect::<Result<_, _>>()?,
        ),
        Json::Object(o) => serde_json::Value::Object(
            o.iter().map(|(k, v)| Ok((k.clone(), value_of_json(v)?))).collect::<Result<_, _>>()?,
        ),
    })
}

/// `serde_json::from_str` at the type `serde_json::Value`: the contract
/// gives its result the name [`parsed`] and claims no more of it.
#[verifier::external_body]
fn from_text(text: &str) -> (r: Result<Json, serde_json::Error>)
    ensures
        r matches Ok(j) ==> parsed(text@) == Some(j@),
        r is Err ==> parsed(text@) is None,
{
    serde_json::from_str::<serde_json::Value>(text).map(json_of_value)
}

/// `serde_json::to_string` on the value that `j` stands for: the contract
/// gives its result the name [`rendered`] and claims no more of it.
#[verifier::external_body]
fn to_text(j: &Json) -> (r: Result<String, serde_json::Error>)
    ensures
        r matches Ok(s) ==> rendered(j@) == Some(s@),
        r is Err ==> rendered(j@) is None,
{
    serde_json::to_string(&value_of_json(j)?)
}

impl Json {
    /// Reads a JSON document.
    pub fn parse(text: &str) -> (r: Result<Json, JsonError>)
        ensures
            match r {
                Ok(j) => parsed(text@) == Some(j@),
                Err(e) => parsed(text@) is None && e == JsonError::Parse,
            },
    {
        match from_text(text) {
            Ok(j) => Ok(j),
            Err(_) => Err(JsonError::Parse),
        }
    }

    /// Writes the value as compact JSON.
    pub fn to_text(&self) -> (r: Result<String, JsonError>)
        ensures
            match r {
                Ok(s) => rendered(self@) == Some(s@),
                Err(e) => rendered(self@) is None && e == JsonError::Serialize,
            },
    {
        match to_text(self) {
            Ok(s) => Ok(s),
            Err(_) => Err(JsonError::Serialize),
        }
    }
}

} // verus!
