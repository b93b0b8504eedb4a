//! The evaluation context of one field, and selection by path.

use vstd::prelude::*;

use crate::entries::{find, lookup};
use crate::json::{Json, JsonValue};
use crate::names::str_eq;
use crate::text::chars_of;

verus! {

/// The value of the first entry of an object that has the key `key`.
pub open spec fn object_get(entries: Seq<(Seq<char>, JsonValue)>, key: Seq<char>) -> Option<
    JsonValue,
>
    decreases entries.len(),
{
    if entries.len() == 0 {
        None
    } else if entries[0].0 == key {
        Some(entries[0].1)
    } else {
        object_get(entries.skip(1), key)
    }
}

/// The number that a text of decimal digits stands for; none for the empty
/// text and for a text with any other character.
pub open spec fn index_of_text(text: Seq<char>) -> Option<nat>
    decreases text.len(),
{
    if text.len() == 0 {
        None
    } else if !('0' <= text.last() <= '9') {
        None
    } else if text.len() == 1 {
        Some((text.last() as u8 - 48) as nat)
    } else {
        match index_of_text(text.drop_last()) {
            Some(n) => Some(n * 10 + (text.last() as u8 - 48) as nat),
            None => None,
        }
    }
}

/// The value found in `v` by following `path`: a key selects an entry of an
/// object, a decimal index an item of an array, and anything else, or a key
/// or index that is not there, selects nothing.
pub open spec fn select(v: JsonValue, path: Seq<Seq<char>>) -> Option<JsonValue>
    decreases path.len(),
{
    if path.len() == 0 {
        Some(v)
    } else {
        match v {
            JsonValue::Object(entries) => match object_get(entries, path[0]) {
                Some(inner) => select(inner, path.skip(1)),
                None => None,
            },
            JsonValue::Array(items) => match index_of_text(path[0]) {
                Some(i) => if i < items.len() {
                    select(items[i as int], path.skip(1))
                } else {
                    None
                },
                None => None,
            },
            _ => None,
        }
    }
}

/// The texts of a path.
pub open spec fn path_texts(path: Seq<String>) -> Seq<Seq<char>> {
    path.map_values(|s: String| s@)
}

/// Reads a text of decimal digits as a number. A number too large for 64
/// bits is reported as such.
pub fn parse_number(text: &str) -> (r: Option<u64>)
    ensures
        match r {
            Some(i) => index_of_text(text@) == Some(i as nat),
            None => match index_of_text(text@) {
                Some(n) => n > u64::MAX,
                None => true,
            },
        },
{
    let chars = chars_of(text);
    if chars.len() == 0 {
        return None;
    }
    let mut acc: u64 = 0;
    let mut overflow = false;
    let mut i: usize = 0;
    while i < chars.len()
        invariant
            i <= chars.len(),
            chars.len() > 0,
            chars@ == text@,
            i == 0 ==> !overflow,
            i > 0 ==> match index_of_text(chars@.take(i as int)) {
                Some(n) => if overflow {
                    n > u64::MAX
                } else {
                    n == acc
                },
                None => false,
            },
        decreases chars.len() - i,
    {
        let c = chars[i];
        proof {
            let next = chars@.take(i + 1);
            assert(next.last() == c);
            assert(next.drop_last() =~= chars@.take(i as int));
        }
        if !('0' <= c && c <= '9') {
            proof {
                lemma_not_digits(chars@, i as int);
            }
            return None;
        }
        let d = (c as u8 - 48) as u64;
        proof {
            let next = chars@.take(i + 1);
            if i > 0 {
                assert(next.len() > 1);
                assert(index_of_text(next) == match index_of_text(next.drop_last()) {
                    Some(n) => Some(n * 10 + (next.last() as u8 - 48) as nat),
                    None => None,
                });
            } else {
                assert(next.len() == 1);
            }
        }
        if i == 0 {
            acc = d;
        } else if overflow {
        } else if acc > (u64::MAX - d) / 10 {
            overflow = true;
        } else {
            acc = acc * 10 + d;
        }
        i += 1;
    }
    assert(chars@.take(chars.len() as int) =~= chars@);
    if overflow {
        None
    } else {
        Some(acc)
    }
}

/// Reads a text of decimal digits as an index. A number too large for the
/// machine is reported as such: it is beyond the end of any array.
pub fn parse_index(text: &str) -> (r: Option<usize>)
    ensures
        match r {
            Some(i) => index_of_text(text@) == Some(i as nat),
            None => match index_of_text(text@) {
                Some(n) => n > usize::MAX,
                None => true,
            },
        },
{
    match parse_number(text) {
        Some(n) => if n <= usize::MAX as u64 {
            Some(n as usize)
        } else {
            None
        },
        None => None,
    }
}

proof fn lemma_not_digits(text: Seq<char>, at: int)
    requires
        0 <= at < text.len(),
        !('0' <= text[at] <= '9'),
    ensures
        index_of_text(text) is None,
    decreases text.len(),
{
    if at < text.len() - 1 {
        lemma_not_digits(text.drop_last(), at);
    }
}

/// The value of the first entry of `entries` that has the key `key`.
pub fn get_entry<'a>(entries: &'a Vec<(String, Json)>, key: &str) -> (r: Option<&'a Json>)
    ensures
        match r {
            Some(v) => object_get(Json::Object(*entries)@->Object_0, key@) == Some(v@),
            None => object_get(Json::Object(*entries)@->Object_0, key@) is None,
        },
{
    let ghost all = Json::Object(*entries)@->Object_0;
    let mut i: usize = 0;
    assert(all.skip(0) =~= all);
    while i < entries.len()
        invariant
            i <= entries.len(),
            all == Json::Object(*entries)@->Object_0,
            object_get(all, key@) == object_get(all.skip(i as int), key@),
        decreases entries.len() - i,
    {
        assert(all.skip(i as int)[0] == all[i as int]);
        assert(all.skip(i as int).skip(1) =~= all.skip(i + 1));
        if str_eq(entries[i].0.as_str(), key) {
            return Some(&entries[i].1);
        }
        i += 1;
    }
    assert(all.skip(entries.len() as int).len() == 0);
    None
}

impl Json {
    /// Follows `path`, from its item `from` on, into the value.
    pub fn select_from<'a>(&'a self, path: &Vec<String>, from: usize) -> (r: Option<&'a Json>)
        requires
            from <= path.len(),
        ensures
            match r {
                Some(v) => select(self@, path_texts(path@).skip(from as int)) == Some(v@),
                None => select(self@, path_texts(path@).skip(from as int)) is None,
            },
        decreases path.len() - from,
    {
        let ghost rest = path_texts(path@).skip(from as int);
        if from == path.len() {
            return Some(self);
        }
        assert(rest[0] == path@[from as int]@);
        assert(rest.skip(1) =~= path_texts(path@).skip(from + 1));
        match self {
            Json::Object(entries) => match get_entry(entries, path[from].as_str()) {
                Some(inner) => inner.select_from(path, from + 1),
                None => None,
            },
            Json::Array(items) => match parse_index(path[from].as_str()) {
                Some(i) => if i < items.len() {
                    (&items[i]).select_from(path, from + 1)
                } else {
                    None
                },
                None => None,
            },
            _ => None,
        }
    }

    /// Follows `path` into the value.
    pub fn get_path<'a>(&'a self, path: &Vec<String>) -> (r: Option<&'a Json>)
        ensures
            match r {
                Some(v) => select(self@, path_texts(path@)) == Some(v@),
                None => select(self@, path_texts(path@)) is None,
            },
    {
        assert(path_texts(path@).skip(0) =~= path_texts(path@));
        self.select_from(path, 0)
    }
}

/// What one field is resolved against: its arguments, the value of its
/// parent, and the variables, environment and headers of the request.
#[derive(Clone, Copy, Debug)]
pub struct EvalContext<'a> {
    pub args: &'a Json,
    /// The parent value; inside a pipe, the result of its left side.
    pub value: Option<&'a Json>,
    pub vars: &'a Vec<(String, String)>,
    pub env: &'a Vec<(String, String)>,
    pub headers: &'a Vec<(String, String)>,
}

/// The text that a table of texts has for a path of one key.
pub open spec fn text_entry(entries: Seq<(String, String)>, path: Seq<Seq<char>>) -> Option<
    JsonValue,
> {
    if path.len() == 1 {
        match lookup(entries, path[0]) {
            Some(text) => Some(JsonValue::String(text@)),
            None => None,
        }
    } else {
        None
    }
}

/// The mathematical content of an [`EvalContext`].
pub ghost struct ContextModel {
    pub args: JsonValue,
    pub value: Option<JsonValue>,
    pub vars: Seq<(String, String)>,
    pub env: Seq<(String, String)>,
    pub headers: Seq<(String, String)>,
}

impl ContextModel {
    /// The value at `path`. The first item of the path names the root:
    /// `args`, `value`, `vars`, `env` or `headers`, tried in this order; the
    /// rest is followed into that root. Anything that is not there is
    /// absent.
    pub open spec fn path_value(&self, path: Seq<Seq<char>>) -> Option<JsonValue> {
        if path.len() == 0 {
            None
        } else if path[0] == "args"@ {
            select(self.args, path.skip(1))
        } else if path[0] == "value"@ {
            match self.value {
                Some(v) => select(v, path.skip(1)),
                None => None,
            }
        } else if path[0] == "vars"@ {
            text_entry(self.vars, path.skip(1))
        } else if path[0] == "env"@ {
            text_entry(self.env, path.skip(1))
        } else if path[0] == "headers"@ {
            text_entry(self.headers, path.skip(1))
        } else {
            None
        }
    }

    /// The same context with `value` as the parent value.
    pub open spec fn with_value(&self, value: JsonValue) -> ContextModel {
        ContextModel { value: Some(value), ..*self }
    }
}

impl<'a> View for EvalContext<'a> {
    type V = ContextModel;

    open spec fn view(&self) -> ContextModel {
        ContextModel {
            args: self.args@,
            value: match self.value {
                Some(v) => Some(v@),
                None => None,
            },
            vars: self.vars@,
            env: self.env@,
            headers: self.headers@,
        }
    }
}

impl<'a> EvalContext<'a> {
    /// The same context with `value` as the parent value.
    pub fn with_value(&self, value: &'a Json) -> (r: EvalContext<'a>)
        ensures
            r@ == self@.with_value(value@),
    {
        EvalContext {
            args: self.args,
            value: Some(value),
            vars: self.vars,
            env: self.env,
            headers: self.headers,
        }
    }

    fn text_value(entries: &Vec<(String, String)>, path: &Vec<String>) -> (r: Option<Json>)
        requires
            path.len() >= 1,
        ensures
            match r {
                Some(v) => text_entry(entries@, path_texts(path@).skip(1)) == Some(v@),
                None => text_entry(entries@, path_texts(path@).skip(1)) is None,
            },
    {
        if path.len() == 2 {
            assert(path_texts(path@).skip(1)[0] == path@[1]@);
            match find(entries, path[1].as_str()) {
                Some(text) => Some(Json::String(text.clone())),
                None => None,
            }
        } else {
            None
        }
    }

    /// The value at `path`, if there is one.
    pub fn path_value(&self, path: &Vec<String>) -> (r: Option<Json>)
        ensures
            match r {
                Some(v) => self@.path_value(path_texts(path@)) == Some(v@),
                None => self@.path_value(path_texts(path@)) is None,
            },
    {
        if path.len() == 0 {
            return None;
        }
        assert(path_texts(path@)[0] == path@[0]@);
        let root = path[0].as_str();
        if str_eq(root, "args") {
            match self.args.select_from(path, 1) {
                Some(v) => Some(v.clone()),
                None => None,
            }
        } else if str_eq(root, "value") {
            match self.value {
                Some(value) => match value.select_from(path, 1) {
                    Some(v) => Some(v.clone()),
                    None => None,
                },
                None => None,
            }
        } else if str_eq(root, "vars") {
            Self::text_value(self.vars, path)
        } else if str_eq(root, "env") {
            Self::text_value(self.env, path)
        } else if str_eq(root, "headers") {
            Self::text_value(self.headers, path)
        } else {
            None
        }
    }
}

} // verus!
