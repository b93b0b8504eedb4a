//! Expansion of a request body for a batch: every array is repeated once per
//! batch slot, and each copy reads the parent value of its own slot.

use vstd::prelude::*;

use crate::json::{Json, JsonError, JsonValue, parsed, rendered};
use crate::template::{dynamic_json, DynamicValue};
use crate::text::{
    append_chars, chars_of, contains, contains_text, decimal, decimal_digits, replace, replaced,
    string_of,
};

verus! {

/// `s` with each template reference to the parent value redirected to the
/// parent value of slot `index`: `{{.value.` becomes `{{.value.<index>.`,
/// and `{{value.` becomes `{{value.<index>.`.
pub open spec fn indexed_text(s: Seq<char>, index: nat) -> Seq<char> {
    replaced(
        replaced(s, "{{.value."@, "{{.value."@ + decimal(index) + "."@),
        "{{value."@,
        "{{value."@ + decimal(index) + "."@,
    )
}

/// `v` with every string in it, at any depth, redirected to slot `index`.
pub open spec fn indexed(v: JsonValue, index: nat) -> JsonValue
    decreases v,
{
    match v {
        JsonValue::Object(entries) => JsonValue::Object(
            Seq::new(
                entries.len(),
                |i: int|
                    if 0 <= i < entries.len() {
                        (entries[i].0, indexed(entries[i].1, index))
                    } else {
                        entries[i]
                    },
            ),
        ),
        JsonValue::Array(items) => JsonValue::Array(
            Seq::new(
                items.len(),
                |i: int|
                    if 0 <= i < items.len() {
                        indexed(items[i], index)
                    } else {
                        items[i]
                    },
            ),
        ),
        JsonValue::String(s) => JsonValue::String(indexed_text(s, index)),
        other => other,
    }
}

/// The items repeated for the slots `0 .. slots`, slot by slot, each copy
/// redirected to its slot.
pub open spec fn repeated(items: Seq<JsonValue>, slots: nat) -> Seq<JsonValue>
    decreases slots,
{
    if slots == 0 {
        Seq::empty()
    } else {
        repeated(items, (slots - 1) as nat) + Seq::new(
            items.len(),
            |i: int| indexed(items[i], (slots - 1) as nat),
        )
    }
}

/// `v` expanded for a batch of `batch_size` slots: objects keep their keys,
/// every array has its expanded items repeated once per slot, and anything
/// else stays as it is.
pub open spec fn expanded(v: JsonValue, batch_size: nat) -> JsonValue
    decreases v,
{
    match v {
        JsonValue::Object(entries) => JsonValue::Object(
            Seq::new(
                entries.len(),
                |i: int|
                    if 0 <= i < entries.len() {
                        (entries[i].0, expanded(entries[i].1, batch_size))
                    } else {
                        entries[i]
                    },
            ),
        ),
        JsonValue::Array(items) => JsonValue::Array(
            repeated(expanded_items(items, batch_size), batch_size),
        ),
        other => other,
    }
}

/// Each of `items` expanded for a batch of `batch_size` slots.
pub open spec fn expanded_items(items: Seq<JsonValue>, batch_size: nat) -> Seq<JsonValue>
    decreases items,
{
    Seq::new(
        items.len(),
        |i: int|
            if 0 <= i < items.len() {
                expanded(items[i], batch_size)
            } else {
                items[i]
            },
    )
}

pub struct Expander;

impl Expander {
    /// What [`Expander::expand`] makes of the JSON text of a request body:
    /// the text is read back, and the value expanded.
    pub open spec fn expansion(text: Option<Seq<char>>, batch_size: nat) -> Result<
        JsonValue,
        JsonError,
    > {
        match text {
            None => Err(JsonError::Serialize),
            Some(t) => match parsed(t) {
                None => Err(JsonError::Parse),
                Some(v) => Ok(expanded(v, batch_size)),
            },
        }
    }

    /// Writes the request body as JSON text, reads the text back, and expands
    /// the value for a batch of `batch_size` slots.
    pub fn expand(dynamic_value: &DynamicValue, batch_size: usize) -> (r: Result<
        DynamicValue,
        JsonError,
    >)
        ensures
            match Self::expansion(rendered(dynamic_json(dynamic_value)), batch_size as nat) {
                Ok(v) => r matches Ok(DynamicValue::Value(j)) && j@ == v,
                Err(e) => r == Err::<DynamicValue, JsonError>(e),
            },
    {
        let str_value = match dynamic_value.to_string() {
            Ok(s) => s,
            Err(e) => return Err(e),
        };
        let value = match Json::parse(str_value.as_str()) {
            Ok(v) => v,
            Err(e) => return Err(e),
        };
        Ok(DynamicValue::Value(Self::expand_inner(value, batch_size)))
    }

    /// Redirects one string to the parent value of slot `index`.
    pub fn update_text(s: String, index: usize) -> (r: String)
        ensures
            r@ == indexed_text(s@, index as nat),
    {
        let text = chars_of(s.as_str());
        let dotted = chars_of("{{.value.");
        let plain = chars_of("{{value.");
        proof {
            if !contains_text(text@, dotted@) {
                crate::text::lemma_replaced_without_occurrence(
                    text@,
                    dotted@,
                    dotted@ + decimal(index as nat) + "."@,
                );
            }
            if !contains_text(text@, plain@) {
                crate::text::lemma_replaced_without_occurrence(
                    text@,
                    plain@,
                    plain@ + decimal(index as nat) + "."@,
                );
            }
        }
        if contains(&text, &dotted) || contains(&text, &plain) {
            let digits = decimal_digits(index);
            let dot = chars_of(".");
            let mut dotted_to = chars_of("{{.value.");
            let mut plain_to = chars_of("{{value.");
            append_chars(&mut dotted_to, &digits);
            append_chars(&mut dotted_to, &dot);
            append_chars(&mut plain_to, &digits);
            append_chars(&mut plain_to, &dot);
            let first = replace(&text, &dotted, &dotted_to);
            let second = replace(&first, &plain, &plain_to);
            string_of(&second)
        } else {
            s
        }
    }

    /// Redirects every string in `value` to the parent value of slot `index`.
    pub fn update_mustache_expr(value: Json, index: usize) -> (r: Json)
        ensures
            r@ == indexed(value@, index as nat),
        decreases value,
    {
        match value {
            Json::Object(map) => {
                let ghost before = map;
                let mut out: Vec<(String, Json)> = Vec::new();
                for entry in it: map
                    invariant
                        it.seq() == before@,
                        value == Json::Object(before),
                        out.len() == it.index(),
                        forall|j: int|
                            0 <= j < out.len() ==> (#[trigger] out[j]).0@ == before[j].0@
                                && out[j].1@ == indexed(before[j].1@, index as nat),
                {
                    let (k, v) = entry;
                    proof {
                        let i = out.len() as int;
                        assert(entry == before@[i]);
                        assert(value->Object_0 == before);
                        assert(decreases_to!(value => value->Object_0));
                        assert(decreases_to!(before => before[i]));
                        assert(decreases_to!(before[i] => before[i].1));
                    }
                    let updated = Self::update_mustache_expr(v, index);
                    out.push((k, updated));
                }
                let r = Json::Object(out);
                assert forall|j: int| 0 <= j < before.len() implies r@->Object_0[j] == indexed(
                    value@,
                    index as nat,
                )->Object_0[j] by {
                    assert(out[j].0@ == before[j].0@);
                }
                assert(r@->Object_0 =~= indexed(value@, index as nat)->Object_0);
                r
            },
            Json::Array(list) => {
                let ghost before = list;
                let mut out: Vec<Json> = Vec::new();
                for item in it: list
                    invariant
                        it.seq() == before@,
                        value == Json::Array(before),
                        out.len() == it.index(),
                        forall|j: int|
                            0 <= j < out.len() ==> (#[trigger] out[j])@ == indexed(
                                before[j]@,
                                index as nat,
                            ),
                {
                    proof {
                        let i = out.len() as int;
                        assert(item == before@[i]);
                        assert(value->Array_0 == before);
                        assert(decreases_to!(value => value->Array_0));
                        assert(decreases_to!(before => before[i]));
                    }
                    let updated = Self::update_mustache_expr(item, index);
                    out.push(updated);
                }
                let r = Json::Array(out);
                assert(r@->Array_0 =~= indexed(value@, index as nat)->Array_0);
                r
            },
            Json::String(s) => Json::String(Self::update_text(s, index)),
            other => other,
        }
    }

    /// The items, each redirected to slot `index`.
    fn slot_copies(items: &Vec<Json>, index: usize) -> (r: Vec<Json>)
        ensures
            r@.len() == items@.len(),
            forall|j: int|
                0 <= j < items.len() ==> (#[trigger] r[j])@ == indexed(items[j]@, index as nat),
    {
        let mut out: Vec<Json> = Vec::new();
        let mut j: usize = 0;
        while j < items.len()
            invariant
                j <= items.len(),
                out.len() == j,
                forall|k: int|
                    0 <= k < j ==> (#[trigger] out[k])@ == indexed(items[k]@, index as nat),
            decreases items.len() - j,
        {
            let copy = items[j].clone();
            out.push(Self::update_mustache_expr(copy, index));
            j += 1;
        }
        out
    }

    /// Expands `value` for a batch of `batch_size` slots.
    pub fn expand_inner(value: Json, batch_size: usize) -> (r: Json)
        ensures
            r@ == expanded(value@, batch_size as nat),
        decreases value,
    {
        match value {
            Json::Object(map) => {
                let ghost before = map;
                let mut out: Vec<(String, Json)> = Vec::new();
                for entry in it: map
                    invariant
                        it.seq() == before@,
                        value == Json::Object(before),
                        out.len() == it.index(),
                        forall|j: int|
                            0 <= j < out.len() ==> (#[trigger] out[j]).0@ == before[j].0@
                                && out[j].1@ == expanded(before[j].1@, batch_size as nat),
                {
                    let (k, v) = entry;
                    proof {
                        let i = out.len() as int;
                        assert(entry == before@[i]);
                        assert(value->Object_0 == before);
                        assert(decreases_to!(value => value->Object_0));
                        assert(decreases_to!(before => before[i]));
                        assert(decreases_to!(before[i] => before[i].1));
                    }
                    let inner = Self::expand_inner(v, batch_size);
                    out.push((k, inner));
                }
                let r = Json::Object(out);
                assert forall|j: int| 0 <= j < before.len() implies r@->Object_0[j] == expanded(
                    value@,
                    batch_size as nat,
                )->Object_0[j] by {
                    assert(out[j].0@ == before[j].0@);
                }
                assert(r@->Object_0 =~= expanded(value@, batch_size as nat)->Object_0);
                r
            },
            Json::Array(list) => {
                let ghost before = list;
                let mut expanded_list: Vec<Json> = Vec::new();
                for item in it: list
                    invariant
                        it.seq() == before@,
                        value == Json::Array(before),
                        expanded_list.len() == it.index(),
                        forall|j: int|
                            0 <= j < expanded_list.len() ==> (#[trigger] expanded_list[j])@
                                == expanded(before[j]@, batch_size as nat),
                {
                    proof {
                        let i = expanded_list.len() as int;
                        assert(item == before@[i]);
                        assert(value->Array_0 == before);
                        assert(decreases_to!(value => value->Array_0));
                        assert(decreases_to!(before => before[i]));
                    }
                    let inner = Self::expand_inner(item, batch_size);
                    expanded_list.push(inner);
                }
                let ghost items = expanded_items(value@->Array_0, batch_size as nat);
                assert(items =~= Json::Array(expanded_list)@->Array_0);
                let mut final_ans: Vec<Json> = Vec::new();
                let mut index: usize = 0;
                while index < batch_size
                    invariant
                        index <= batch_size,
                        items == Json::Array(expanded_list)@->Array_0,
                        Json::Array(final_ans)@->Array_0 == repeated(items, index as nat),
                    decreases batch_size - index,
                {
                    let ghost done = Json::Array(final_ans)@->Array_0;
                    let mut batch = Self::slot_copies(&expanded_list, index);
                    let ghost copies = Json::Array(batch)@->Array_0;
                    assert(copies =~= Seq::new(
                        items.len(),
                        |i: int| indexed(items[i], index as nat),
                    ));
                    final_ans.append(&mut batch);
                    assert(Json::Array(final_ans)@->Array_0 =~= done + copies);
                    index += 1;
                }
                Json::Array(final_ans)
            },
            other => other,
        }
    }
}

} // verus!
