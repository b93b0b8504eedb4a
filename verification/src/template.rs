//! Templates: text with holes, dynamic values, and the precompiled upstream
//! requests that the resolver algebra carries.

use vstd::prelude::*;

use crate::context::{ContextModel, EvalContext, path_texts};
use crate::json::{Json, JsonError, JsonValue, parsed, rendered};
use crate::text::{
    append_chars, chars_of, find, find_from, head_of, split, split_from, string_of, tail_of, trim,
    trimmed,
};

verus! {

/// One piece of a mustache template: literal text, or a hole that names a
/// dotted path into the evaluation context.
#[derive(Clone, Debug, PartialEq, Eq)]
pub enum Segment {
    Literal(String),
    Expression(Vec<String>),
}

/// A text template, such as `/users/{{.args.id}}`.
#[derive(Clone, Debug, PartialEq, Eq)]
pub struct Mustache {
    pub segments: Vec<Segment>,
}

/// The texts `parts`, with `sep` between one and the next.
pub open spec fn joined(parts: Seq<String>, sep: Seq<char>) -> Seq<char>
    decreases parts.len(),
{
    if parts.len() == 0 {
        Seq::empty()
    } else if parts.len() == 1 {
        parts[0]@
    } else {
        joined(parts.drop_last(), sep) + sep + parts.last()@
    }
}

/// The text of one segment: a literal as it is, a hole as its dotted path
/// between `{{` and `}}`.
pub open spec fn segment_text(segment: Segment) -> Seq<char> {
    match segment {
        Segment::Literal(text) => text@,
        Segment::Expression(parts) => "{{"@ + joined(parts@, "."@) + "}}"@,
    }
}

/// The texts of the segments, one after the other.
pub open spec fn segments_text(segments: Seq<Segment>) -> Seq<char>
    decreases segments.len(),
{
    if segments.len() == 0 {
        Seq::empty()
    } else {
        segments_text(segments.drop_last()) + segment_text(segments.last())
    }
}

impl Mustache {
    /// The template as text.
    pub open spec fn text(&self) -> Seq<char> {
        segments_text(self.segments@)
    }

    /// Writes the template back as text.
    pub fn to_string(&self) -> (r: String)
        ensures
            r@ == self.text(),
    {
        let open = chars_of("{{");
        let close = chars_of("}}");
        let dot = chars_of(".");
        let mut out: Vec<char> = Vec::new();
        let mut i: usize = 0;
        while i < self.segments.len()
            invariant
                i <= self.segments.len(),
                open@ == "{{"@,
                close@ == "}}"@,
                dot@ == "."@,
                out@ == segments_text(self.segments@.take(i as int)),
            decreases self.segments.len() - i,
        {
            let ghost before = out@;
            match &self.segments[i] {
                Segment::Literal(text) => {
                    let chars = chars_of(text.as_str());
                    append_chars(&mut out, &chars);
                },
                Segment::Expression(parts) => {
                    append_chars(&mut out, &open);
                    let ghost start = out@;
                    let mut k: usize = 0;
                    while k < parts.len()
                        invariant
                            k <= parts.len(),
                            dot@ == "."@,
                            out@ == start + joined(parts@.take(k as int), "."@),
                        decreases parts.len() - k,
                    {
                        if k > 0 {
                            append_chars(&mut out, &dot);
                        }
                        let chars = chars_of(parts[k].as_str());
                        append_chars(&mut out, &chars);
                        proof {
                            let next = parts@.take(k + 1);
                            assert(next.drop_last() =~= parts@.take(k as int));
                            assert(next.last() == parts@[k as int]);
                            if k == 0 {
                                assert(joined(parts@.take(0), "."@) =~= Seq::<char>::empty());
                                assert(out@ =~= start + joined(next, "."@));
                            } else {
                                assert(out@ =~= start + joined(next, "."@));
                            }
                        }
                        k += 1;
                    }
                    assert(parts@.take(parts.len() as int) =~= parts@);
                    append_chars(&mut out, &close);
                    assert(out@ =~= before + segment_text(self.segments@[i as int]));
                },
            }
            proof {
                let next = self.segments@.take(i + 1);
                assert(next.drop_last() =~= self.segments@.take(i as int));
                assert(next.last() == self.segments@[i as int]);
            }
            i += 1;
        }
        assert(self.segments@.take(self.segments.len() as int) =~= self.segments@);
        string_of(&out)
    }
}

/// The JSON value that a dynamic value stands for when its templates are
/// kept as text.
pub open spec fn dynamic_json(value: &DynamicValue) -> JsonValue
    decreases value,
{
    match value {
        DynamicValue::Value(v) => v@,
        DynamicValue::Mustache(m) => JsonValue::String(m.text()),
        DynamicValue::Object(entries) => JsonValue::Object(
            Seq::new(
                entries.len() as nat,
                |i: int|
                    if 0 <= i < entries.len() {
                        (entries[i].0@, dynamic_json(&entries[i].1))
                    } else {
                        (Seq::empty(), JsonValue::Null)
                    },
            ),
        ),
        DynamicValue::Array(items) => JsonValue::Array(
            Seq::new(
                items.len() as nat,
                |i: int|
                    if 0 <= i < items.len() {
                        dynamic_json(&items[i])
                    } else {
                        JsonValue::Null
                    },
            ),
        ),
    }
}

impl DynamicValue {
    /// The value as JSON, each template as the string of its text.
    pub fn to_json(&self) -> (r: Json)
        ensures
            r@ == dynamic_json(self),
        decreases self,
    {
        match self {
            DynamicValue::Value(v) => v.clone(),
            DynamicValue::Mustache(m) => Json::String(m.to_string()),
            DynamicValue::Object(entries) => {
                let mut out: Vec<(String, Json)> = Vec::new();
                let mut i: usize = 0;
                while i < entries.len()
                    invariant
                        i <= entries.len(),
                        out.len() == i,
                        *self == DynamicValue::Object(*entries),
                        forall|j: int|
                            0 <= j < i ==> (#[trigger] out[j]).0@ == entries[j].0@ && out[j].1@
                                == dynamic_json(&entries[j].1),
                    decreases entries.len() - i,
                {
                    let entry = &entries[i];
                    proof {
                        assert(self->Object_0 == *entries);
                        assert(decreases_to!(*self => self->Object_0));
                        assert(decreases_to!(*entries => entries[i as int]));
                        assert(decreases_to!(entries[i as int] => entries[i as int].1));
                    }
                    out.push((entry.0.clone(), entry.1.to_json()));
                    i += 1;
                }
                let r = Json::Object(out);
                assert forall|j: int| 0 <= j < entries.len() implies r@->Object_0[j]
                    == dynamic_json(self)->Object_0[j] by {
                    assert(out[j].0@ == entries[j].0@);
                }
                assert(r@->Object_0 =~= dynamic_json(self)->Object_0);
                r
            },
            DynamicValue::Array(items) => {
                let mut out: Vec<Json> = Vec::new();
                let mut i: usize = 0;
                while i < items.len()
                    invariant
                        i <= items.len(),
                        out.len() == i,
                        *self == DynamicValue::Array(*items),
                        forall|j: int| 0 <= j < i ==> (#[trigger] out[j])@ == dynamic_json(&items[j]),
                    decreases items.len() - i,
                {
                    let item = &items[i];
                    proof {
                        assert(self->Array_0 == *items);
                        assert(decreases_to!(*self => self->Array_0));
                        assert(decreases_to!(*items => items[i as int]));
                    }
                    out.push(item.to_json());
                    i += 1;
                }
                let r = Json::Array(out);
                assert(r@->Array_0 =~= dynamic_json(self)->Array_0);
                r
            },
        }
    }

    /// The value as compact JSON text, each template as the string of its
    /// text. Fails where the value holds a number that is none.
    pub fn to_string(&self) -> (r: Result<String, JsonError>)
        ensures
            match r {
                Ok(s) => rendered(dynamic_json(self)) == Some(s@),
                Err(e) => rendered(dynamic_json(self)) is None && e == JsonError::Serialize,
            },
    {
        self.to_json().to_text()
    }
}

/// A JSON-shaped value whose leaves may be templates.
#[derive(Debug, PartialEq, Eq)]
pub enum DynamicValue {
    Value(Json),
    Mustache(Mustache),
    Object(Vec<(String, DynamicValue)>),
    Array(Vec<DynamicValue>),
}

impl Clone for DynamicValue {
    fn clone(&self) -> (r: Self)
        decreases self,
    {
        match self {
            DynamicValue::Value(v) => DynamicValue::Value(v.clone()),
            DynamicValue::Mustache(m) => DynamicValue::Mustache(m.clone()),
            DynamicValue::Object(entries) => {
                let mut out: Vec<(String, DynamicValue)> = Vec::new();
                let mut i: usize = 0;
                while i < entries.len()
                    invariant
                        i <= entries.len(),
                        *self == DynamicValue::Object(*entries),
                    decreases entries.len() - i,
                {
                    let entry = &entries[i];
                    proof {
                        assert(self->Object_0 == *entries);
                        assert(decreases_to!(*self => self->Object_0));
                        assert(decreases_to!(*entries => entries[i as int]));
                        assert(decreases_to!(entries[i as int] => entries[i as int].1));
                    }
                    out.push((entry.0.clone(), entry.1.clone()));
                    i += 1;
                }
                DynamicValue::Object(out)
            },
            DynamicValue::Array(items) => {
                let mut out: Vec<DynamicValue> = Vec::new();
                let mut i: usize = 0;
                while i < items.len()
                    invariant
                        i <= items.len(),
                        *self == DynamicValue::Array(*items),
                    decreases items.len() - i,
                {
                    let item = &items[i];
                    proof {
                        assert(self->Array_0 == *items);
                        assert(decreases_to!(*self => self->Array_0));
                        assert(decreases_to!(*items => items[i as int]));
                    }
                    out.push(item.clone());
                    i += 1;
                }
                DynamicValue::Array(out)
            },
        }
    }
}

/// HTTP request methods.
#[derive(Clone, Copy, Debug, PartialEq, Eq, Structural)]
pub enum Method {
    GET,
    POST,
    PUT,
    PATCH,
    DELETE,
    HEAD,
    OPTIONS,
    CONNECT,
    TRACE,
}

/// How the elements of a batched response are matched to the requests that
/// were merged into the batch.
#[derive(Clone, Debug, PartialEq, Eq)]
pub struct GroupBy {
    pub path: Vec<String>,
    pub key: Option<String>,
}

/// A small expression applied to the raw body of an HTTP response.
#[derive(Clone, Debug, PartialEq, Eq)]
pub struct HttpFilter {
    pub on_response_body: Option<String>,
}

/// A precompiled HTTP request.
#[derive(Clone, Debug, PartialEq, Eq)]
pub struct HttpRequestTemplate {
    pub method: Method,
    pub root_url: Mustache,
    pub query: Vec<(String, Mustache)>,
    pub headers: Vec<(String, Mustache)>,
    pub body: Option<DynamicValue>,
}

/// The kind of a GraphQL operation.
#[derive(Clone, Copy, Debug, PartialEq, Eq, Structural)]
pub enum OperationType {
    Query,
    Mutation,
}

/// A precompiled request to an upstream GraphQL server.
#[derive(Clone, Debug, PartialEq, Eq)]
pub struct GraphqlRequestTemplate {
    pub url: String,
    pub operation_type: OperationType,
    pub operation_name: String,
    pub operation_arguments: Vec<(String, Mustache)>,
    pub headers: Vec<(String, Mustache)>,
    pub selection: Option<Mustache>,
}

/// A precompiled gRPC call.
#[derive(Clone, Debug, PartialEq, Eq)]
pub struct GrpcRequestTemplate {
    pub url: Mustache,
    pub headers: Vec<(String, Mustache)>,
    pub body: Option<DynamicValue>,
    pub service: String,
    pub method: String,
}

/// The text that a hole with the path `path` renders to: the string at the
/// path as it is, any other value as its JSON text, and nothing where the
/// path is absent or the value cannot be written.
pub open spec fn hole_text(ctx: ContextModel, path: Seq<Seq<char>>) -> Seq<char> {
    match ctx.path_value(path) {
        Some(JsonValue::String(s)) => s,
        Some(v) => match rendered(v) {
            Some(t) => t,
            None => Seq::empty(),
        },
        None => Seq::empty(),
    }
}

/// The text that segments render to, one after the other.
pub open spec fn segments_rendered(segments: Seq<Segment>, ctx: ContextModel) -> Seq<char>
    decreases segments.len(),
{
    if segments.len() == 0 {
        Seq::empty()
    } else {
        segments_rendered(segments.drop_last(), ctx) + match segments.last() {
            Segment::Literal(text) => text@,
            Segment::Expression(path) => hole_text(ctx, path_texts(path@)),
        }
    }
}

/// The value that a template's text stands for: the JSON value it reads as,
/// or else the text itself as a string.
pub open spec fn text_value(text: Seq<char>) -> JsonValue {
    match parsed(text) {
        Some(v) => v,
        None => JsonValue::String(text),
    }
}

/// What a dynamic value renders to in a context: no hole remains.
pub open spec fn dynamic_rendered(value: &DynamicValue, ctx: ContextModel) -> JsonValue
    decreases value,
{
    match value {
        DynamicValue::Value(v) => v@,
        DynamicValue::Mustache(m) => text_value(m.spec_render(ctx)),
        DynamicValue::Object(entries) => JsonValue::Object(
            Seq::new(
                entries.len() as nat,
                |i: int|
                    if 0 <= i < entries.len() {
                        (entries[i].0@, dynamic_rendered(&entries[i].1, ctx))
                    } else {
                        (Seq::empty(), JsonValue::Null)
                    },
            ),
        ),
        DynamicValue::Array(items) => JsonValue::Array(
            Seq::new(
                items.len() as nat,
                |i: int|
                    if 0 <= i < items.len() {
                        dynamic_rendered(&items[i], ctx)
                    } else {
                        JsonValue::Null
                    },
            ),
        ),
    }
}

impl Mustache {
    /// The text that the template renders to in a context.
    pub open spec fn spec_render(&self, ctx: ContextModel) -> Seq<char> {
        segments_rendered(self.segments@, ctx)
    }

    /// Renders the template: each hole is filled from the context.
    pub fn render(&self, ctx: &EvalContext) -> (r: String)
        ensures
            r@ == self.spec_render(ctx@),
    {
        let mut out: Vec<char> = Vec::new();
        let mut i: usize = 0;
        while i < self.segments.len()
            invariant
                i <= self.segments.len(),
                out@ == segments_rendered(self.segments@.take(i as int), ctx@),
            decreases self.segments.len() - i,
        {
            proof {
                let next = self.segments@.take(i + 1);
                assert(next.drop_last() =~= self.segments@.take(i as int));
                assert(next.last() == self.segments@[i as int]);
            }
            match &self.segments[i] {
                Segment::Literal(text) => {
                    let chars = chars_of(text.as_str());
                    append_chars(&mut out, &chars);
                },
                Segment::Expression(path) => {
                    match ctx.path_value(path) {
                        Some(Json::String(s)) => {
                            let chars = chars_of(s.as_str());
                            append_chars(&mut out, &chars);
                        },
                        Some(v) => {
                            match v.to_text() {
                                Ok(t) => {
                                    let chars = chars_of(t.as_str());
                                    append_chars(&mut out, &chars);
                                },
                                Err(_) => {
                                    assert(out@ + Seq::<char>::empty() =~= out@);
                                },
                            }
                        },
                        None => {
                            assert(out@ + Seq::<char>::empty() =~= out@);
                        },
                    }
                },
            }
            i += 1;
        }
        assert(self.segments@.take(self.segments.len() as int) =~= self.segments@);
        string_of(&out)
    }
}

impl DynamicValue {
    /// Renders the value: every template in it is rendered, and its text
    /// read as JSON where it is JSON.
    pub fn render(&self, ctx: &EvalContext) -> (r: Json)
        ensures
            r@ == dynamic_rendered(self, ctx@),
        decreases self,
    {
        match self {
            DynamicValue::Value(v) => v.clone(),
            DynamicValue::Mustache(m) => {
                let text = m.render(ctx);
                match Json::parse(text.as_str()) {
                    Ok(v) => v,
                    Err(_) => Json::String(text),
                }
            },
            DynamicValue::Object(entries) => {
                let mut out: Vec<(String, Json)> = Vec::new();
                let mut i: usize = 0;
                while i < entries.len()
                    invariant
                        i <= entries.len(),
                        out.len() == i,
                        *self == DynamicValue::Object(*entries),
                        forall|j: int|
                            0 <= j < i ==> (#[trigger] out[j]).0@ == entries[j].0@ && out[j].1@
                                == dynamic_rendered(&entries[j].1, ctx@),
                    decreases entries.len() - i,
                {
                    let entry = &entries[i];
                    proof {
                        assert(self->Object_0 == *entries);
                        assert(decreases_to!(*self => self->Object_0));
                        assert(decreases_to!(*entries => entries[i as int]));
                        assert(decreases_to!(entries[i as int] => entries[i as int].1));
                    }
                    out.push((entry.0.clone(), entry.1.render(ctx)));
                    i += 1;
                }
                let r = Json::Object(out);
                assert forall|j: int| 0 <= j < entries.len() implies r@->Object_0[j]
                    == dynamic_rendered(self, ctx@)->Object_0[j] by {
                    assert(out[j].0@ == entries[j].0@);
                }
                assert(r@->Object_0 =~= dynamic_rendered(self, ctx@)->Object_0);
                r
            },
            DynamicValue::Array(items) => {
                let mut out: Vec<Json> = Vec::new();
                let mut i: usize = 0;
                while i < items.len()
                    invariant
                        i <= items.len(),
                        out.len() == i,
                        *self == DynamicValue::Array(*items),
                        forall|j: int|
                            0 <= j < i ==> (#[trigger] out[j])@ == dynamic_rendered(
                                &items[j],
                                ctx@,
                            ),
                    decreases items.len() - i,
                {
                    let item = &items[i];
                    proof {
                        assert(self->Array_0 == *items);
                        assert(decreases_to!(*self => self->Array_0));
                        assert(decreases_to!(*items => items[i as int]));
                    }
                    out.push(item.render(ctx));
                    i += 1;
                }
                let r = Json::Array(out);
                assert(r@->Array_0 =~= dynamic_rendered(self, ctx@)->Array_0);
                r
            },
        }
    }
}

/// The mathematical content of a [`Segment`].
pub ghost enum SegmentModel {
    Literal(Seq<char>),
    Expression(Seq<Seq<char>>),
}

/// The mathematical content of a list of segments.
pub open spec fn segments_model(segments: Seq<Segment>) -> Seq<SegmentModel> {
    Seq::new(
        segments.len(),
        |i: int|
            match segments[i] {
                Segment::Literal(text) => SegmentModel::Literal(text@),
                Segment::Expression(path) => SegmentModel::Expression(path_texts(path@)),
            },
    )
}

/// The path that the text of a hole names: the text without blanks around
/// it and without a leading `.`, split at each `.`.
pub open spec fn hole_path(inner: Seq<char>) -> Seq<Seq<char>> {
    let t = trimmed(inner);
    split_from(
        if t.len() > 0 && t[0] == '.' {
            t.skip(1)
        } else {
            t
        },
        '.',
        0,
    )
}

/// A literal for a text, or nothing for no text.
pub open spec fn literal_of(text: Seq<char>) -> Seq<SegmentModel> {
    if text.len() == 0 {
        Seq::empty()
    } else {
        seq![SegmentModel::Literal(text)]
    }
}

/// The segments of a template text from the position `start` on. A hole
/// starts at `{{` and ends at the next `}}`; what stands between holes is
/// literal, and so is everything from a `{{` on that no `}}` follows.
pub open spec fn parsed_from(s: Seq<char>, start: int) -> Seq<SegmentModel>
    decreases s.len() - start,
{
    if start < 0 || start >= s.len() {
        Seq::empty()
    } else {
        match find_from(s, "{{"@, start) {
            None => literal_of(s.skip(start)),
            Some(open) => match find_from(s, "}}"@, open + 2) {
                None => literal_of(s.skip(start)),
                Some(close) => if start <= open && open + 2 <= close && close + 2 <= s.len() {
                    literal_of(s.subrange(start, open)) + seq![
                        SegmentModel::Expression(hole_path(s.subrange(open + 2, close))),
                    ] + parsed_from(s, close + 2)
                } else {
                    literal_of(s.skip(start))
                },
            },
        }
    }
}

impl Mustache {
    /// Whether a hole of the template reads from the root `root` of the
    /// context.
    pub open spec fn spec_references(&self, root: Seq<char>) -> bool {
        exists|i: int|
            0 <= i < self.segments@.len() && (#[trigger] self.segments@[i] matches Segment::Expression(
                path,
            ) && path@.len() > 0 && path@[0]@ == root)
    }

    /// Whether a hole of the template reads from the root `root` of the
    /// context.
    pub fn references(&self, root: &str) -> (r: bool)
        ensures
            r == self.spec_references(root@),
    {
        let mut i: usize = 0;
        while i < self.segments.len()
            invariant
                i <= self.segments.len(),
                forall|j: int|
                    0 <= j < i ==> !(#[trigger] self.segments@[j] matches Segment::Expression(path)
                        && path@.len() > 0 && path@[0]@ == root@),
            decreases self.segments.len() - i,
        {
            match &self.segments[i] {
                Segment::Expression(path) => {
                    if path.len() > 0 && crate::names::str_eq(path[0].as_str(), root) {
                        return true;
                    }
                },
                Segment::Literal(_) => {},
            }
            i += 1;
        }
        false
    }

    /// Reads a template from its text.
    pub fn parse(text: &str) -> (r: Mustache)
        ensures
            segments_model(r.segments@) == parsed_from(text@, 0),
    {
        let s = chars_of(text);
        let open_mark = chars_of("{{");
        let close_mark = chars_of("}}");
        proof {
            reveal_strlit("{{");
            reveal_strlit("}}");
        }
        let mut segments: Vec<Segment> = Vec::new();
        let mut start: usize = 0;
        assert(segments_model(segments@) + parsed_from(s@, 0) =~= parsed_from(s@, 0));
        while start < s.len()
            invariant
                start <= s.len(),
                open_mark@ == "{{"@,
                close_mark@ == "}}"@,
                open_mark@.len() == 2,
                close_mark@.len() == 2,
                segments_model(segments@) + parsed_from(s@, start as int) == parsed_from(s@, 0),
            decreases s.len() - start,
        {
            let ghost before = segments_model(segments@);
            let found = match find(&s, &open_mark, start) {
                Some(open) => {
                    if open > s.len() - 2 {
                        None
                    } else {
                        match find(&s, &close_mark, open + 2) {
                            Some(close) => Some((open, close)),
                            None => None,
                        }
                    }
                },
                None => None,
            };
            match found {
                None => {
                    let rest = tail_of(&s, start);
                    segments.push(Segment::Literal(string_of(&rest)));
                    assert(segments_model(segments@) =~= before + literal_of(s@.skip(start as int)));
                    assert(parsed_from(s@, s.len() as int) =~= Seq::empty());
                    assert(before + literal_of(s@.skip(start as int)) + Seq::<
                        SegmentModel,
                    >::empty() =~= before + literal_of(s@.skip(start as int)));
                    start = s.len();
                },
                Some((open, close)) => {
                    if open > start {
                        let head = head_of(&s, open);
                        let literal = tail_of(&head, start);
                        assert(literal@ =~= s@.subrange(start as int, open as int));
                        segments.push(Segment::Literal(string_of(&literal)));
                    }
                    let ghost with_literal = segments_model(segments@);
                    assert(with_literal =~= before + literal_of(
                        s@.subrange(start as int, open as int),
                    ));
                    let head = head_of(&s, close);
                    let inner = tail_of(&head, open + 2);
                    assert(inner@ =~= s@.subrange(open + 2, close as int));
                    let t = trim(&inner);
                    let body = if t.len() > 0 && t[0] == '.' {
                        tail_of(&t, 1)
                    } else {
                        t
                    };
                    let path = split(&body, '.');
                    assert(path_texts(path@) =~= hole_path(inner@));
                    segments.push(Segment::Expression(path));
                    assert(segments_model(segments@) =~= with_literal.push(
                        SegmentModel::Expression(hole_path(inner@)),
                    ));
                    assert(with_literal.push(SegmentModel::Expression(hole_path(inner@)))
                        + parsed_from(s@, close + 2) =~= before + (literal_of(
                        s@.subrange(start as int, open as int),
                    ) + seq![SegmentModel::Expression(hole_path(inner@))] + parsed_from(
                        s@,
                        close + 2,
                    )));
                    start = close + 2;
                },
            }
        }
        assert(parsed_from(s@, s.len() as int) =~= Seq::empty());
        assert(segments_model(segments@) + Seq::<SegmentModel>::empty() =~= segments_model(
            segments@,
        ));
        Mustache { segments }
    }
}

/// The segments with `root` put before the path of every hole.
pub open spec fn prepended(segments: Seq<SegmentModel>, root: Seq<char>) -> Seq<SegmentModel> {
    Seq::new(
        segments.len(),
        |i: int|
            match segments[i] {
                SegmentModel::Literal(text) => SegmentModel::Literal(text),
                SegmentModel::Expression(path) => SegmentModel::Expression(seq![root] + path),
            },
    )
}

impl Mustache {
    /// The template with `root` put before the path of every hole, so that
    /// what it read from the context it reads from that root.
    pub fn prepend(&self, root: &str) -> (r: Mustache)
        ensures
            segments_model(r.segments@) == prepended(segments_model(self.segments@), root@),
    {
        let mut segments: Vec<Segment> = Vec::new();
        let mut i: usize = 0;
        while i < self.segments.len()
            invariant
                i <= self.segments.len(),
                segments.len() == i,
                forall|j: int|
                    0 <= j < i ==> segments_model(segments@)[j] == prepended(
                        segments_model(self.segments@),
                        root@,
                    )[j],
            decreases self.segments.len() - i,
        {
            let ghost before = segments@;
            match &self.segments[i] {
                Segment::Literal(text) => {
                    segments.push(Segment::Literal(text.clone()));
                },
                Segment::Expression(path) => {
                    let mut longer: Vec<String> = Vec::new();
                    longer.push(String::from_str(root));
                    let mut k: usize = 0;
                    while k < path.len()
                        invariant
                            k <= path.len(),
                            path_texts(longer@) == seq![root@] + path_texts(path@).take(k as int),
                        decreases path.len() - k,
                    {
                        let ghost so_far = path_texts(longer@);
                        longer.push(path[k].clone());
                        assert(path_texts(longer@) =~= so_far.push(path@[k as int]@));
                        assert(path_texts(path@).take(k + 1) =~= path_texts(path@).take(
                            k as int,
                        ).push(path@[k as int]@));
                        k += 1;
                    }
                    assert(path_texts(path@).take(path.len() as int) =~= path_texts(path@));
                    segments.push(Segment::Expression(longer));
                },
            }
            assert forall|j: int| 0 <= j < i + 1 implies segments_model(segments@)[j]
                == prepended(segments_model(self.segments@), root@)[j] by {
                if j < i {
                    assert(segments@[j] == before[j]);
                    assert(segments_model(before)[j] == prepended(
                        segments_model(self.segments@),
                        root@,
                    )[j]);
                }
            }
            i += 1;
        }
        assert(segments_model(segments@) =~= prepended(segments_model(self.segments@), root@));
        Mustache { segments }
    }
}

} // verus!
