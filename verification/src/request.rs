//! Upstream requests: what a request template renders to in a context, and
//! the fingerprint of the rendered request.

use vstd::prelude::*;

use crate::context::{ContextModel, EvalContext};
use crate::entries::{find_index, position};
use crate::eval::EvalError;
use crate::ir::{CacheKey, IO, IoId};
use crate::json::{Json, JsonValue, parsed, rendered};
use crate::template::{
    dynamic_rendered, DynamicValue, GraphqlRequestTemplate, GroupBy, GrpcRequestTemplate,
    HttpRequestTemplate, Method, Mustache, OperationType,
};
use crate::text::{append_chars, chars_of, string_of};

verus! {

/// A fully rendered upstream request.
#[derive(Clone, Debug, PartialEq, Eq)]
pub enum Request {
    Http { method: Method, url: String, headers: Vec<(String, String)>, body: Option<String> },
    GraphQL {
        url: String,
        operation_type: OperationType,
        operation_name: String,
        arguments: Vec<(String, String)>,
        headers: Vec<(String, String)>,
        selection: Option<String>,
    },
    Grpc {
        url: String,
        service: String,
        method: String,
        headers: Vec<(String, String)>,
        body: Option<String>,
    },
    /// A call of the script function `name` on `value`.
    Js { name: String, value: Json },
}

/// Keys with their rendered values.
pub open spec fn pairs_rendered(pairs: Seq<(String, Mustache)>, ctx: ContextModel) -> Seq<
    (Seq<char>, Seq<char>),
> {
    Seq::new(pairs.len(), |i: int| (pairs[i].0@, pairs[i].1.spec_render(ctx)))
}

/// Keys and values as texts.
pub open spec fn pairs_text(pairs: Seq<(String, String)>) -> Seq<(Seq<char>, Seq<char>)> {
    Seq::new(pairs.len(), |i: int| (pairs[i].0@, pairs[i].1@))
}

/// The pairs as `key=value`, the first after `first`, each further one after
/// `next`.
pub open spec fn pairs_line(
    pairs: Seq<(Seq<char>, Seq<char>)>,
    first: Seq<char>,
    next: Seq<char>,
) -> Seq<char>
    decreases pairs.len(),
{
    if pairs.len() == 0 {
        Seq::empty()
    } else {
        pairs_line(pairs.drop_last(), first, next) + (if pairs.len() == 1 {
            first
        } else {
            next
        }) + pairs.last().0 + "="@ + pairs.last().1
    }
}

/// The text of a rendered body: a string as it is, any other value as JSON.
pub open spec fn body_text(value: JsonValue) -> Option<Seq<char>> {
    match value {
        JsonValue::String(s) => Some(s),
        other => rendered(other),
    }
}

/// The text of an optional body template in a context: no body where there
/// is no template; a failure where the rendered value cannot be written.
pub open spec fn body_rendered(body: Option<DynamicValue>, ctx: ContextModel) -> Result<
    Option<Seq<char>>,
    (),
> {
    match body {
        None => Ok(None),
        Some(template) => match body_text(dynamic_rendered(&template, ctx)) {
            Some(t) => Ok(Some(t)),
            None => Err(()),
        },
    }
}

/// The name of a method.
pub open spec fn method_name(method: Method) -> Seq<char> {
    match method {
        Method::GET => "GET"@,
        Method::POST => "POST"@,
        Method::PUT => "PUT"@,
        Method::PATCH => "PATCH"@,
        Method::DELETE => "DELETE"@,
        Method::HEAD => "HEAD"@,
        Method::OPTIONS => "OPTIONS"@,
        Method::CONNECT => "CONNECT"@,
        Method::TRACE => "TRACE"@,
    }
}

/// An optional text, after a line feed; nothing for none.
pub open spec fn optional_line(text: Option<Seq<char>>) -> Seq<char> {
    match text {
        Some(t) => "\n"@ + t,
        None => Seq::empty(),
    }
}

/// The characters of an optional text.
pub open spec fn opt_text(text: Option<String>) -> Option<Seq<char>> {
    match text {
        Some(t) => Some(t@),
        None => None,
    }
}

/// The fingerprint of a text: starting from 14695981039346656037, each
/// character in turn multiplies the fingerprint by 1099511628211 and adds
/// its code point, modulo 2^64.
pub open spec fn fingerprint(text: Seq<char>) -> u64
    decreases text.len(),
{
    if text.len() == 0 {
        14695981039346656037u64
    } else {
        ((fingerprint(text.drop_last()) as int * 1099511628211 + text.last() as u32 as int)
            % 0x1_0000_0000_0000_0000) as u64
    }
}

/// The fingerprint of `text`.
pub fn fingerprint_of(text: &Vec<char>) -> (r: u64)
    ensures
        r == fingerprint(text@),
{
    let mut h: u64 = 14695981039346656037u64;
    let mut i: usize = 0;
    while i < text.len()
        invariant
            i <= text.len(),
            h == fingerprint(text@.take(i as int)),
        decreases text.len() - i,
    {
        proof {
            let next = text@.take(i + 1);
            assert(next.drop_last() =~= text@.take(i as int));
            assert(next.last() == text@[i as int]);
        }
        let wide: u128 = h as u128 * 1099511628211u128 + text[i] as u32 as u128;
        h = (wide % 0x1_0000_0000_0000_0000u128) as u64;
        i += 1;
    }
    assert(text@.take(text.len() as int) =~= text@);
    h
}

fn render_pairs(pairs: &Vec<(String, Mustache)>, ctx: &EvalContext) -> (r: Vec<(String, String)>)
    ensures
        pairs_text(r@) == pairs_rendered(pairs@, ctx@),
{
    let mut out: Vec<(String, String)> = Vec::new();
    let mut i: usize = 0;
    while i < pairs.len()
        invariant
            i <= pairs.len(),
            out.len() == i,
            forall|j: int|
                0 <= j < i ==> (#[trigger] out[j]).0@ == pairs[j].0@ && out[j].1@
                    == pairs[j].1.spec_render(ctx@),
        decreases pairs.len() - i,
    {
        out.push((pairs[i].0.clone(), pairs[i].1.render(ctx)));
        i += 1;
    }
    assert(pairs_text(out@) =~= pairs_rendered(pairs@, ctx@));
    out
}

fn line_of(pairs: &Vec<(String, String)>, first: &str, next: &str) -> (r: Vec<char>)
    ensures
        r@ == pairs_line(pairs_text(pairs@), first@, next@),
{
    let first_chars = chars_of(first);
    let next_chars = chars_of(next);
    let equals = chars_of("=");
    let mut out: Vec<char> = Vec::new();
    let mut i: usize = 0;
    while i < pairs.len()
        invariant
            i <= pairs.len(),
            first_chars@ == first@,
            next_chars@ == next@,
            equals@ == "="@,
            out@ == pairs_line(pairs_text(pairs@).take(i as int), first@, next@),
        decreases pairs.len() - i,
    {
        proof {
            let upto = pairs_text(pairs@).take(i + 1);
            assert(upto.drop_last() =~= pairs_text(pairs@).take(i as int));
            assert(upto.last() == (pairs@[i as int].0@, pairs@[i as int].1@));
        }
        if i == 0 {
            append_chars(&mut out, &first_chars);
        } else {
            append_chars(&mut out, &next_chars);
        }
        let key = chars_of(pairs[i].0.as_str());
        let value = chars_of(pairs[i].1.as_str());
        append_chars(&mut out, &key);
        append_chars(&mut out, &equals);
        append_chars(&mut out, &value);
        i += 1;
    }
    assert(pairs_text(pairs@).take(pairs.len() as int) =~= pairs_text(pairs@));
    out
}

fn render_body(body: &Option<DynamicValue>, ctx: &EvalContext) -> (r: Result<Option<String>, ()>)
    ensures
        match body_rendered(*body, ctx@) {
            Ok(Some(t)) => r matches Ok(Some(s)) && s@ == t,
            Ok(None) => r == Ok::<Option<String>, ()>(None),
            Err(_) => r is Err,
        },
{
    match body {
        None => Ok(None),
        Some(template) => {
            match template.render(ctx) {
                Json::String(s) => Ok(Some(s)),
                other => match other.to_text() {
                    Ok(t) => Ok(Some(t)),
                    Err(_) => Err(()),
                },
            }
        },
    }
}

impl HttpRequestTemplate {
    /// The URL that the template renders to: the rendered root URL, then
    /// the rendered query parameters after `?`, with `&` between them.
    pub open spec fn spec_url(&self, ctx: ContextModel) -> Seq<char> {
        self.root_url.spec_render(ctx) + pairs_line(pairs_rendered(self.query@, ctx), "?"@, "&"@)
    }

    /// `r` is what the template renders to in a context: an HTTP request
    /// with the template's method, the rendered URL, each header with its
    /// rendered value and the rendered body; a failure where the body
    /// cannot be written as text.
    pub open spec fn renders(&self, ctx: ContextModel, r: Result<Request, ()>) -> bool {
        match body_rendered(self.body, ctx) {
            Ok(body) => r matches Ok(Request::Http { method, url, headers, body: b }) && method
                == self.method && url@ == self.spec_url(ctx) && pairs_text(headers@)
                == pairs_rendered(self.headers@, ctx) && match body {
                Some(t) => b matches Some(s) && s@ == t,
                None => b is None,
            },
            Err(_) => r is Err,
        }
    }

    /// Renders the request in a context. Fails where the body cannot be
    /// written as text.
    pub fn to_request(&self, ctx: &EvalContext) -> (r: Result<Request, ()>)
        ensures
            self.renders(ctx@, r),
    {
        let body = match render_body(&self.body, ctx) {
            Ok(b) => b,
            Err(_) => return Err(()),
        };
        let mut url = chars_of(self.root_url.render(ctx).as_str());
        let query = render_pairs(&self.query, ctx);
        let line = line_of(&query, "?", "&");
        append_chars(&mut url, &line);
        let headers = render_pairs(&self.headers, ctx);
        Ok(Request::Http { method: self.method, url: string_of(&url), headers, body })
    }
}

impl GraphqlRequestTemplate {
    /// `r` is what the template renders to in a context: a GraphQL request
    /// with the template's URL, operation type and operation name, each
    /// argument and header with its rendered value, and the rendered
    /// selection.
    pub open spec fn renders(&self, ctx: ContextModel, r: Request) -> bool {
        r matches Request::GraphQL {
            url,
            operation_type,
            operation_name,
            arguments,
            headers,
            selection,
        } && url@ == self.url@ && operation_type == self.operation_type && operation_name@
            == self.operation_name@ && pairs_text(arguments@) == pairs_rendered(
            self.operation_arguments@,
            ctx,
        ) && pairs_text(headers@) == pairs_rendered(self.headers@, ctx) && match self.selection {
            Some(m) => selection matches Some(s) && s@ == m.spec_render(ctx),
            None => selection is None,
        }
    }

    /// Renders the request in a context.
    pub fn to_request(&self, ctx: &EvalContext) -> (r: Request)
        ensures
            self.renders(ctx@, r),
    {
        let selection = match &self.selection {
            Some(m) => Some(m.render(ctx)),
            None => None,
        };
        Request::GraphQL {
            url: self.url.clone(),
            operation_type: self.operation_type,
            operation_name: self.operation_name.clone(),
            arguments: render_pairs(&self.operation_arguments, ctx),
            headers: render_pairs(&self.headers, ctx),
            selection,
        }
    }
}

impl GrpcRequestTemplate {
    /// `r` is what the template renders to in a context: a gRPC request
    /// with the rendered URL, the template's service and method, each
    /// header with its rendered value and the rendered message; a failure
    /// where the message cannot be written as text.
    pub open spec fn renders(&self, ctx: ContextModel, r: Result<Request, ()>) -> bool {
        match body_rendered(self.body, ctx) {
            Ok(body) => r matches Ok(Request::Grpc { url, service, method, headers, body: b })
                && url@ == self.url.spec_render(ctx) && service@ == self.service@ && method@
                == self.method@ && pairs_text(headers@) == pairs_rendered(self.headers@, ctx)
                && match body {
                Some(t) => b matches Some(s) && s@ == t,
                None => b is None,
            },
            Err(_) => r is Err,
        }
    }

    /// Renders the request in a context. Fails where the message cannot be
    /// written as text.
    pub fn to_request(&self, ctx: &EvalContext) -> (r: Result<Request, ()>)
        ensures
            self.renders(ctx@, r),
    {
        let body = match render_body(&self.body, ctx) {
            Ok(b) => b,
            Err(_) => return Err(()),
        };
        Ok(
            Request::Grpc {
                url: self.url.render(ctx),
                service: self.service.clone(),
                method: self.method.clone(),
                headers: render_pairs(&self.headers, ctx),
                body,
            },
        )
    }
}

impl Request {
    /// The request as one text: everything that can change the upstream's
    /// answer, part by part, each part on a line of its own.
    pub open spec fn canonical(&self) -> Seq<char> {
        match self {
            Request::Http { method, url, headers, body } => "http\n"@ + method_name(*method) + "\n"@
                + url@ + pairs_line(pairs_text(headers@), "\n"@, "\n"@) + optional_line(opt_text(*body)),
            Request::GraphQL {
                url,
                operation_type,
                operation_name,
                arguments,
                headers,
                selection,
            } => "graphql\n"@ + (match operation_type {
                OperationType::Query => "query"@,
                OperationType::Mutation => "mutation"@,
            }) + "\n"@ + url@ + "\n"@ + operation_name@ + pairs_line(
                pairs_text(arguments@),
                "\n"@,
                "\n"@,
            ) + pairs_line(pairs_text(headers@), "\n"@, "\n"@) + optional_line(opt_text(*selection)),
            Request::Grpc { url, service, method, headers, body } => "grpc\n"@ + url@ + "\n"@
                + service@ + "\n"@ + method@ + pairs_line(pairs_text(headers@), "\n"@, "\n"@)
                + optional_line(opt_text(*body)),
            Request::Js { name, .. } => "js\n"@ + name@,
        }
    }

    fn push_text(out: &mut Vec<char>, text: &str)
        ensures
            final(out)@ == old(out)@ + text@,
    {
        let chars = chars_of(text);
        append_chars(out, &chars);
    }

    fn push_optional(out: &mut Vec<char>, text: &Option<String>)
        ensures
            final(out)@ == old(out)@ + optional_line(opt_text(*text)),
    {
        match text {
            Some(t) => {
                let ghost before = out@;
                Self::push_text(out, "\n");
                Self::push_text(out, t.as_str());
                assert(out@ =~= before + ("\n"@ + t@));
            },
            None => {
                assert(out@ + Seq::<char>::empty() =~= out@);
            },
        }
    }

    fn push_pairs(out: &mut Vec<char>, pairs: &Vec<(String, String)>)
        ensures
            final(out)@ == old(out)@ + pairs_line(pairs_text(pairs@), "\n"@, "\n"@),
    {
        let line = line_of(pairs, "\n", "\n");
        append_chars(out, &line);
    }

    /// The fingerprint of the request.
    pub fn fingerprint(&self) -> (r: IoId)
        ensures
            r.value() == fingerprint(self.canonical()),
    {
        let mut out: Vec<char> = Vec::new();
        match self {
            Request::Http { method, url, headers, body } => {
                Self::push_text(&mut out, "http\n");
                Self::push_text(
                    &mut out,
                    match method {
                        Method::GET => "GET",
                        Method::POST => "POST",
                        Method::PUT => "PUT",
                        Method::PATCH => "PATCH",
                        Method::DELETE => "DELETE",
                        Method::HEAD => "HEAD",
                        Method::OPTIONS => "OPTIONS",
                        Method::CONNECT => "CONNECT",
                        Method::TRACE => "TRACE",
                    },
                );
                Self::push_text(&mut out, "\n");
                Self::push_text(&mut out, url.as_str());
                Self::push_pairs(&mut out, headers);
                Self::push_optional(&mut out, body);
                assert(out@ =~= self.canonical());
            },
            Request::GraphQL {
                url,
                operation_type,
                operation_name,
                arguments,
                headers,
                selection,
            } => {
                Self::push_text(&mut out, "graphql\n");
                Self::push_text(
                    &mut out,
                    match operation_type {
                        OperationType::Query => "query",
                        OperationType::Mutation => "mutation",
                    },
                );
                Self::push_text(&mut out, "\n");
                Self::push_text(&mut out, url.as_str());
                Self::push_text(&mut out, "\n");
                Self::push_text(&mut out, operation_name.as_str());
                Self::push_pairs(&mut out, arguments);
                Self::push_pairs(&mut out, headers);
                Self::push_optional(&mut out, selection);
                assert(out@ =~= self.canonical());
            },
            Request::Grpc { url, service, method, headers, body } => {
                Self::push_text(&mut out, "grpc\n");
                Self::push_text(&mut out, url.as_str());
                Self::push_text(&mut out, "\n");
                Self::push_text(&mut out, service.as_str());
                Self::push_text(&mut out, "\n");
                Self::push_text(&mut out, method.as_str());
                Self::push_pairs(&mut out, headers);
                Self::push_optional(&mut out, body);
                assert(out@ =~= self.canonical());
            },
            Request::Js { name, .. } => {
                Self::push_text(&mut out, "js\n");
                Self::push_text(&mut out, name.as_str());
                assert(out@ =~= self.canonical());
            },
        }
        IoId::new(fingerprint_of(&out))
    }
}

impl IO {
    /// The one text of the request that the call renders to in a context;
    /// none for a script call, and none where the body cannot be written.
    pub open spec fn spec_canonical(&self, ctx: ContextModel) -> Option<Seq<char>> {
        match self {
            IO::Http { req_template, .. } => match body_rendered(req_template.body, ctx) {
                Ok(body) => Some(
                    "http\n"@ + method_name(req_template.method) + "\n"@ + req_template.spec_url(
                        ctx,
                    ) + pairs_line(pairs_rendered(req_template.headers@, ctx), "\n"@, "\n"@)
                        + optional_line(body),
                ),
                Err(_) => None,
            },
            IO::GraphQL { req_template, .. } => Some(
                "graphql\n"@ + (match req_template.operation_type {
                    OperationType::Query => "query"@,
                    OperationType::Mutation => "mutation"@,
                }) + "\n"@ + req_template.url@ + "\n"@ + req_template.operation_name@ + pairs_line(
                    pairs_rendered(req_template.operation_arguments@, ctx),
                    "\n"@,
                    "\n"@,
                ) + pairs_line(pairs_rendered(req_template.headers@, ctx), "\n"@, "\n"@)
                    + optional_line(
                    match req_template.selection {
                        Some(m) => Some(m.spec_render(ctx)),
                        None => None,
                    },
                ),
            ),
            IO::Grpc { req_template, .. } => match body_rendered(req_template.body, ctx) {
                Ok(body) => Some(
                    "grpc\n"@ + req_template.url.spec_render(ctx) + "\n"@ + req_template.service@
                        + "\n"@ + req_template.method@ + pairs_line(
                        pairs_rendered(req_template.headers@, ctx),
                        "\n"@,
                        "\n"@,
                    ) + optional_line(body),
                ),
                Err(_) => None,
            },
            IO::Js { .. } => None,
        }
    }

    /// The fingerprint of the request that the call renders to in a
    /// context: it covers method, URL with query, headers, body, and for
    /// GraphQL the operation and selection.
    pub open spec fn spec_cache_key(&self, ctx: ContextModel) -> Option<u64> {
        match self.spec_canonical(ctx) {
            Some(text) => Some(fingerprint(text)),
            None => None,
        }
    }

    /// `r` is the request that the call renders to in a context: what its
    /// template renders to, part by part. A script call is a call of its
    /// function on the parent value, or on null where there is none.
    pub open spec fn renders(&self, ctx: ContextModel, r: Result<Request, ()>) -> bool {
        match self {
            IO::Http { req_template, .. } => req_template.renders(ctx, r),
            IO::GraphQL { req_template, .. } => r matches Ok(request) && req_template.renders(
                ctx,
                request,
            ),
            IO::Grpc { req_template, .. } => req_template.renders(ctx, r),
            IO::Js { name, .. } => r matches Ok(Request::Js { name: n, value }) && n@ == name@
                && value@ == match ctx.value {
                Some(v) => v,
                None => JsonValue::Null,
            },
        }
    }

    /// Renders the request of the call in a context. Where the call has a
    /// fingerprint, the request is the one whose text the fingerprint is
    /// taken of.
    pub fn to_request(&self, ctx: &EvalContext) -> (r: Result<Request, ()>)
        ensures
            self.renders(ctx@, r),
            !(self is Js) ==> match self.spec_canonical(ctx@) {
                Some(text) => r matches Ok(request) && request.canonical() == text,
                None => r is Err,
            },
    {
        match self {
            IO::Http { req_template, .. } => {
                let r = req_template.to_request(ctx);
                proof {
                    if r is Ok {
                        assert(r->Ok_0.canonical() =~= self.spec_canonical(ctx@)->0);
                    }
                }
                r
            },
            IO::GraphQL { req_template, .. } => {
                let request = req_template.to_request(ctx);
                assert(request.canonical() =~= self.spec_canonical(ctx@)->0);
                Ok(request)
            },
            IO::Grpc { req_template, .. } => {
                let r = req_template.to_request(ctx);
                proof {
                    if r is Ok {
                        assert(r->Ok_0.canonical() =~= self.spec_canonical(ctx@)->0);
                    }
                }
                r
            },
            IO::Js { name } => Ok(
                Request::Js {
                    name: name.clone(),
                    value: match ctx.value {
                        Some(v) => v.clone(),
                        None => Json::Null,
                    },
                },
            ),
        }
    }
}

impl<'a> CacheKey<EvalContext<'a>> for IO {
    /// The fingerprint of the request that the call renders to.
    fn cache_key(&self, ctx: &EvalContext<'a>) -> (r: Option<IoId>)
        ensures
            match r {
                Some(id) => self.spec_cache_key(ctx@) == Some(id.value()),
                None => self.spec_cache_key(ctx@) is None,
            },
    {
        match self {
            IO::Js { .. } => None,
            _ => match self.to_request(ctx) {
                Ok(request) => Some(request.fingerprint()),
                Err(_) => None,
            },
        }
    }
}

/// How a call reaches its upstream.
#[derive(Clone, Copy, Debug, PartialEq, Eq)]
pub enum Route {
    /// Through the data loader at this position of the registry.
    Loader(usize),
    /// Through the table that collapses identical calls, under this
    /// fingerprint.
    Dedupe(u64),
    /// Straight to the upstream.
    Direct,
}

impl IO {
    /// The data loader that the call is bound to.
    pub open spec fn spec_loader(&self) -> Option<usize> {
        match self {
            IO::Http { dl_id: Some(id), .. } => Some(id.index()),
            IO::GraphQL { dl_id: Some(id), .. } => Some(id.index()),
            IO::Grpc { dl_id: Some(id), .. } => Some(id.index()),
            _ => None,
        }
    }

    /// The way a call takes in a context: through its data loader where it
    /// is bound to one; else, where it collapses identical calls and has a
    /// fingerprint, through the table of such calls; else straight.
    pub open spec fn spec_route(&self, ctx: ContextModel) -> Route {
        match self.spec_loader() {
            Some(id) => Route::Loader(id),
            None => if self.spec_dedupe() {
                match self.spec_cache_key(ctx) {
                    Some(key) => Route::Dedupe(key),
                    None => Route::Direct,
                }
            } else {
                Route::Direct
            },
        }
    }

    /// The data loader that the call is bound to.
    pub fn loader(&self) -> (r: Option<usize>)
        ensures
            r == self.spec_loader(),
    {
        match self {
            IO::Http { dl_id: Some(id), .. } => Some(id.as_usize()),
            IO::GraphQL { dl_id: Some(id), .. } => Some(id.as_usize()),
            IO::Grpc { dl_id: Some(id), .. } => Some(id.as_usize()),
            _ => None,
        }
    }

    /// The way the call takes in a context.
    pub fn route<'a>(&self, ctx: &EvalContext<'a>) -> (r: Route)
        ensures
            r == self.spec_route(ctx@),
    {
        match self.loader() {
            Some(id) => Route::Loader(id),
            None => {
                if self.dedupe() {
                    match self.cache_key(ctx) {
                        Some(key) => Route::Dedupe(key.as_u64()),
                        None => Route::Direct,
                    }
                } else {
                    Route::Direct
                }
            },
        }
    }
}

/// The name of the query parameter that carries the key of a batched
/// call: the one that is set, else `id`.
pub open spec fn batch_name(group_by: GroupBy) -> Seq<char> {
    match group_by.key {
        Some(name) => name@,
        None => "id"@,
    }
}

impl IO {
    /// The name and the key under which an HTTP call joins a batch in a
    /// context: the name of the query parameter that carries the key, and
    /// what the first query parameter of that name renders to. None where
    /// the call is not grouped or has no such parameter.
    pub open spec fn spec_batch_key(&self, ctx: ContextModel) -> Option<(Seq<char>, Seq<char>)> {
        match self {
            IO::Http { req_template, group_by: Some(group_by), .. } => match position(
                req_template.query@,
                batch_name(*group_by),
            ) {
                Some(i) => Some((batch_name(*group_by), req_template.query@[i].1.spec_render(ctx))),
                None => None,
            },
            _ => None,
        }
    }

    /// The name and the key under which the call joins a batch.
    pub fn batch_key<'a>(&self, ctx: &EvalContext<'a>) -> (r: Option<(String, String)>)
        ensures
            match r {
                Some((name, key)) => self.spec_batch_key(ctx@) == Some((name@, key@)),
                None => self.spec_batch_key(ctx@) is None,
            },
    {
        match self {
            IO::Http { req_template, group_by: Some(group_by), .. } => {
                let name = match &group_by.key {
                    Some(name) => name.clone(),
                    None => String::from_str("id"),
                };
                match find_index(&req_template.query, name.as_str()) {
                    Some(i) => {
                        let key = req_template.query[i].1.render(ctx);
                        Some((name, key))
                    },
                    None => None,
                }
            },
            _ => None,
        }
    }
}

/// What an upstream answered: its status and the text of the body.
#[derive(Clone, Debug, PartialEq, Eq)]
pub struct Response {
    pub status: u16,
    pub body: String,
}

impl IO {
    /// Whether a status is a success for the kind of call: for an HTTP or
    /// GraphQL call a status from 200 to 299, for a gRPC call the status 0;
    /// a script call has no status that could fail.
    pub open spec fn spec_succeeds(&self, status: u16) -> bool {
        match self {
            IO::Http { .. } => 200 <= status <= 299,
            IO::GraphQL { .. } => 200 <= status <= 299,
            IO::Grpc { .. } => status == 0,
            IO::Js { .. } => true,
        }
    }

    /// Whether the call expects a list.
    pub open spec fn spec_expects_list(&self) -> bool {
        match self {
            IO::Http { is_list, .. } => *is_list,
            _ => false,
        }
    }

    /// What the answer of an upstream is read as: the JSON value of its
    /// body. A status that is no success fails with that status; a body
    /// that is no JSON, or no list where the call expects one, has not the
    /// expected shape.
    pub open spec fn spec_read(&self, response: Response) -> Result<JsonValue, EvalError> {
        if !self.spec_succeeds(response.status) {
            Err(EvalError::UpstreamStatus { code: response.status })
        } else {
            match parsed(response.body@) {
                None => Err(EvalError::DeserializeFailed),
                Some(v) => if self.spec_expects_list() && !(v is Array) {
                    Err(EvalError::DeserializeFailed)
                } else {
                    Ok(v)
                },
            }
        }
    }

    /// Whether a status is a success for the kind of call.
    pub fn succeeds(&self, status: u16) -> (r: bool)
        ensures
            r == self.spec_succeeds(status),
    {
        match self {
            IO::Http { .. } => 200 <= status && status <= 299,
            IO::GraphQL { .. } => 200 <= status && status <= 299,
            IO::Grpc { .. } => status == 0,
            IO::Js { .. } => true,
        }
    }

    /// Reads the answer of an upstream.
    pub fn read(&self, response: &Response) -> (r: Result<Json, EvalError>)
        ensures
            match self.spec_read(*response) {
                Ok(v) => r matches Ok(j) && j@ == v,
                Err(e) => r == Err::<Json, EvalError>(e),
            },
    {
        if !self.succeeds(response.status) {
            return Err(EvalError::UpstreamStatus { code: response.status });
        }
        let expects_list = match self {
            IO::Http { is_list, .. } => *is_list,
            _ => false,
        };
        match Json::parse(response.body.as_str()) {
            Err(_) => Err(EvalError::DeserializeFailed),
            Ok(value) => {
                let is_array = match &value {
                    Json::Array(_) => true,
                    _ => false,
                };
                if expects_list && !is_array {
                    Err(EvalError::DeserializeFailed)
                } else {
                    Ok(value)
                }
            },
        }
    }
}

} // verus!
