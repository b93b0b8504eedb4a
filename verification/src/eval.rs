//! Evaluation of a resolver for one field. What only the outside can do, an
//! upstream call or a check of credentials, is not done here: evaluation
//! reads the answers already obtained, in the order in which it needs them,
//! and where the next one is missing it says what to obtain.

use vstd::prelude::*;

use crate::auth::Auth;
use crate::cache::{
    CacheStore, lemma_expired_is_not_served, lemma_stored_is_served, lemma_touched_wf, StoreModel,
};
use crate::context::{ContextModel, EvalContext, get_entry, object_get, path_texts, select};
use crate::entries::{find, find_index, lookup, position};
use crate::ir::{Cache, CacheKey, IO, IR};
use crate::json::{Json, JsonValue};
use crate::template::dynamic_rendered;

verus! {

/// Why a field could not be resolved.
#[derive(Clone, Copy, Debug, PartialEq, Eq, Structural)]
pub enum EvalError {
    /// A template refers to a path that was required and is absent.
    TemplateRenderFailed,
    /// The network or transport failed.
    UpstreamIo,
    /// The upstream answered with a status that is not a success.
    UpstreamStatus { code: u16 },
    /// The upstream's response did not have the expected shape.
    DeserializeFailed,
    /// A deadline passed.
    Timeout,
    /// The credentials were refused.
    Unauthorized,
    /// A lookup table has no entry for the key.
    MapKeyMissing,
    /// A path selects nothing where a value is required.
    PathNotFound,
    /// No concrete type could be picked for a value.
    DiscriminatorFailed,
    /// A batched response could not be split among its requests.
    BatchPartition,
    /// The task was cancelled.
    Cancelled,
}

/// How far an evaluation got.
#[derive(Debug)]
pub enum Step<'a> {
    /// The field is resolved, to a value or to an error.
    Done(Result<Json, EvalError>),
    /// The credentials have to be checked against `auth` first.
    NeedAuth(&'a Auth),
    /// The call `io` has to be made first, with `value` as the parent value.
    NeedIo { io: &'a IO, value: Option<Json> },
}

/// The mathematical content of a [`Step`].
pub ghost enum StepModel {
    Done(Result<JsonValue, EvalError>),
    NeedAuth(Auth),
    NeedIo { io: IO, value: Option<JsonValue> },
}

impl<'a> View for Step<'a> {
    type V = StepModel;

    open spec fn view(&self) -> StepModel {
        match self {
            Step::Done(Ok(v)) => StepModel::Done(Ok(v@)),
            Step::Done(Err(e)) => StepModel::Done(Err(*e)),
            Step::NeedAuth(auth) => StepModel::NeedAuth(**auth),
            Step::NeedIo { io, value } => StepModel::NeedIo {
                io: **io,
                value: match value {
                    Some(v) => Some(v@),
                    None => None,
                },
            },
        }
    }
}

/// What an evaluation works with besides the context: the result cache,
/// the time, the answers obtained from outside so far with the number of
/// them that were read, and the deferred nodes met.
pub struct Session {
    pub store: CacheStore,
    /// The time, in milliseconds.
    pub now: u64,
    pub answers: Vec<Result<Json, EvalError>>,
    pub used: usize,
    pub deferred: Vec<u64>,
}

/// The mathematical content of a [`Session`].
pub ghost struct SessionModel {
    pub store: StoreModel,
    pub now: u64,
    pub answers: Seq<Result<JsonValue, EvalError>>,
    pub used: nat,
    pub deferred: Seq<u64>,
}

/// The mathematical content of a list of answers.
pub open spec fn answers_model(answers: Seq<Result<Json, EvalError>>) -> Seq<
    Result<JsonValue, EvalError>,
> {
    Seq::new(
        answers.len(),
        |i: int|
            match answers[i] {
                Ok(v) => Ok(v@),
                Err(e) => Err(e),
            },
    )
}

impl View for Session {
    type V = SessionModel;

    open spec fn view(&self) -> SessionModel {
        SessionModel {
            store: self.store@,
            now: self.now,
            answers: answers_model(self.answers@),
            used: self.used as nat,
            deferred: self.deferred@,
        }
    }
}

/// The text that a value gives as the key of a lookup table: a string as
/// it is, a number as its digits, a boolean as `true` or `false`; nothing
/// else is a key.
pub open spec fn key_text(v: JsonValue) -> Option<Seq<char>> {
    match v {
        JsonValue::String(s) => Some(s),
        JsonValue::Number(n) => Some(n),
        JsonValue::Bool(b) => Some(
            if b {
                "true"@
            } else {
                "false"@
            },
        ),
        _ => None,
    }
}

/// The name of the type that an entity representation asks for.
pub open spec fn entity_typename(ctx: ContextModel) -> Option<Seq<char>> {
    match ctx.value {
        Some(JsonValue::Object(entries)) => match object_get(entries, "__typename"@) {
            Some(JsonValue::String(t)) => Some(t),
            _ => None,
        },
        _ => None,
    }
}

/// Reading the next answer: the answer and the session after it was read,
/// or nothing where no answer is left.
pub open spec fn next_answer(s: SessionModel) -> Option<
    (Result<JsonValue, EvalError>, SessionModel),
> {
    if s.used < s.answers.len() {
        Some((s.answers[s.used as int], SessionModel { used: s.used + 1, ..s }))
    } else {
        None
    }
}

/// What a call evaluates to: the next answer, or the need to make the call.
pub open spec fn call_step(io: IO, ctx: ContextModel, s: SessionModel) -> (StepModel, SessionModel) {
    match next_answer(s) {
        Some((answer, after)) => (StepModel::Done(answer), after),
        None => (StepModel::NeedIo { io, value: ctx.value }, s),
    }
}

/// What a cached call evaluates to. Where the call has a fingerprint and
/// the cache serves a value for it, that value, with no call made. Else
/// what the call evaluates to, and where that is a value and the call has
/// a fingerprint, the value is stored. An error is never stored.
pub open spec fn cached_step(max_age: u64, io: IO, ctx: ContextModel, s: SessionModel) -> (
    StepModel,
    SessionModel,
) {
    match io.spec_cache_key(ctx) {
        None => call_step(io, ctx, s),
        Some(key) => {
            let looked = SessionModel { store: s.store.touched(key, s.now), ..s };
            match s.store.lookup(key, s.now) {
                Some(v) => (StepModel::Done(Ok(v)), looked),
                None => match call_step(io, ctx, looked) {
                    (StepModel::Done(Ok(v)), after) => (
                        StepModel::Done(Ok(v)),
                        SessionModel { store: after.store.stored(key, v, s.now, max_age), ..after },
                    ),
                    other => other,
                },
            }
        },
    }
}

/// What the resolver `ir` evaluates to in the context `ctx`, and the
/// session after the evaluation.
pub open spec fn eval_spec(ir: &IR, ctx: ContextModel, s: SessionModel) -> (StepModel, SessionModel)
    decreases ir,
{
    match ir {
        IR::Dynamic(value) => (StepModel::Done(Ok(dynamic_rendered(value, ctx))), s),
        IR::IO(io) => call_step(*io, ctx, s),
        IR::Cache(cache) => cached_step(cache.max_age, *cache.io, ctx, s),
        IR::Path(inner, path) => match eval_spec(inner, ctx, s) {
            (StepModel::Done(Ok(v)), after) => (
                StepModel::Done(
                    Ok(
                        match select(v, path_texts(path@)) {
                            Some(found) => found,
                            None => JsonValue::Null,
                        },
                    ),
                ),
                after,
            ),
            other => other,
        },
        IR::ContextPath(path) => (
            StepModel::Done(
                Ok(
                    match ctx.path_value(path_texts(path@)) {
                        Some(found) => found,
                        None => JsonValue::Null,
                    },
                ),
            ),
            s,
        ),
        IR::Protect(auth, inner) => match next_answer(s) {
            Some((Ok(_), after)) => eval_spec(inner, ctx, after),
            Some((Err(_), after)) => (StepModel::Done(Err(EvalError::Unauthorized)), after),
            None => (StepModel::NeedAuth(*auth), s),
        },
        IR::MapLookup(table) => match eval_spec(&table.input, ctx, s) {
            (StepModel::Done(Ok(v)), after) => (
                StepModel::Done(
                    match key_text(v) {
                        Some(key) => match lookup(table.map@, key) {
                            Some(text) => Ok(JsonValue::String(text@)),
                            None => Err(EvalError::MapKeyMissing),
                        },
                        None => Err(EvalError::MapKeyMissing),
                    },
                ),
                after,
            ),
            other => other,
        },
        IR::Pipe(first, second) => match eval_spec(first, ctx, s) {
            (StepModel::Done(Ok(v)), after) => eval_spec(second, ctx.with_value(v), after),
            other => other,
        },
        IR::Discriminate(discriminator, inner) => match eval_spec(inner, ctx, s) {
            (StepModel::Done(Ok(v)), after) => (
                StepModel::Done(
                    match discriminator.spec_tag(v) {
                        Some(tagged) => Ok(tagged),
                        None => Err(EvalError::DiscriminatorFailed),
                    },
                ),
                after,
            ),
            other => other,
        },
        IR::Entity(entries) => match entity_typename(ctx) {
            Some(typename) => match position(entries@, typename) {
                Some(i) => if 0 <= i < entries.len() {
                    eval_spec(&entries[i].1, ctx, s)
                } else {
                    (StepModel::Done(Ok(JsonValue::Null)), s)
                },
                None => (StepModel::Done(Ok(JsonValue::Null)), s),
            },
            None => (StepModel::Done(Ok(JsonValue::Null)), s),
        },
        IR::Service(sdl) => (StepModel::Done(Ok(JsonValue::String(sdl@))), s),
        IR::Deferred { id, .. } => (
            StepModel::Done(Ok(JsonValue::Null)),
            SessionModel { deferred: s.deferred.push(id.index() as u64), ..s },
        ),
    }
}

/// Reads the next answer.
fn take_answer(s: &mut Session) -> (r: Option<Result<Json, EvalError>>)
    requires
        old(s).store@.wf(),
    ensures
        final(s).store@.wf(),
        match next_answer(old(s)@) {
            Some((answer, after)) => final(s)@ == after && match r {
                Some(Ok(v)) => answer == Ok::<JsonValue, EvalError>(v@),
                Some(Err(e)) => answer == Err::<JsonValue, EvalError>(e),
                None => false,
            },
            None => r is None && final(s)@ == old(s)@,
        },
{
    if s.used < s.answers.len() {
        let answer = match &s.answers[s.used] {
            Ok(v) => Ok(v.clone()),
            Err(e) => Err(*e),
        };
        s.used = s.used + 1;
        Some(answer)
    } else {
        None
    }
}

/// Evaluates a call.
fn call<'a>(io: &'a IO, ctx: &EvalContext, s: &mut Session) -> (r: Step<'a>)
    requires
        old(s).store@.wf(),
    ensures
        final(s).store@.wf(),
        r@ == call_step(*io, ctx@, old(s)@).0,
        final(s)@ == call_step(*io, ctx@, old(s)@).1,
{
    match take_answer(s) {
        Some(answer) => Step::Done(answer),
        None => Step::NeedIo {
            io,
            value: match ctx.value {
                Some(v) => Some(v.clone()),
                None => None,
            },
        },
    }
}

/// Evaluates a cached call.
fn cached<'a>(max_age: u64, io: &'a IO, ctx: &EvalContext, s: &mut Session) -> (r: Step<'a>)
    requires
        old(s).store@.wf(),
    ensures
        final(s).store@.wf(),
        r@ == cached_step(max_age, *io, ctx@, old(s)@).0,
        final(s)@ == cached_step(max_age, *io, ctx@, old(s)@).1,
{
    match io.cache_key(ctx) {
        None => call(io, ctx, s),
        Some(id) => {
            let key = id.as_u64();
            let now = s.now;
            match s.store.get(key, now) {
                Some(v) => Step::Done(Ok(v)),
                None => match call(io, ctx, s) {
                    Step::Done(Ok(v)) => {
                        s.store.insert(key, v.clone(), now, max_age);
                        Step::Done(Ok(v))
                    },
                    other => other,
                },
            }
        },
    }
}

/// The text that `v` gives as the key of a lookup table.
pub fn key_of(v: &Json) -> (r: Option<String>)
    ensures
        match r {
            Some(k) => key_text(v@) == Some(k@),
            None => key_text(v@) is None,
        },
{
    match v {
        Json::String(s) => Some(s.clone()),
        Json::Number(n) => Some(n.clone()),
        Json::Bool(b) => Some(
            if *b {
                String::from_str("true")
            } else {
                String::from_str("false")
            },
        ),
        _ => None,
    }
}

/// The name of the type that the entity representation asks for.
fn typename_of<'b>(ctx: &EvalContext<'b>) -> (r: Option<&'b String>)
    ensures
        match r {
            Some(t) => entity_typename(ctx@) == Some(t@),
            None => entity_typename(ctx@) is None,
        },
{
    match ctx.value {
        Some(Json::Object(entries)) => match get_entry(entries, "__typename") {
            Some(Json::String(t)) => Some(t),
            _ => None,
        },
        _ => None,
    }
}

/// Evaluates the resolver `ir` in the context `ctx`, as far as the answers
/// of the session reach.
pub fn eval<'a>(ir: &'a IR, ctx: &EvalContext, s: &mut Session) -> (r: Step<'a>)
    ensures
        r@ == eval_spec(ir, ctx@, old(s)@).0,
        final(s)@ == eval_spec(ir, ctx@, old(s)@).1,
    decreases ir,
{
    let _ = s.store.len();
    match ir {
        IR::Dynamic(value) => Step::Done(Ok(value.render(ctx))),
        IR::IO(io) => call(io, ctx, s),
        IR::Cache(cache) => cached(cache.max_age, &*cache.io, ctx, s),
        IR::Path(inner, path) => match eval(&**inner, ctx, s) {
            Step::Done(Ok(v)) => Step::Done(
                Ok(
                    match v.get_path(path) {
                        Some(found) => found.clone(),
                        None => Json::Null,
                    },
                ),
            ),
            other => other,
        },
        IR::ContextPath(path) => Step::Done(
            Ok(
                match ctx.path_value(path) {
                    Some(found) => found,
                    None => Json::Null,
                },
            ),
        ),
        IR::Protect(auth, inner) => match take_answer(s) {
            Some(Ok(_)) => eval(&**inner, ctx, s),
            Some(Err(_)) => Step::Done(Err(EvalError::Unauthorized)),
            None => Step::NeedAuth(auth),
        },
        IR::MapLookup(table) => match eval(&*table.input, ctx, s) {
            Step::Done(Ok(v)) => Step::Done(
                match key_of(&v) {
                    Some(key) => match find(&table.map, key.as_str()) {
                        Some(text) => Ok(Json::String(text.clone())),
                        None => Err(EvalError::MapKeyMissing),
                    },
                    None => Err(EvalError::MapKeyMissing),
                },
            ),
            other => other,
        },
        IR::Pipe(first, second) => match eval(&**first, ctx, s) {
            Step::Done(Ok(v)) => {
                let inner = ctx.with_value(&v);
                eval(&**second, &inner, s)
            },
            other => other,
        },
        IR::Discriminate(discriminator, inner) => match eval(&**inner, ctx, s) {
            Step::Done(Ok(v)) => Step::Done(
                match discriminator.tag(v) {
                    Some(tagged) => Ok(tagged),
                    None => Err(EvalError::DiscriminatorFailed),
                },
            ),
            other => other,
        },
        IR::Entity(entries) => match typename_of(ctx) {
            Some(typename) => match find_index(entries, typename.as_str()) {
                Some(i) => {
                    proof {
                        assert(ir->Entity_0 == *entries);
                        assert(decreases_to!(*ir => ir->Entity_0));
                        assert(decreases_to!(*entries => entries[i as int]));
                        assert(decreases_to!(entries[i as int] => entries[i as int].1));
                    }
                    eval(&entries[i].1, ctx, s)
                },
                None => Step::Done(Ok(Json::Null)),
            },
            None => Step::Done(Ok(Json::Null)),
        },
        IR::Service(sdl) => Step::Done(Ok(Json::String(sdl.clone()))),
        IR::Deferred { id, .. } => {
            s.deferred.push(id.as_u64());
            Step::Done(Ok(Json::Null))
        },
    }
}

/// The session that an evaluation starts from: the cache as it is, the
/// time, and the answers obtained so far, none of them read.
pub open spec fn fresh(store: StoreModel, now: u64, answers: Seq<Result<JsonValue, EvalError>>) -> SessionModel {
    SessionModel { store, now, answers, used: 0, deferred: Seq::empty() }
}

/// Evaluates the resolver `ir` from the start, with the cache as it was
/// before the evaluation was first tried and the answers obtained since.
/// An evaluation that ends in the need of an answer is tried again in this
/// way once the answer is there; the cache of the session that is handed
/// back takes the place of `store` only when the evaluation is done.
pub fn attempt<'a>(
    ir: &'a IR,
    ctx: &EvalContext,
    store: &CacheStore,
    now: u64,
    answers: Vec<Result<Json, EvalError>>,
) -> (r: (Step<'a>, Session))
    ensures
        r.0@ == eval_spec(ir, ctx@, fresh(store@, now, answers_model(answers@))).0,
        r.1@ == eval_spec(ir, ctx@, fresh(store@, now, answers_model(answers@))).1,
{
    let mut session = Session { store: store.clone(), now, answers, used: 0, deferred: Vec::new() };
    let step = eval(ir, ctx, &mut session);
    (step, session)
}

/// A path that is absent from the context evaluates to null, and leaves
/// the session as it was.
pub proof fn lemma_absent_path_is_null(path: Vec<String>, ctx: ContextModel, s: SessionModel)
    requires
        ctx.path_value(path_texts(path@)) is None,
    ensures
        eval_spec(&IR::ContextPath(path), ctx, s) == (StepModel::Done(Ok(JsonValue::Null)), s),
{
}

/// In a pipe, the right side is evaluated only once the left side has
/// given a value, and then in a context whose parent value is that value.
/// Where the left side gives no value, the pipe ends as the left side does.
pub proof fn lemma_pipe_binds_value(first: IR, second: IR, ctx: ContextModel, s: SessionModel)
    ensures
        match eval_spec(&first, ctx, s) {
            (StepModel::Done(Ok(v)), after) => eval_spec(
                &IR::Pipe(Box::new(first), Box::new(second)),
                ctx,
                s,
            ) == eval_spec(&second, ctx.with_value(v), after) && ctx.with_value(v).value == Some(
                v,
            ),
            other => eval_spec(&IR::Pipe(Box::new(first), Box::new(second)), ctx, s) == other,
        },
{
}

/// A cached call that missed the cache and gave a value has made one call.
/// Evaluated again before `max_age` has passed, it gives the same value
/// and makes no call; evaluated again from then on, it makes a call again.
pub proof fn lemma_cache_ttl(cache: Cache, ctx: ContextModel, s: SessionModel, later: SessionModel)
    requires
        s.store.wf(),
        s.store.capacity > 0,
        cache.max_age > 0,
        s.now + cache.max_age <= u64::MAX,
        cache.io.spec_cache_key(ctx) matches Some(key) && s.store.lookup(key, s.now) is None,
        eval_spec(&IR::Cache(cache), ctx, s).0 is Done,
        eval_spec(&IR::Cache(cache), ctx, s).0->Done_0 is Ok,
        later.store == eval_spec(&IR::Cache(cache), ctx, s).1.store,
        s.now <= later.now,
    ensures
        eval_spec(&IR::Cache(cache), ctx, s).1.used == s.used + 1,
        later.now < s.now + cache.max_age ==> eval_spec(&IR::Cache(cache), ctx, later).0
            == eval_spec(&IR::Cache(cache), ctx, s).0 && eval_spec(
            &IR::Cache(cache),
            ctx,
            later,
        ).1.used == later.used,
        later.now >= s.now + cache.max_age ==> eval_spec(&IR::Cache(cache), ctx, later).0 == call_step(
            *cache.io,
            ctx,
            later,
        ).0 && eval_spec(&IR::Cache(cache), ctx, later).1.used == call_step(
            *cache.io,
            ctx,
            later,
        ).1.used,
{
    let key = cache.io.spec_cache_key(ctx)->0;
    let looked = s.store.touched(key, s.now);
    lemma_touched_wf(s.store, key, s.now);
    let v = eval_spec(&IR::Cache(cache), ctx, s).0->Done_0->Ok_0;
    if later.now < s.now + cache.max_age {
        lemma_stored_is_served(looked, key, v, s.now, cache.max_age, later.now);
    } else {
        lemma_expired_is_not_served(looked, key, v, s.now, cache.max_age, later.now);
    }
}

} // verus!
