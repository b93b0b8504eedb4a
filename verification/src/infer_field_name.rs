//! Better names for generated fields, as suggested by a language model.
//! The model is asked from outside: here are the question for a field, what
//! is made of an answer, and how the asking goes on.

use vstd::prelude::*;

use crate::config::{Config, Field, fields_distinct, Resolver, Type, types_model};
use crate::context::{EvalContext, get_entry, object_get};
use crate::entries::{find_index, position, unique_keys};
use crate::json::{Json, JsonError, JsonValue, parsed, rendered};
use crate::loader::values;
use crate::names::NameSet;
use crate::request::method_name;
use crate::template::{Method, Mustache};
use crate::text::{append_chars, chars_of, string_of};

verus! {

/// Why no name could be inferred.
#[derive(Clone, Debug, PartialEq, Eq)]
pub enum InferError {
    /// The model could not be reached, or refused.
    GenAI(String),
    /// The model answered nothing.
    EmptyResponse,
    /// The answer is no JSON, or not of the expected shape.
    Serde(JsonError),
    /// Anything else, in words.
    Message(String),
}

/// What the model is asked about: the endpoint behind a field.
#[derive(Clone, Debug, PartialEq, Eq)]
pub struct Question {
    pub url: String,
    pub method: String,
}

/// What the model answers: names for the field, the best first.
#[derive(Clone, Debug, PartialEq, Eq)]
pub struct Answer {
    pub suggestions: Vec<String>,
}

/// Where a field gets a new name.
#[derive(Clone, Debug, PartialEq, Eq)]
pub struct FieldLocation {
    pub new_field_name: String,
    /// The name of the type that the field belongs to.
    pub owner: String,
}

/// Asks a language model for names of fields.
#[derive(Clone, Debug)]
pub struct InferFieldName {
    pub model: String,
    pub secret: Option<String>,
}

/// The texts of a list of strings, where every item is a string.
pub open spec fn strings_of(items: Seq<JsonValue>) -> Option<Seq<Seq<char>>>
    decreases items.len(),
{
    if items.len() == 0 {
        Some(Seq::empty())
    } else {
        match (strings_of(items.drop_last()), items.last()) {
            (Some(front), JsonValue::String(s)) => Some(front.push(s)),
            _ => None,
        }
    }
}

/// The suggestions that a JSON value holds: those of its entry
/// `suggestions`, which must be a list of strings.
pub open spec fn suggestions_of(v: JsonValue) -> Option<Seq<Seq<char>>> {
    match v {
        JsonValue::Object(entries) => match object_get(entries, "suggestions"@) {
            Some(JsonValue::Array(items)) => strings_of(items),
            _ => None,
        },
        _ => None,
    }
}

/// What is made of the text of the model's response.
pub open spec fn answer_of(content: Option<Seq<char>>) -> Result<Seq<Seq<char>>, InferError> {
    match content {
        None => Err(InferError::EmptyResponse),
        Some(text) => match parsed(text) {
            None => Err(InferError::Serde(JsonError::Parse)),
            Some(v) => match suggestions_of(v) {
                Some(names) => Ok(names),
                None => Err(InferError::Serde(JsonError::Parse)),
            },
        },
    }
}

/// The texts of a list of strings.
pub open spec fn texts(names: Seq<String>) -> Seq<Seq<char>> {
    names.map_values(|s: String| s@)
}

impl Answer {
    /// Reads the suggestions out of a JSON value.
    pub fn from_json(v: &Json) -> (r: Option<Answer>)
        ensures
            match r {
                Some(answer) => suggestions_of(v@) == Some(texts(answer.suggestions@)),
                None => suggestions_of(v@) is None,
            },
    {
        match v {
            Json::Object(entries) => match get_entry(entries, "suggestions") {
                Some(Json::Array(items)) => {
                    let ghost all = values(items@);
                    assert(all =~= Json::Array(*items)@->Array_0);
                    let mut suggestions: Vec<String> = Vec::new();
                    let mut i: usize = 0;
                    assert(all.take(0) =~= Seq::<JsonValue>::empty());
                    assert(texts(suggestions@) =~= Seq::<Seq<char>>::empty());
                    assert(suggestions_of(v@) == strings_of(all));
                    while i < items.len()
                        invariant
                            i <= items.len(),
                            all == values(items@),
                            suggestions_of(v@) == strings_of(all),
                            strings_of(all.take(i as int)) == Some(texts(suggestions@)),
                        decreases items.len() - i,
                    {
                        proof {
                            let next = all.take(i + 1);
                            assert(next.drop_last() =~= all.take(i as int));
                            assert(next.last() == items@[i as int]@);
                            lemma_strings_of_prefix(all, i + 1);
                        }
                        match &items[i] {
                            Json::String(s) => {
                                let ghost before = texts(suggestions@);
                                suggestions.push(s.clone());
                                assert(texts(suggestions@) =~= before.push(s@));
                            },
                            _ => {
                                assert(strings_of(all.take(i + 1)) is None);
                                return None;
                            },
                        }
                        i += 1;
                    }
                    assert(all.take(items.len() as int) =~= all);
                    Some(Answer { suggestions })
                },
                _ => None,
            },
            _ => None,
        }
    }

    /// What is made of the text of the model's response.
    pub fn try_from(content: Option<&str>) -> (r: Result<Answer, InferError>)
        ensures
            match answer_of(
                match content {
                    Some(t) => Some(t@),
                    None => None,
                },
            ) {
                Ok(names) => r matches Ok(answer) && texts(answer.suggestions@) == names,
                Err(e) => r == Err::<Answer, InferError>(e),
            },
    {
        match content {
            None => Err(InferError::EmptyResponse),
            Some(text) => match Json::parse(text) {
                Err(e) => Err(InferError::Serde(e)),
                Ok(v) => match Answer::from_json(&v) {
                    Some(answer) => Ok(answer),
                    None => Err(InferError::Serde(JsonError::Parse)),
                },
            },
        }
    }
}

/// A list with an item that is no string holds no list of strings,
/// whatever follows the item.
proof fn lemma_strings_of_prefix(items: Seq<JsonValue>, upto: int)
    requires
        0 <= upto <= items.len(),
    ensures
        strings_of(items.take(upto)) is None ==> strings_of(items) is None,
    decreases items.len() - upto,
{
    if upto < items.len() {
        assert(items.take(upto + 1).drop_last() =~= items.take(upto));
        lemma_strings_of_prefix(items, upto + 1);
    } else {
        assert(items.take(upto) =~= items);
    }
}

impl Question {
    /// The question as the JSON text that is sent to the model.
    pub open spec fn spec_json(&self) -> JsonValue {
        JsonValue::Object(
            seq![
                ("url"@, JsonValue::String(self.url@)),
                ("method"@, JsonValue::String(self.method@)),
            ],
        )
    }

    /// The question as the JSON text that is sent to the model.
    pub fn to_json_text(&self) -> (r: Result<String, InferError>)
        ensures
            match rendered(self.spec_json()) {
                Some(t) => r matches Ok(s) && s@ == t,
                None => r == Err::<String, InferError>(InferError::Serde(JsonError::Serialize)),
            },
    {
        let mut entries: Vec<(String, Json)> = Vec::new();
        entries.push((String::from_str("url"), Json::String(self.url.clone())));
        entries.push((String::from_str("method"), Json::String(self.method.clone())));
        assert(entries@[0].0@ == "url"@ && entries@[0].1@ == JsonValue::String(self.url@));
        assert(entries@[1].0@ == "method"@ && entries@[1].1@ == JsonValue::String(self.method@));
        let ghost list = entries@;
        let value = Json::Object(entries);
        assert(value@->Object_0.len() == 2);
        assert(value@->Object_0[0] == (list[0].0@, list[0].1@));
        assert(value@->Object_0[1] == (list[1].0@, list[1].1@));
        assert(value@->Object_0[0] == ("url"@, JsonValue::String(self.url@)));
        assert(value@->Object_0[1] == ("method"@, JsonValue::String(self.method@)));
        assert(value@->Object_0 =~= self.spec_json()->Object_0);
        match value.to_text() {
            Ok(t) => Ok(t),
            Err(e) => Err(InferError::Serde(e)),
        }
    }
}

impl InferFieldName {
    pub fn new(model: String, secret: Option<String>) -> (r: InferFieldName)
        ensures
            r.model == model,
            r.secret == secret,
    {
        Self { model, secret }
    }
}

/// The endpoint of a resolver: its own base URL, or else that of the
/// upstream, for HTTP followed by the path.
pub open spec fn endpoint_of(config: &Config, resolver: Resolver) -> Result<
    (Seq<char>, Seq<char>),
    (),
> {
    match resolver {
        Resolver::Http(http) => match http.base_url {
            Some(url) => Ok((url@, method_name(http.method))),
            None => match config.upstream.base_url {
                Some(base) => Ok((base@ + http.path@, method_name(http.method))),
                None => Err(()),
            },
        },
        Resolver::Grpc(grpc) => match grpc.base_url {
            Some(url) => Ok((url@, grpc.method@)),
            None => match config.upstream.base_url {
                Some(base) => Ok((base@, grpc.method@)),
                None => Err(()),
            },
        },
        _ => Err(()),
    }
}

fn method_text(method: Method) -> (r: String)
    ensures
        r@ == method_name(method),
{
    String::from_str(
        match method {
            Method::GET => "GET",
            Method::POST => "POST",
            Method::PUT => "PUT",
            Method::PATCH => "PATCH",
            Method::DELETE => "DELETE",
            Method::HEAD => "HEAD",
            Method::OPTIONS => "OPTIONS",
            Method::CONNECT => "CONNECT",
            Method::TRACE => "TRACE",
        },
    )
}

/// The question to ask for a field: none for a field without resolver. A
/// resolver that is neither HTTP nor gRPC, or that has no base URL, cannot
/// be asked about.
pub fn question_for(config: &Config, field: &Field) -> (r: Result<Option<Question>, InferError>)
    ensures
        match field.resolver {
            None => r == Ok::<Option<Question>, InferError>(None),
            Some(resolver) => match endpoint_of(config, resolver) {
                Ok((url, method)) => r matches Ok(Some(q)) && q.url@ == url && q.method@ == method,
                Err(_) => r matches Err(InferError::Message(_)),
            },
        },
{
    match &field.resolver {
        None => Ok(None),
        Some(Resolver::Http(http)) => {
            let url = match &http.base_url {
                Some(url) => url.clone(),
                None => match &config.upstream.base_url {
                    Some(base) => {
                        let mut chars = chars_of(base.as_str());
                        let path = chars_of(http.path.as_str());
                        append_chars(&mut chars, &path);
                        string_of(&chars)
                    },
                    None => {
                        return Err(
                            InferError::Message(String::from_str("Base URL is required for HTTP resolver")),
                        );
                    },
                },
            };
            Ok(Some(Question { url, method: method_text(http.method) }))
        },
        Some(Resolver::Grpc(grpc)) => {
            let url = match &grpc.base_url {
                Some(url) => url.clone(),
                None => match &config.upstream.base_url {
                    Some(base) => base.clone(),
                    None => {
                        return Err(
                            InferError::Message(String::from_str("Base URL is required for gRPC resolver")),
                        );
                    },
                },
            };
            Ok(Some(Question { url, method: grpc.method.clone() }))
        },
        Some(_) => Err(InferError::Message(String::from_str("Unsupported for other resolvers"))),
    }
}

/// Whether a type has a field of the name `name`.
pub open spec fn has_field(ty: &Type, name: Seq<char>) -> bool {
    position(ty.fields@, name) is Some
}

/// The first of the suggestions that is free: no field of the type has
/// the name, and it was not given to another field of the type before.
pub open spec fn first_free(suggestions: Seq<String>, ty: &Type, visited: Set<Seq<char>>) -> Option<
    int,
>
    decreases suggestions.len(),
{
    if suggestions.len() == 0 {
        None
    } else {
        match first_free(suggestions.drop_last(), ty, visited) {
            Some(i) => Some(i),
            None => if !has_field(ty, suggestions.last()@) && !visited.contains(
                suggestions.last()@,
            ) {
                Some(suggestions.len() - 1)
            } else {
                None
            },
        }
    }
}

/// Picks the new name of a field from the suggestions.
pub fn pick_name(suggestions: &Vec<String>, ty: &Type, visited: &NameSet) -> (r: Option<String>)
    ensures
        match r {
            Some(name) => first_free(suggestions@, ty, visited@) matches Some(i) && 0 <= i
                < suggestions@.len() && name == suggestions@[i],
            None => first_free(suggestions@, ty, visited@) is None,
        },
{
    let mut i: usize = 0;
    assert(suggestions@.take(0) =~= Seq::<String>::empty());
    while i < suggestions.len()
        invariant
            i <= suggestions.len(),
            first_free(suggestions@.take(i as int), ty, visited@) is None,
        decreases suggestions.len() - i,
    {
        proof {
            let next = suggestions@.take(i + 1);
            assert(next.drop_last() =~= suggestions@.take(i as int));
            assert(next.last() == suggestions@[i as int]);
            lemma_first_free_prefix(suggestions@, ty, visited@, i + 1);
        }
        let name = &suggestions[i];
        if find_index(&ty.fields, name.as_str()).is_none() && !visited.contains(name.as_str()) {
            return Some(name.clone());
        }
        i += 1;
    }
    assert(suggestions@.take(suggestions.len() as int) =~= suggestions@);
    None
}

/// What is free among the first suggestions is the first free suggestion.
proof fn lemma_first_free_prefix(
    suggestions: Seq<String>,
    ty: &Type,
    visited: Set<Seq<char>>,
    upto: int,
)
    requires
        0 <= upto <= suggestions.len(),
    ensures
        first_free(suggestions.take(upto), ty, visited) is Some ==> first_free(
            suggestions,
            ty,
            visited,
        ) == first_free(suggestions.take(upto), ty, visited),
    decreases suggestions.len() - upto,
{
    if upto < suggestions.len() {
        assert(suggestions.take(upto + 1).drop_last() =~= suggestions.take(upto));
        lemma_first_free_prefix(suggestions, ty, visited, upto + 1);
    } else {
        assert(suggestions.take(upto) =~= suggestions);
    }
}

/// The time to wait before asking again, in seconds, after having waited
/// `delay`: `delay` times the lesser of twice `delay` and 60, and no more
/// than the machine can count.
pub open spec fn next_delay_of(delay: u64) -> u64 {
    let factor: int = if delay * 2 < 60 {
        delay * 2
    } else {
        60
    };
    if delay * factor > u64::MAX {
        u64::MAX
    } else {
        (delay * factor) as u64
    }
}

/// The time to wait before asking again after having waited `delay`.
pub fn next_delay(delay: u64) -> (r: u64)
    ensures
        r == next_delay_of(delay),
{
    let factor: u64 = if delay < 30 {
        delay * 2
    } else {
        60
    };
    match delay.checked_mul(factor) {
        Some(d) => d,
        None => u64::MAX,
    }
}

/// How far the inference got.
#[derive(Debug)]
pub enum Progress {
    /// Every field was asked about: the new names, by the old name of the
    /// field.
    Done(Vec<(String, FieldLocation)>),
    /// A field cannot be asked about.
    Failed(InferError),
    /// The model has to be asked `question`, after waiting `wait` seconds
    /// where the last answer was a failure of the model.
    Ask { question: Question, wait: Option<u64> },
}

/// What asking about one field gives, the answers read from the position
/// `used` on: a new name or none, with the position after the answer that
/// settled it; or the need to ask, after a wait.
pub ghost enum FieldOutcome {
    Named(Option<Seq<char>>, nat),
    Ask(Option<u64>),
}

/// Asking about one field. An answer with suggestions settles the field:
/// it gets the first free suggestion, if any is free. After a failure of
/// the model the question is asked again, after a wait that grows; after
/// any other failure it is asked again at once.
pub open spec fn ask_field(
    answers: Seq<Result<Answer, InferError>>,
    used: nat,
    delay: u64,
    wait: Option<u64>,
    ty: &Type,
    visited: Set<Seq<char>>,
) -> FieldOutcome
    decreases answers.len() - used,
{
    if used >= answers.len() {
        FieldOutcome::Ask(wait)
    } else {
        match answers[used as int] {
            Ok(answer) => FieldOutcome::Named(
                match first_free(answer.suggestions@, ty, visited) {
                    Some(i) => Some(answer.suggestions@[i]@),
                    None => None,
                },
                used + 1,
            ),
            Err(InferError::GenAI(_)) => ask_field(
                answers,
                used + 1,
                next_delay_of(delay),
                Some(delay),
                ty,
                visited,
            ),
            Err(_) => ask_field(answers, used + 1, delay, None, ty, visited),
        }
    }
}

/// One renaming: the old name of the field, its new name, and the name of
/// its type.
pub type Renaming = (Seq<char>, Seq<char>, Seq<char>);

/// The state of the inference between two fields: the renamings so far,
/// the new names given within the type at hand, and the number of answers
/// read.
pub ghost struct RunModel {
    pub mapping: Seq<Renaming>,
    pub visited: Set<Seq<char>>,
    pub used: nat,
}

/// Why the inference stops before the last field.
pub ghost enum StopModel {
    Failed,
    Ask { url: Seq<char>, method: Seq<char>, wait: Option<u64> },
}

/// The inference for one field, from the state `run`.
pub open spec fn run_field(
    config: &Config,
    answers: Seq<Result<Answer, InferError>>,
    entry: (String, Type),
    field: (String, Field),
    run: RunModel,
) -> Result<RunModel, StopModel> {
    match field.1.resolver {
        None => Ok(run),
        Some(resolver) => match endpoint_of(config, resolver) {
            Err(_) => Err(StopModel::Failed),
            Ok((url, method)) => match ask_field(answers, run.used, 3, None, &entry.1, run.visited) {
                FieldOutcome::Named(Some(name), used) => Ok(
                    RunModel {
                        mapping: run.mapping.push((field.0@, name, entry.0@)),
                        visited: run.visited.insert(name),
                        used,
                    },
                ),
                FieldOutcome::Named(None, used) => Ok(RunModel { used, ..run }),
                FieldOutcome::Ask(wait) => Err(StopModel::Ask { url, method, wait }),
            },
        },
    }
}

/// The inference for the first `upto` fields of a type, from the state
/// `start`.
pub open spec fn run_fields(
    config: &Config,
    answers: Seq<Result<Answer, InferError>>,
    entry: (String, Type),
    upto: nat,
    start: RunModel,
) -> Result<RunModel, StopModel>
    decreases upto,
{
    if upto == 0 {
        Ok(start)
    } else {
        match run_fields(config, answers, entry, (upto - 1) as nat, start) {
            Ok(run) => run_field(config, answers, entry, entry.1.fields@[upto - 1], run),
            Err(stop) => Err(stop),
        }
    }
}

/// The inference for the first `upto` types of a configuration. Within
/// each type no new name is given twice.
pub open spec fn run_types(config: &Config, answers: Seq<Result<Answer, InferError>>, upto: nat) -> Result<
    RunModel,
    StopModel,
>
    decreases upto,
{
    if upto == 0 {
        Ok(RunModel { mapping: Seq::empty(), visited: Set::empty(), used: 0 })
    } else {
        match run_types(config, answers, (upto - 1) as nat) {
            Ok(run) => {
                let entry = config.types@[upto - 1];
                run_fields(
                    config,
                    answers,
                    entry,
                    entry.1.fields@.len(),
                    RunModel { visited: Set::empty(), ..run },
                )
            },
            Err(stop) => Err(stop),
        }
    }
}

/// The mathematical content of a list of renamings.
pub open spec fn mapping_model(mapping: Seq<(String, FieldLocation)>) -> Seq<Renaming> {
    Seq::new(
        mapping.len(),
        |i: int| (mapping[i].0@, mapping[i].1.new_field_name@, mapping[i].1.owner@),
    )
}

/// The outcome of asking about one field.
enum Asked {
    Named(Option<String>, usize),
    Ask(Option<u64>),
}

fn ask(answers: &Vec<Result<Answer, InferError>>, used: usize, ty: &Type, visited: &NameSet) -> (r:
    Asked)
    requires
        used <= answers.len(),
    ensures
        match ask_field(answers@, used as nat, 3, None, ty, visited@) {
            FieldOutcome::Named(Some(name), after) => r matches Asked::Named(Some(n), u) && n@
                == name && u == after && u <= answers.len(),
            FieldOutcome::Named(None, after) => r matches Asked::Named(None, u) && u == after && u
                <= answers.len(),
            FieldOutcome::Ask(wait) => r matches Asked::Ask(w) && w == wait,
        },
{
    let mut at: usize = used;
    let mut delay: u64 = 3;
    let mut wait: Option<u64> = None;
    while at < answers.len()
        invariant
            used <= at <= answers.len(),
            ask_field(answers@, used as nat, 3, None, ty, visited@) == ask_field(
                answers@,
                at as nat,
                delay,
                wait,
                ty,
                visited@,
            ),
        decreases answers.len() - at,
    {
        match &answers[at] {
            Ok(answer) => {
                return Asked::Named(pick_name(&answer.suggestions, ty, visited), at + 1);
            },
            Err(InferError::GenAI(_)) => {
                wait = Some(delay);
                delay = next_delay(delay);
            },
            Err(_) => {
                wait = None;
            },
        }
        at += 1;
    }
    Asked::Ask(wait)
}

/// Infers names for the fields of a configuration that have an HTTP or
/// gRPC resolver, as far as the answers reach. The fields are asked about
/// in their order, type by type, and the answers are read in the order in
/// which they were needed.
pub fn generate(config: &Config, answers: &Vec<Result<Answer, InferError>>) -> (r: Progress)
    ensures
        match run_types(config, answers@, config.types@.len()) {
            Ok(run) => r matches Progress::Done(mapping) && mapping_model(mapping@) == run.mapping,
            Err(StopModel::Failed) => r matches Progress::Failed(InferError::Message(_)),
            Err(StopModel::Ask { url, method, wait }) => r matches Progress::Ask {
                question,
                wait: w,
            } && question.url@ == url && question.method@ == method && w == wait,
        },
{
    let mut mapping: Vec<(String, FieldLocation)> = Vec::new();
    let mut used: usize = 0;
    let mut t: usize = 0;
    assert(mapping_model(mapping@) =~= Seq::<Renaming>::empty());
    while t < config.types.len()
        invariant
            t <= config.types.len(),
            used <= answers.len(),
            run_types(config, answers@, t as nat) matches Ok(run) && run.mapping == mapping_model(
                mapping@,
            ) && run.used == used,
        decreases config.types.len() - t,
    {
        let entry = &config.types[t];
        let ghost before = run_types(config, answers@, t as nat)->Ok_0;
        let ghost start = RunModel { visited: Set::empty(), ..before };
        let mut visited = NameSet::new();
        let mut k: usize = 0;
        while k < entry.1.fields.len()
            invariant
                t < config.types.len(),
                *entry == config.types@[t as int],
                k <= entry.1.fields.len(),
                used <= answers.len(),
                run_types(config, answers@, t as nat) == Ok::<RunModel, StopModel>(before),
                start == (RunModel { visited: Set::empty(), ..before }),
                run_fields(config, answers@, *entry, k as nat, start) matches Ok(run)
                    && run.mapping == mapping_model(mapping@) && run.used == used && run.visited
                    == visited@,
            decreases entry.1.fields.len() - k,
        {
            let field = &entry.1.fields[k];
            proof {
                lemma_run_fields_stop(config, answers@, *entry, start, k as nat + 1);
                lemma_run_types_stop(config, answers@, t as nat + 1);
            }
            match question_for(config, &field.1) {
                Err(e) => {
                    return Progress::Failed(e);
                },
                Ok(None) => {},
                Ok(Some(question)) => {
                    match ask(answers, used, &entry.1, &visited) {
                        Asked::Ask(wait) => {
                            return Progress::Ask { question, wait };
                        },
                        Asked::Named(None, after) => {
                            used = after;
                        },
                        Asked::Named(Some(name), after) => {
                            used = after;
                            visited.insert(name.clone());
                            let ghost old_mapping = mapping_model(mapping@);
                            mapping.push(
                                (
                                    field.0.clone(),
                                    FieldLocation { new_field_name: name, owner: entry.0.clone() },
                                ),
                            );
                            assert(mapping_model(mapping@) =~= old_mapping.push(
                                (field.0@, name@, entry.0@),
                            ));
                        },
                    }
                },
            }
            k += 1;
        }
        t += 1;
    }
    Progress::Done(mapping)
}

/// Once the inference has stopped within a type, the fields after the
/// stop change nothing.
proof fn lemma_run_fields_stop(
    config: &Config,
    answers: Seq<Result<Answer, InferError>>,
    entry: (String, Type),
    start: RunModel,
    upto: nat,
)
    requires
        upto <= entry.1.fields@.len(),
    ensures
        run_fields(config, answers, entry, upto, start) is Err ==> run_fields(
            config,
            answers,
            entry,
            entry.1.fields@.len(),
            start,
        ) == run_fields(config, answers, entry, upto, start),
    decreases entry.1.fields@.len() - upto,
{
    if upto < entry.1.fields@.len() {
        lemma_run_fields_stop(config, answers, entry, start, upto + 1);
    }
}

/// Once the inference has stopped, the types after the stop change
/// nothing.
proof fn lemma_run_types_stop(config: &Config, answers: Seq<Result<Answer, InferError>>, upto: nat)
    requires
        upto <= config.types@.len(),
    ensures
        run_types(config, answers, upto) is Err ==> run_types(
            config,
            answers,
            config.types@.len(),
        ) == run_types(config, answers, upto),
    decreases config.types@.len() - upto,
{
    if upto < config.types@.len() {
        lemma_run_types_stop(config, answers, upto + 1);
    }
}

/// The names of the fields of a type, in their order.
pub open spec fn field_names(ty: Type) -> Seq<Seq<char>> {
    Seq::new(ty.fields@.len(), |j: int| ty.fields@[j].0@)
}

/// The types of a configuration by name, each with the names of its fields.
pub open spec fn names_model(types: Seq<(String, Type)>) -> Seq<(Seq<char>, Seq<Seq<char>>)> {
    Seq::new(types.len(), |i: int| (types[i].0@, field_names(types[i].1)))
}

/// The position of the first of `names` that is `name`.
pub open spec fn name_position(names: Seq<Seq<char>>, name: Seq<char>) -> Option<int>
    decreases names.len(),
{
    if names.len() == 0 {
        None
    } else {
        match name_position(names.drop_last(), name) {
            Some(i) => Some(i),
            None => if names.last() == name {
                Some(names.len() - 1)
            } else {
                None
            },
        }
    }
}

/// The names after one renaming: in the first type of the name `owner`,
/// the first field of the name `old` gets the name `new`. Where there is
/// no such type or field, nothing changes.
pub open spec fn renamed_once(
    model: Seq<(Seq<char>, Seq<Seq<char>>)>,
    renaming: Renaming,
) -> Seq<(Seq<char>, Seq<Seq<char>>)> {
    match name_position(Seq::new(model.len(), |i: int| model[i].0), renaming.2) {
        Some(t) => if 0 <= t < model.len() {
            match name_position(model[t].1, renaming.0) {
                Some(f) => model.update(t, (model[t].0, model[t].1.update(f, renaming.1))),
                None => model,
            }
        } else {
            model
        },
        None => model,
    }
}

/// The names after the renamings, one after the other.
pub open spec fn renamed_all(
    model: Seq<(Seq<char>, Seq<Seq<char>>)>,
    renamings: Seq<Renaming>,
) -> Seq<(Seq<char>, Seq<Seq<char>>)>
    decreases renamings.len(),
{
    if renamings.len() == 0 {
        model
    } else {
        renamed_once(renamed_all(model, renamings.drop_last()), renamings.last())
    }
}

/// The fields are what they were, each in its place; only names may
/// differ.
pub open spec fn same_fields(before: Seq<(String, Type)>, after: Seq<(String, Type)>) -> bool {
    after.len() == before.len() && forall|i: int|
        0 <= i < before.len() ==> (#[trigger] after[i]).0 == before[i].0 && after[i].1.doc
            == before[i].1.doc && after[i].1.interface == before[i].1.interface && after[i].1.tag
            == before[i].1.tag && after[i].1.fields@.len() == before[i].1.fields@.len()
            && forall|j: int|
            0 <= j < before[i].1.fields@.len() ==> (#[trigger] after[i].1.fields@[j]).1
                == before[i].1.fields@[j].1
}

proof fn lemma_name_position(names: Seq<Seq<char>>, name: Seq<char>)
    ensures
        match name_position(names, name) {
            Some(i) => 0 <= i < names.len() && names[i] == name && forall|j: int|
                0 <= j < i ==> names[j] != name,
            None => forall|j: int| 0 <= j < names.len() ==> names[j] != name,
        },
    decreases names.len(),
{
    if names.len() > 0 {
        let front = names.drop_last();
        lemma_name_position(front, name);
        assert forall|j: int| 0 <= j < front.len() implies front[j] == names[j] by {}
        match name_position(front, name) {
            Some(i) => {
                assert(front[i] == names[i]);
            },
            None => {
                assert forall|j: int| 0 <= j < names.len() - 1 implies names[j] != name by {
                    assert(front[j] == names[j]);
                }
            },
        }
    }
}

fn index_of_name<T>(entries: &Vec<(String, T)>, name: &str) -> (r: Option<usize>)
    ensures
        match r {
            Some(i) => name_position(Seq::new(entries@.len(), |i: int| entries@[i].0@), name@)
                == Some(i as int) && i < entries.len() && position(entries@, name@) == Some(
                i as int,
            ),
            None => name_position(Seq::new(entries@.len(), |i: int| entries@[i].0@), name@)
                is None && position(entries@, name@) is None,
        },
{
    let ghost names = Seq::new(entries@.len(), |i: int| entries@[i].0@);
    proof {
        lemma_name_position(names, name@);
        crate::entries::lemma_position(entries@, name@);
    }
    let r = find_index(entries, name);
    proof {
        match r {
            Some(i) => {
                assert(names[i as int] == name@);
                assert forall|j: int| 0 <= j < i implies names[j] != name@ by {
                    assert(names[j] == entries@[j].0@);
                }
            },
            None => {
                assert forall|j: int| 0 <= j < names.len() implies names[j] != name@ by {
                    assert(names[j] == entries@[j].0@);
                }
            },
        }
    }
    r
}

/// No field of the first type named `owner` is named `name`.
pub open spec fn is_free(types: Seq<(String, Type)>, owner: Seq<char>, name: Seq<char>) -> bool {
    match position(types, owner) {
        Some(t) => forall|j: int|
            0 <= j < types[t].1.fields@.len() ==> (#[trigger] types[t].1.fields@[j]).0@ != name,
        None => true,
    }
}

/// Gives the field `from` of the type `owner` the name `to`. Where no name
/// occurs twice in the configuration and the type has no field named `to`
/// yet, no name occurs twice afterwards.
pub fn rename_field(config: &mut Config, from: &str, to: &str, owner: &str)
    ensures
        names_model(final(config).types@) == renamed_once(
            names_model(old(config).types@),
            (from@, to@, owner@),
        ),
        same_fields(old(config).types@, final(config).types@),
        old(config).distinct_names() && is_free(old(config).types@, owner@, to@)
            ==> final(config).distinct_names(),
        final(config).server == old(config).server,
        final(config).upstream == old(config).upstream,
        final(config).schema == old(config).schema,
        final(config).unions == old(config).unions,
        final(config).enums == old(config).enums,
{
    let ghost before = config.types@;
    let ghost model = names_model(before);
    assert(Seq::new(model.len(), |i: int| model[i].0) =~= Seq::new(
        before.len(),
        |i: int| before[i].0@,
    ));
    match index_of_name(&config.types, owner) {
        None => {},
        Some(t) => {
            assert(model[t as int].1 =~= Seq::new(
                before[t as int].1.fields@.len(),
                |j: int| before[t as int].1.fields@[j].0@,
            ));
            match index_of_name(&config.types[t].1.fields, from) {
                None => {},
                Some(f) => {
                    let mut types: Vec<(String, Type)> = Vec::new();
                    std::mem::swap(&mut config.types, &mut types);
                    let (name, ty) = types.remove(t);
                    let Type { fields, doc, interface, tag } = ty;
                    let mut fields = fields;
                    let (_, field) = fields.remove(f);
                    fields.insert(f, (String::from_str(to), field));
                    types.insert(t, (name, Type { fields, doc, interface, tag }));
                    config.types = types;
                    proof {
                        let after = config.types@;
                        assert(after.len() == before.len());
                        assert forall|i: int| 0 <= i < before.len() implies names_model(after)[i]
                            == renamed_once(model, (from@, to@, owner@))[i] by {
                            if i == t {
                                assert(field_names(after[i].1) =~= model[t as int].1.update(
                                    f as int,
                                    to@,
                                ));
                            } else {
                                assert(after[i] == before[i]);
                            }
                        }
                        assert(names_model(after) =~= renamed_once(model, (from@, to@, owner@)));
                        if old(config).distinct_names() && is_free(before, owner@, to@) {
                            crate::entries::lemma_position(before, owner@);
                            assert(position(before, owner@) == Some(t as int));
                            let was = types_model(before);
                            let now = types_model(after);
                            assert forall|i: int, j: int| 0 <= i < j < now.len() implies (
                            #[trigger] now[i]).0 != (#[trigger] now[j]).0 by {
                                assert(after[i].0 == before[i].0 || i == t);
                                assert(after[j].0 == before[j].0 || j == t);
                                assert(was[i].0 != was[j].0);
                            }
                            assert forall|i: int| 0 <= i < now.len() implies fields_distinct(
                                (#[trigger] now[i]).1.fields,
                            ) by {
                                assert(fields_distinct(was[i].1.fields));
                                if i == t {
                                    let old_fields = was[i].1.fields;
                                    let new_fields = now[i].1.fields;
                                    assert(new_fields.len() == old_fields.len());
                                    assert forall|a: int| 0 <= a < new_fields.len() implies (
                                    #[trigger] new_fields[a]).1 == old_fields[a].1 && (a != f
                                        ==> new_fields[a].0 == old_fields[a].0) && (a == f
                                        ==> new_fields[a].0 == to@) by {
                                        assert(after[i].1.fields@[a].1 == before[i].1.fields@[a].1
                                            || a == f);
                                    }
                                    assert forall|a: int, b: int|
                                        0 <= a < b < new_fields.len() implies (
                                    #[trigger] new_fields[a]).0 != (#[trigger] new_fields[b]).0 by {
                                        assert(old_fields[a].0 != old_fields[b].0);
                                        assert(before[t as int].1.fields@[a].0@ != to@);
                                        assert(before[t as int].1.fields@[b].0@ != to@);
                                    }
                                    assert forall|a: int| 0 <= a < new_fields.len() implies unique_keys(
                                        (#[trigger] new_fields[a]).1.args,
                                    ) by {
                                        assert(unique_keys(old_fields[a].1.args));
                                    }
                                } else {
                                    assert(after[i] == before[i]);
                                    assert(now[i] == was[i]);
                                }
                            }
                        }
                        assert forall|i: int| 0 <= i < before.len() implies (#[trigger] after[i]).0
                            == before[i].0 && after[i].1.fields@.len()
                            == before[i].1.fields@.len() && after[i].1.doc == before[i].1.doc
                            && after[i].1.interface == before[i].1.interface && after[i].1.tag
                            == before[i].1.tag && forall|j: int|
                            0 <= j < before[i].1.fields@.len() ==> (
                            #[trigger] after[i].1.fields@[j]).1 == before[i].1.fields@[j].1 by {
                            if i != t {
                                assert(after[i] == before[i]);
                            }
                        }
                    }
                },
            }
        },
    }
}

impl InferFieldName {
    /// Gives the fields their new names, one renaming after the other.
    pub fn transform(&self, value: Config, suggested_names: &Vec<(String, FieldLocation)>) -> (r:
        Config)
        ensures
            names_model(r.types@) == renamed_all(
                names_model(value.types@),
                mapping_model(suggested_names@),
            ),
            same_fields(value.types@, r.types@),
            r.server == value.server,
            r.upstream == value.upstream,
            r.schema == value.schema,
            r.unions == value.unions,
            r.enums == value.enums,
    {
        let mut config = value;
        let ghost all = mapping_model(suggested_names@);
        let mut i: usize = 0;
        assert(all.take(0) =~= Seq::<Renaming>::empty());
        while i < suggested_names.len()
            invariant
                i <= suggested_names.len(),
                all == mapping_model(suggested_names@),
                names_model(config.types@) == renamed_all(
                    names_model(value.types@),
                    all.take(i as int),
                ),
                same_fields(value.types@, config.types@),
                config.server == value.server,
                config.upstream == value.upstream,
                config.schema == value.schema,
                config.unions == value.unions,
                config.enums == value.enums,
            decreases suggested_names.len() - i,
        {
            let entry = &suggested_names[i];
            proof {
                let next = all.take(i + 1);
                assert(next.drop_last() =~= all.take(i as int));
                assert(next.last() == (entry.0@, entry.1.new_field_name@, entry.1.owner@));
            }
            rename_field(
                &mut config,
                entry.0.as_str(),
                entry.1.new_field_name.as_str(),
                entry.1.owner.as_str(),
            );
            i += 1;
        }
        assert(all.take(suggested_names.len() as int) =~= all);
        config
    }
}

/// A question as a JSON value.
pub open spec fn question_value(url: Seq<char>, method: Seq<char>) -> JsonValue {
    JsonValue::Object(
        seq![("url"@, JsonValue::String(url)), ("method"@, JsonValue::String(method))],
    )
}

/// An answer as a JSON value.
pub open spec fn answer_value(names: Seq<Seq<char>>) -> JsonValue {
    JsonValue::Object(
        seq![
            (
                "suggestions"@,
                JsonValue::Array(Seq::new(names.len(), |i: int| JsonValue::String(names[i]))),
            ),
        ],
    )
}

/// The examples that the model is shown with a question: three questions
/// with five names each, and the number of names that are asked for.
pub open spec fn examples_value() -> JsonValue {
    JsonValue::Object(
        seq![
            ("input1"@, question_value("https://jsonplaceholder.typicode.com/posts"@, "GET"@)),
            ("input2"@, question_value("https://jsonplaceholder.typicode.com/posts"@, "POST"@)),
            ("input3"@, question_value("https://jsonplaceholder.typicode.com/posts/1"@, "DELETE"@)),
            (
                "output1"@,
                answer_value(
                    seq!["posts"@, "postList"@, "articles"@, "articlesList"@, "entries"@],
                ),
            ),
            (
                "output2"@,
                answer_value(
                    seq![
                        "createPost"@,
                        "createArticle"@,
                        "createEntry"@,
                        "createNewPost"@,
                        "createNewArticle"@,
                    ],
                ),
            ),
            (
                "output3"@,
                answer_value(
                    seq![
                        "deletePost"@,
                        "removePost"@,
                        "removePostById"@,
                        "deleteEntry"@,
                        "deleteEntryById"@,
                    ],
                ),
            ),
            ("count"@, JsonValue::Number("5"@)),
        ],
    )
}

fn example_question(url: &str, method: &str) -> (r: Json)
    ensures
        r@ == question_value(url@, method@),
{
    let mut entries: Vec<(String, Json)> = Vec::new();
    entries.push((String::from_str("url"), Json::String(String::from_str(url))));
    entries.push((String::from_str("method"), Json::String(String::from_str(method))));
    assert(entries@[0].0@ == "url"@ && entries@[0].1@ == JsonValue::String(url@));
    assert(entries@[1].0@ == "method"@ && entries@[1].1@ == JsonValue::String(method@));
    let ghost list = entries@;
    let value = Json::Object(entries);
    assert(value@->Object_0[0] == (list[0].0@, list[0].1@));
    assert(value@->Object_0[1] == (list[1].0@, list[1].1@));
    assert(value@->Object_0 =~= question_value(url@, method@)->Object_0);
    value
}

fn example_answer(names: &[&str]) -> (r: Json)
    ensures
        r@ == answer_value(Seq::new(names@.len(), |i: int| names@[i]@)),
{
    let ghost texts = Seq::new(names@.len(), |i: int| names@[i]@);
    let mut items: Vec<Json> = Vec::new();
    let mut i: usize = 0;
    while i < names.len()
        invariant
            i <= names.len(),
            items.len() == i,
            forall|j: int| 0 <= j < i ==> (#[trigger] items@[j])@ == JsonValue::String(names@[j]@),
        decreases names.len() - i,
    {
        items.push(Json::String(String::from_str(names[i])));
        i += 1;
    }
    let list = Json::Array(items);
    assert(list@->Array_0 =~= Seq::new(texts.len(), |i: int| JsonValue::String(texts[i])));
    let mut entries: Vec<(String, Json)> = Vec::new();
    entries.push((String::from_str("suggestions"), list));
    let ghost held = entries@;
    let value = Json::Object(entries);
    assert(value@->Object_0[0] == (held[0].0@, held[0].1@));
    assert(value@->Object_0 =~= answer_value(texts)->Object_0);
    value
}

/// The examples that the model is shown with a question.
pub fn examples() -> (r: Json)
    ensures
        r@ == examples_value(),
{
    let mut entries: Vec<(String, Json)> = Vec::new();
    let output1 = example_answer(&["posts", "postList", "articles", "articlesList", "entries"]);
    assert(output1@ == answer_value(
        seq!["posts"@, "postList"@, "articles"@, "articlesList"@, "entries"@],
    )) by {
        assert(Seq::new(
            5,
            |i: int| ["posts", "postList", "articles", "articlesList", "entries"]@[i]@,
        ) =~= seq!["posts"@, "postList"@, "articles"@, "articlesList"@, "entries"@]);
    }
    let output2 = example_answer(
        &["createPost", "createArticle", "createEntry", "createNewPost", "createNewArticle"],
    );
    assert(output2@ == answer_value(
        seq![
            "createPost"@,
            "createArticle"@,
            "createEntry"@,
            "createNewPost"@,
            "createNewArticle"@,
        ],
    )) by {
        assert(Seq::new(
            5,
            |i: int|
                [
                    "createPost",
                    "createArticle",
                    "createEntry",
                    "createNewPost",
                    "createNewArticle",
                ]@[i]@,
        ) =~= seq![
            "createPost"@,
            "createArticle"@,
            "createEntry"@,
            "createNewPost"@,
            "createNewArticle"@,
        ]);
    }
    let output3 = example_answer(
        &["deletePost", "removePost", "removePostById", "deleteEntry", "deleteEntryById"],
    );
    assert(output3@ == answer_value(
        seq![
            "deletePost"@,
            "removePost"@,
            "removePostById"@,
            "deleteEntry"@,
            "deleteEntryById"@,
        ],
    )) by {
        assert(Seq::new(
            5,
            |i: int|
                ["deletePost", "removePost", "removePostById", "deleteEntry", "deleteEntryById"]@[i]@,
        ) =~= seq![
            "deletePost"@,
            "removePost"@,
            "removePostById"@,
            "deleteEntry"@,
            "deleteEntryById"@,
        ]);
    }
    entries.push(
        (
            String::from_str("input1"),
            example_question("https://jsonplaceholder.typicode.com/posts", "GET"),
        ),
    );
    entries.push(
        (
            String::from_str("input2"),
            example_question("https://jsonplaceholder.typicode.com/posts", "POST"),
        ),
    );
    entries.push(
        (
            String::from_str("input3"),
            example_question("https://jsonplaceholder.typicode.com/posts/1", "DELETE"),
        ),
    );
    entries.push((String::from_str("output1"), output1));
    entries.push((String::from_str("output2"), output2));
    entries.push((String::from_str("output3"), output3));
    entries.push((String::from_str("count"), Json::Number(String::from_str("5"))));
    let ghost held = entries@;
    let value = Json::Object(entries);
    assert forall|i: int| 0 <= i < 7 implies value@->Object_0[i] == (held[i].0@, held[i].1@) by {}
    assert(value@->Object_0 =~= examples_value()->Object_0);
    value
}

/// The context in which the instructions are rendered: the examples as the
/// value, and nothing else.
pub open spec fn examples_context() -> crate::context::ContextModel {
    crate::context::ContextModel {
        args: JsonValue::Null,
        value: Some(examples_value()),
        vars: Seq::empty(),
        env: Seq::empty(),
        headers: Seq::empty(),
    }
}

/// The instructions for the model: the template with its holes filled
/// from the examples.
pub fn prompt(template: &Mustache) -> (r: String)
    ensures
        exists|inner: Mustache|
            #![auto]
            crate::template::segments_model(inner.segments@) == crate::template::prepended(
                crate::template::segments_model(template.segments@),
                "value"@,
            ) && r@ == inner.spec_render(examples_context()),
{
    let shown = examples();
    let args = Json::Null;
    let none: Vec<(String, String)> = Vec::new();
    let ctx = EvalContext { args: &args, value: Some(&shown), vars: &none, env: &none, headers: &none };
    let inner = template.prepend("value");
    let r = inner.render(&ctx);
    assert(ctx@ == examples_context());
    r
}

} // verus!
