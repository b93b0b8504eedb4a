//! The configuration that a blueprint is compiled from: types, fields and
//! the resolvers declared on them.

use vstd::prelude::*;

use crate::entries::{
    distinct_keys, find, lemma_distinct_viewed, lemma_key_index, lemma_set_entry_unique,
    lemma_upsert_distinct, lookup, position, set_entry, unique_keys, upsert, viewed,
};
use crate::json::Json;
use crate::template::Method;
use crate::text::{clone_names, clone_text};

verus! {

/// A key with a templated value, as in a query parameter or a header.
#[derive(Clone, Debug, Default, PartialEq, Eq)]
pub struct KeyValue {
    pub key: String,
    pub value: String,
}

/// The `@http` resolver of a field.
#[derive(Clone, Debug, PartialEq, Eq)]
pub struct Http {
    pub path: String,
    pub method: Method,
    pub query: Vec<KeyValue>,
    pub base_url: Option<String>,
    pub headers: Vec<KeyValue>,
    pub body: Option<String>,
    pub batch_key: Vec<String>,
}

/// The `@grpc` resolver of a field.
#[derive(Clone, Debug, Default, PartialEq, Eq)]
pub struct Grpc {
    pub base_url: Option<String>,
    pub body: Option<String>,
    pub group_by: Vec<String>,
    pub headers: Vec<KeyValue>,
    pub method: String,
}

/// How a field is resolved.
#[derive(Clone, Debug, PartialEq, Eq)]
pub enum Resolver {
    Http(Http),
    Grpc(Grpc),
    Js { name: String },
    Expr { body: Json },
}

/// An argument of a field.
#[derive(Clone, Debug, Default, PartialEq, Eq)]
pub struct Arg {
    pub type_of: String,
    pub list: bool,
    pub required: bool,
    pub doc: Option<String>,
    pub modify: Option<String>,
    pub default_value: Option<Json>,
}

/// A field of a type.
#[derive(Clone, Debug, Default, PartialEq, Eq)]
pub struct Field {
    pub type_of: String,
    pub list: bool,
    pub required: bool,
    pub args: Vec<(String, Arg)>,
    pub doc: Option<String>,
    pub resolver: Option<Resolver>,
}

/// Marks a type with the identifier of the message it was generated from.
#[derive(Clone, Debug, Default, PartialEq, Eq)]
pub struct Tag {
    pub id: String,
}

/// An object or interface type.
#[derive(Clone, Debug, Default, PartialEq, Eq)]
pub struct Type {
    pub fields: Vec<(String, Field)>,
    pub doc: Option<String>,
    pub interface: bool,
    pub tag: Option<Tag>,
}

/// A union of types.
#[derive(Clone, Debug, Default, PartialEq, Eq)]
pub struct Union {
    pub types: Vec<String>,
    pub doc: Option<String>,
}

/// An enumeration.
#[derive(Clone, Debug, Default, PartialEq, Eq)]
pub struct Enum {
    pub variants: Vec<String>,
    pub doc: Option<String>,
}

/// The names of the root operation types.
#[derive(Clone, Debug, Default, PartialEq, Eq)]
pub struct RootSchema {
    pub query: Option<String>,
    pub mutation: Option<String>,
    pub subscription: Option<String>,
}

/// Settings shared by all upstream calls.
#[derive(Clone, Debug, Default, PartialEq, Eq)]
pub struct Upstream {
    pub base_url: Option<String>,
}

/// The version of HTTP that the server speaks.
#[derive(Clone, Copy, Debug, PartialEq, Eq, Structural)]
pub enum HttpVersion {
    HTTP1,
    HTTP2,
}

/// Settings of the script worker.
#[derive(Clone, Debug, Default, PartialEq, Eq)]
pub struct ScriptOptions {
    /// The time a script may run, in milliseconds.
    pub timeout: Option<u64>,
}

/// Cross-origin settings as they are configured.
#[derive(Clone, Debug, Default, PartialEq, Eq)]
pub struct Cors {
    pub allow_credentials: Option<bool>,
    pub allow_headers: Vec<String>,
    pub allow_methods: Vec<Method>,
    pub allow_origins: Vec<String>,
    pub allow_private_network: Option<bool>,
    pub expose_headers: Vec<String>,
    pub max_age: Option<usize>,
    pub vary: Vec<String>,
}

/// Settings of the response headers.
#[derive(Clone, Debug, Default, PartialEq, Eq)]
pub struct Headers {
    pub cache_control: Option<bool>,
    pub custom: Vec<KeyValue>,
    pub experimental: Vec<String>,
    pub set_cookies: Option<bool>,
    pub cors: Option<Cors>,
}

/// The paths under which the server answers.
#[derive(Clone, Debug, PartialEq, Eq)]
pub struct Routes {
    pub status: String,
    pub graphql: String,
}

/// The settings of the server as they are configured; what is left open
/// has a default.
#[derive(Clone, Debug, Default, PartialEq, Eq)]
pub struct Server {
    pub apollo_tracing: Option<bool>,
    pub batch_requests: Option<bool>,
    pub headers: Option<Headers>,
    pub global_response_timeout: Option<i64>,
    pub hostname: Option<String>,
    pub introspection: Option<bool>,
    pub pipeline_flush: Option<bool>,
    pub port: Option<u16>,
    pub query_validation: Option<bool>,
    pub response_validation: Option<bool>,
    pub script: Option<ScriptOptions>,
    pub showcase: Option<bool>,
    pub vars: Vec<KeyValue>,
    pub version: Option<HttpVersion>,
    pub workers: Option<usize>,
    pub routes: Option<Routes>,
}

/// The value of a setting, or the default where it is left open.
pub open spec fn or_default(setting: Option<bool>, default: bool) -> bool {
    match setting {
        Some(b) => b,
        None => default,
    }
}

fn flag(setting: &Option<bool>, default: bool) -> (r: bool)
    ensures
        r == or_default(*setting, default),
{
    match setting {
        Some(b) => *b,
        None => default,
    }
}

impl Server {
    /// Every setting is left open, and no variable is set.
    pub open spec fn is_unset(&self) -> bool {
        &&& self.apollo_tracing is None
        &&& self.batch_requests is None
        &&& self.headers is None
        &&& self.global_response_timeout is None
        &&& self.hostname is None
        &&& self.introspection is None
        &&& self.pipeline_flush is None
        &&& self.port is None
        &&& self.query_validation is None
        &&& self.response_validation is None
        &&& self.script is None
        &&& self.showcase is None
        &&& self.vars@.len() == 0
        &&& self.version is None
        &&& self.workers is None
        &&& self.routes is None
    }

    /// Settings with everything left open.
    pub fn unset() -> (r: Server)
        ensures
            r.is_unset(),
    {
        Server {
            apollo_tracing: None,
            batch_requests: None,
            headers: None,
            global_response_timeout: None,
            hostname: None,
            introspection: None,
            pipeline_flush: None,
            port: None,
            query_validation: None,
            response_validation: None,
            script: None,
            showcase: None,
            vars: Vec::new(),
            version: None,
            workers: None,
            routes: None,
        }
    }

    /// Off unless set.
    pub fn enable_apollo_tracing(&self) -> (r: bool)
        ensures
            r == or_default(self.apollo_tracing, false),
    {
        flag(&self.apollo_tracing, false)
    }

    /// Off unless set.
    pub fn enable_cache_control(&self) -> (r: bool)
        ensures
            r == match self.headers {
                Some(h) => or_default(h.cache_control, false),
                None => false,
            },
    {
        match &self.headers {
            Some(h) => flag(&h.cache_control, false),
            None => false,
        }
    }

    /// Off unless set.
    pub fn enable_set_cookies(&self) -> (r: bool)
        ensures
            r == match self.headers {
                Some(h) => or_default(h.set_cookies, false),
                None => false,
            },
    {
        match &self.headers {
            Some(h) => flag(&h.set_cookies, false),
            None => false,
        }
    }

    /// On unless set.
    pub fn enable_introspection(&self) -> (r: bool)
        ensures
            r == or_default(self.introspection, true),
    {
        flag(&self.introspection, true)
    }

    /// Off unless set.
    pub fn enable_query_validation(&self) -> (r: bool)
        ensures
            r == or_default(self.query_validation, false),
    {
        flag(&self.query_validation, false)
    }

    /// Off unless set.
    pub fn enable_http_validation(&self) -> (r: bool)
        ensures
            r == or_default(self.response_validation, false),
    {
        flag(&self.response_validation, false)
    }

    /// Off unless set.
    pub fn enable_batch_requests(&self) -> (r: bool)
        ensures
            r == or_default(self.batch_requests, false),
    {
        flag(&self.batch_requests, false)
    }

    /// Off unless set.
    pub fn enable_showcase(&self) -> (r: bool)
        ensures
            r == or_default(self.showcase, false),
    {
        flag(&self.showcase, false)
    }

    /// On unless set.
    pub fn get_pipeline_flush(&self) -> (r: bool)
        ensures
            r == or_default(self.pipeline_flush, true),
    {
        flag(&self.pipeline_flush, true)
    }

    /// No timeout, 0, unless set.
    pub fn get_global_response_timeout(&self) -> (r: i64)
        ensures
            r == match self.global_response_timeout {
                Some(t) => t,
                None => 0,
            },
    {
        match self.global_response_timeout {
            Some(t) => t,
            None => 0,
        }
    }

    /// 8000 unless set.
    pub fn get_port(&self) -> (r: u16)
        ensures
            r == match self.port {
                Some(p) => p,
                None => 8000,
            },
    {
        match self.port {
            Some(p) => p,
            None => 8000,
        }
    }

    /// HTTP/1 unless set.
    pub fn get_version(&self) -> (r: HttpVersion)
        ensures
            r == match self.version {
                Some(v) => v,
                None => HttpVersion::HTTP1,
            },
    {
        match self.version {
            Some(v) => v,
            None => HttpVersion::HTTP1,
        }
    }

    /// As many workers as set, else as many as the machine offers.
    pub fn get_workers(&self, available: usize) -> (r: usize)
        ensures
            r == match self.workers {
                Some(w) => w,
                None => available,
            },
    {
        match self.workers {
            Some(w) => w,
            None => available,
        }
    }

    /// The hostname that is set, else `127.0.0.1`.
    pub fn get_hostname(&self) -> (r: String)
        ensures
            r@ == match self.hostname {
                Some(h) => h@,
                None => "127.0.0.1"@,
            },
    {
        match &self.hostname {
            Some(h) => h.clone(),
            None => String::from_str("127.0.0.1"),
        }
    }
}

/// A configuration: the schema and how each field is resolved.
#[derive(Clone, Debug, Default, PartialEq, Eq)]
pub struct Config {
    pub server: Server,
    pub upstream: Upstream,
    pub schema: RootSchema,
    pub types: Vec<(String, Type)>,
    pub unions: Vec<(String, Union)>,
    pub enums: Vec<(String, Enum)>,
}

/// `left` with one entry set: in place where `left` has the name, as a new
/// last entry where it has not.
pub open spec fn with_entry<T>(left: Seq<(String, T)>, entry: (String, T)) -> Seq<(String, T)> {
    match position(left, entry.0@) {
        Some(i) => left.update(i, entry),
        None => left.push(entry),
    }
}

/// `left` with the entries of `right` set one after the other.
pub open spec fn merged<T>(left: Seq<(String, T)>, right: Seq<(String, T)>) -> Seq<(String, T)>
    decreases right.len(),
{
    if right.len() == 0 {
        left
    } else {
        with_entry(merged(left, right.drop_last()), right.last())
    }
}

/// Merging into a table in which no name occurs twice gives such a table.
pub proof fn lemma_merged_distinct<T>(left: Seq<(String, T)>, right: Seq<(String, T)>)
    requires
        distinct_keys(left),
    ensures
        distinct_keys(merged(left, right)),
    decreases right.len(),
{
    if right.len() > 0 {
        lemma_merged_distinct(left, right.drop_last());
        lemma_upsert_distinct(merged(left, right.drop_last()), right.last().0, right.last().1);
    }
}

/// Sets the entries of `right` in `left`, one after the other.
pub fn merge_entries<T>(left: Vec<(String, T)>, right: Vec<(String, T)>) -> (r: Vec<(String, T)>)
    ensures
        r@ == merged(left@, right@),
        distinct_keys(left@) ==> distinct_keys(r@),
{
    proof {
        if distinct_keys(left@) {
            lemma_merged_distinct(left@, right@);
        }
    }
    let mut out = left;
    let ghost all = right@;
    for entry in it: right
        invariant
            it.seq() == all,
            out@ == merged(left@, all.take(it.index() as int)),
    {
        let ghost i = it.index() as int;
        let (key, value) = entry;
        upsert(&mut out, key, value);
        proof {
            assert(all.take(i + 1).drop_last() =~= all.take(i));
            assert(all.take(i + 1).last() == entry);
        }
    }
    assert(all.take(all.len() as int) =~= all);
    out
}

impl Config {
    /// The type named `name`.
    pub open spec fn spec_find_type(&self, name: Seq<char>) -> Option<Type> {
        lookup(self.types@, name)
    }

    /// The names of the types of the fields of the type named `name`, in
    /// the order of the fields; none where there is no such type.
    pub open spec fn field_types(&self, name: Seq<char>) -> Seq<Seq<char>> {
        match self.spec_find_type(name) {
            Some(t) => t.fields@.map_values(|f: (String, Field)| f.1.type_of@),
            None => Seq::empty(),
        }
    }

    /// No name occurs twice where the configuration keeps things by name:
    /// among the types, the unions and the enums, among the fields of a
    /// type, among the arguments of a field, and among the members of a
    /// union or an enum.
    pub open spec fn distinct_names(&self) -> bool {
        types_distinct(types_model(self.types@)) && members_distinct(unions_model(self.unions@))
            && members_distinct(enums_model(self.enums@))
    }

    /// `r` is both configurations: where both define a root operation
    /// type or a base URL, the one of `other` stands, as do the server
    /// settings of `other`; each type, union and enum of `other` takes the
    /// place of the one of that name in `self`, or is added after those of
    /// `self`.
    pub open spec fn merges(self, other: Config, r: Config) -> bool {
        &&& r.upstream.base_url == if other.upstream.base_url is Some {
            other.upstream.base_url
        } else {
            self.upstream.base_url
        }
        &&& r.schema.query == if other.schema.query is Some {
            other.schema.query
        } else {
            self.schema.query
        }
        &&& r.schema.mutation == if other.schema.mutation is Some {
            other.schema.mutation
        } else {
            self.schema.mutation
        }
        &&& r.schema.subscription == if other.schema.subscription is Some {
            other.schema.subscription
        } else {
            self.schema.subscription
        }
        &&& r.types@ == merged(self.types@, other.types@)
        &&& r.unions@ == merged(self.unions@, other.unions@)
        &&& r.enums@ == merged(self.enums@, other.enums@)
        &&& r.server == other.server
    }

    /// Both configurations, what `other` sets standing before what `self`
    /// sets.
    pub fn merge_right(self, other: Self) -> (r: Self)
        ensures
            self.merges(other, r),
            self.distinct_names() && other.distinct_names() ==> r.distinct_names(),
    {
        let Config { server: _, upstream, schema, types, unions, enums } = self;
        let Config {
            server,
            upstream: upstream_b,
            schema: schema_b,
            types: types_b,
            unions: unions_b,
            enums: enums_b,
        } = other;
        let base_url = if upstream_b.base_url.is_some() {
            upstream_b.base_url
        } else {
            upstream.base_url
        };
        let query = if schema_b.query.is_some() {
            schema_b.query
        } else {
            schema.query
        };
        let mutation = if schema_b.mutation.is_some() {
            schema_b.mutation
        } else {
            schema.mutation
        };
        let subscription = if schema_b.subscription.is_some() {
            schema_b.subscription
        } else {
            schema.subscription
        };
        proof {
            if self.distinct_names() && other.distinct_names() {
                lemma_types_distinct(types@);
                lemma_types_distinct(types_b@);
                lemma_merged_all(types@, types_b@, type_distinct());
                lemma_merged_distinct(types@, types_b@);
                lemma_types_distinct(merged(types@, types_b@));
                lemma_members_distinct(unions@);
                lemma_members_distinct(unions_b@);
                lemma_merged_all(unions@, unions_b@, no_member_twice());
                lemma_merged_distinct(unions@, unions_b@);
                lemma_members_distinct(merged(unions@, unions_b@));
                lemma_members_distinct(enums@);
                lemma_members_distinct(enums_b@);
                lemma_merged_all(enums@, enums_b@, no_member_twice());
                lemma_merged_distinct(enums@, enums_b@);
                lemma_members_distinct(merged(enums@, enums_b@));
            }
        }
        Config {
            server,
            upstream: Upstream { base_url },
            schema: RootSchema { query, mutation, subscription },
            types: merge_entries(types, types_b),
            unions: merge_entries(unions, unions_b),
            enums: merge_entries(enums, enums_b),
        }
    }

    /// The type named `name`.
    pub fn find_type(&self, name: &str) -> (r: Option<&Type>)
        ensures
            match r {
                Some(t) => self.spec_find_type(name@) == Some(*t),
                None => self.spec_find_type(name@) is None,
            },
    {
        find(&self.types, name)
    }
}

/// The texts of an optional string.
pub open spec fn opt_chars(text: Option<String>) -> Option<Seq<char>> {
    match text {
        Some(t) => Some(t@),
        None => None,
    }
}

/// The texts of a list of strings.
pub open spec fn chars_list(names: Seq<String>) -> Seq<Seq<char>> {
    Seq::new(names.len(), |i: int| names[i]@)
}

/// Keys and values as texts.
pub open spec fn key_values(pairs: Seq<KeyValue>) -> Seq<(Seq<char>, Seq<char>)> {
    Seq::new(pairs.len(), |i: int| (pairs[i].key@, pairs[i].value@))
}

/// The mathematical content of a [`Resolver`].
pub ghost enum ResolverModel {
    Http {
        path: Seq<char>,
        method: Method,
        query: Seq<(Seq<char>, Seq<char>)>,
        base_url: Option<Seq<char>>,
        headers: Seq<(Seq<char>, Seq<char>)>,
        body: Option<Seq<char>>,
        batch_key: Seq<Seq<char>>,
    },
    Grpc {
        base_url: Option<Seq<char>>,
        body: Option<Seq<char>>,
        group_by: Seq<Seq<char>>,
        headers: Seq<(Seq<char>, Seq<char>)>,
        method: Seq<char>,
    },
    Js { name: Seq<char> },
    Expr { body: crate::json::JsonValue },
}

impl View for Resolver {
    type V = ResolverModel;

    open spec fn view(&self) -> ResolverModel {
        match self {
            Resolver::Http(h) => ResolverModel::Http {
                path: h.path@,
                method: h.method,
                query: key_values(h.query@),
                base_url: opt_chars(h.base_url),
                headers: key_values(h.headers@),
                body: opt_chars(h.body),
                batch_key: chars_list(h.batch_key@),
            },
            Resolver::Grpc(g) => ResolverModel::Grpc {
                base_url: opt_chars(g.base_url),
                body: opt_chars(g.body),
                group_by: chars_list(g.group_by@),
                headers: key_values(g.headers@),
                method: g.method@,
            },
            Resolver::Js { name } => ResolverModel::Js { name: name@ },
            Resolver::Expr { body } => ResolverModel::Expr { body: body@ },
        }
    }
}

/// The mathematical content of an [`Arg`].
pub ghost struct ArgModel {
    pub type_of: Seq<char>,
    pub list: bool,
    pub required: bool,
    pub doc: Option<Seq<char>>,
    pub modify: Option<Seq<char>>,
    pub default_value: Option<crate::json::JsonValue>,
}

impl View for Arg {
    type V = ArgModel;

    open spec fn view(&self) -> ArgModel {
        ArgModel {
            type_of: self.type_of@,
            list: self.list,
            required: self.required,
            doc: opt_chars(self.doc),
            modify: opt_chars(self.modify),
            default_value: match self.default_value {
                Some(v) => Some(v@),
                None => None,
            },
        }
    }
}

/// The mathematical content of a [`Field`].
pub ghost struct FieldModel {
    pub type_of: Seq<char>,
    pub list: bool,
    pub required: bool,
    pub args: Seq<(Seq<char>, ArgModel)>,
    pub doc: Option<Seq<char>>,
    pub resolver: Option<ResolverModel>,
}

impl View for Field {
    type V = FieldModel;

    open spec fn view(&self) -> FieldModel {
        FieldModel {
            type_of: self.type_of@,
            list: self.list,
            required: self.required,
            args: viewed(self.args@),
            doc: opt_chars(self.doc),
            resolver: match self.resolver {
                Some(r) => Some(r@),
                None => None,
            },
        }
    }
}

/// The mathematical content of a [`Type`].
pub ghost struct TypeModel {
    pub fields: Seq<(Seq<char>, FieldModel)>,
    pub doc: Option<Seq<char>>,
    pub interface: bool,
    pub tag: Option<Seq<char>>,
}

impl View for Type {
    type V = TypeModel;

    open spec fn view(&self) -> TypeModel {
        TypeModel {
            fields: viewed(self.fields@),
            doc: opt_chars(self.doc),
            interface: self.interface,
            tag: match self.tag {
                Some(t) => Some(t.id@),
                None => None,
            },
        }
    }
}

/// The mathematical content of a [`Union`] or an [`Enum`]: its members and
/// its description.
pub ghost struct MembersModel {
    pub members: Seq<Seq<char>>,
    pub doc: Option<Seq<char>>,
}

impl View for Union {
    type V = MembersModel;

    open spec fn view(&self) -> MembersModel {
        MembersModel { members: chars_list(self.types@), doc: opt_chars(self.doc) }
    }
}

impl View for Enum {
    type V = MembersModel;

    open spec fn view(&self) -> MembersModel {
        MembersModel { members: chars_list(self.variants@), doc: opt_chars(self.doc) }
    }
}

/// The mathematical content of a table of types.
pub open spec fn types_model(types: Seq<(String, Type)>) -> Seq<(Seq<char>, TypeModel)> {
    viewed(types)
}

/// The mathematical content of a table of unions.
pub open spec fn unions_model(unions: Seq<(String, Union)>) -> Seq<(Seq<char>, MembersModel)> {
    viewed(unions)
}

/// The mathematical content of a table of enums.
pub open spec fn enums_model(enums: Seq<(String, Enum)>) -> Seq<(Seq<char>, MembersModel)> {
    viewed(enums)
}

/// No two fields have the same name, and no field has two arguments of
/// the same name.
pub open spec fn fields_distinct(fields: Seq<(Seq<char>, FieldModel)>) -> bool {
    unique_keys(fields) && forall|i: int|
        0 <= i < fields.len() ==> unique_keys((#[trigger] fields[i]).1.args)
}

/// No two types have the same name, and in each type the names of the
/// fields, and of the arguments of each field, are distinct.
pub open spec fn types_distinct(types: Seq<(Seq<char>, TypeModel)>) -> bool {
    unique_keys(types) && forall|i: int|
        0 <= i < types.len() ==> fields_distinct((#[trigger] types[i]).1.fields)
}

/// No two unions, or enums, have the same name, and none has a member
/// twice.
pub open spec fn members_distinct(table: Seq<(Seq<char>, MembersModel)>) -> bool {
    unique_keys(table) && forall|i: int|
        0 <= i < table.len() ==> (#[trigger] table[i]).1.members.no_duplicates()
}

/// Setting a field whose arguments have distinct names keeps the names of
/// fields and arguments distinct.
pub proof fn lemma_set_field(fields: Seq<(Seq<char>, FieldModel)>, key: Seq<char>, field: FieldModel)
    requires
        fields_distinct(fields),
        unique_keys(field.args),
    ensures
        fields_distinct(set_entry(fields, key, field)),
{
    lemma_set_entry_unique(fields, key, field);
    lemma_key_index(fields, key);
    let after = set_entry(fields, key, field);
    assert forall|i: int| 0 <= i < after.len() implies unique_keys((#[trigger] after[i]).1.args) by {
        if i < fields.len() && after[i] != (key, field) {
            assert(after[i] == fields[i]);
        }
    }
}

/// Setting a type whose fields and arguments have distinct names keeps the
/// names of types, fields and arguments distinct.
pub proof fn lemma_set_type(types: Seq<(Seq<char>, TypeModel)>, key: Seq<char>, ty: TypeModel)
    requires
        types_distinct(types),
        fields_distinct(ty.fields),
    ensures
        types_distinct(set_entry(types, key, ty)),
{
    lemma_set_entry_unique(types, key, ty);
    lemma_key_index(types, key);
    let after = set_entry(types, key, ty);
    assert forall|i: int| 0 <= i < after.len() implies fields_distinct(
        (#[trigger] after[i]).1.fields,
    ) by {
        if i < types.len() && after[i] != (key, ty) {
            assert(after[i] == types[i]);
        }
    }
}

/// Setting a union or an enum that has no member twice keeps names and
/// members distinct.
pub proof fn lemma_set_members(
    table: Seq<(Seq<char>, MembersModel)>,
    key: Seq<char>,
    value: MembersModel,
)
    requires
        members_distinct(table),
        value.members.no_duplicates(),
    ensures
        members_distinct(set_entry(table, key, value)),
{
    lemma_set_entry_unique(table, key, value);
    lemma_key_index(table, key);
    let after = set_entry(table, key, value);
    assert forall|i: int| 0 <= i < after.len() implies (
    #[trigger] after[i]).1.members.no_duplicates() by {
        if i < table.len() && after[i] != (key, value) {
            assert(after[i] == table[i]);
        }
    }
}

/// Every value of the table has the property `p`.
pub open spec fn all_values<T: View>(entries: Seq<(String, T)>, p: spec_fn(T::V) -> bool) -> bool {
    forall|i: int| 0 <= i < entries.len() ==> p((#[trigger] entries[i]).1@)
}

/// What holds of every value of two tables holds of every value of the
/// two merged.
pub proof fn lemma_merged_all<T: View>(
    left: Seq<(String, T)>,
    right: Seq<(String, T)>,
    p: spec_fn(T::V) -> bool,
)
    requires
        all_values(left, p),
        all_values(right, p),
    ensures
        all_values(merged(left, right), p),
    decreases right.len(),
{
    if right.len() > 0 {
        assert forall|i: int| 0 <= i < right.drop_last().len() implies p(
            (#[trigger] right.drop_last()[i]).1@,
        ) by {
            assert(right.drop_last()[i] == right[i]);
        }
        lemma_merged_all(left, right.drop_last(), p);
        let before = merged(left, right.drop_last());
        let after = merged(left, right);
        crate::entries::lemma_position(before, right.last().0@);
        assert(p(right[right.len() - 1].1@));
        assert forall|i: int| 0 <= i < after.len() implies p((#[trigger] after[i]).1@) by {
            if i < before.len() && after[i] != right.last() {
                assert(after[i] == before[i]);
            }
        }
    }
}

/// The property of a type that its fields, and their arguments, have
/// distinct names.
pub open spec fn type_distinct() -> spec_fn(TypeModel) -> bool {
    |ty: TypeModel| fields_distinct(ty.fields)
}

/// The property of a union or an enum that it has no member twice.
pub open spec fn no_member_twice() -> spec_fn(MembersModel) -> bool {
    |value: MembersModel| value.members.no_duplicates()
}

/// The names of a table of types are distinct as [`types_distinct`] says
/// exactly if no name occurs twice in the table and every type has fields
/// and arguments of distinct names.
pub proof fn lemma_types_distinct(types: Seq<(String, Type)>)
    ensures
        types_distinct(types_model(types)) == (distinct_keys(types) && all_values(
            types,
            type_distinct(),
        )),
{
    lemma_distinct_viewed(types);
    let p = type_distinct();
    if types_distinct(types_model(types)) {
        assert forall|i: int| 0 <= i < types.len() implies p((#[trigger] types[i]).1@) by {
            assert(viewed(types)[i].1 == types[i].1@);
        }
    }
    if distinct_keys(types) && all_values(types, p) {
        assert forall|i: int| 0 <= i < viewed(types).len() implies fields_distinct(
            (#[trigger] viewed(types)[i]).1.fields,
        ) by {
            assert(p(types[i].1@));
        }
    }
}

/// The same for a table of unions or enums.
pub proof fn lemma_members_distinct<T: View<V = MembersModel>>(table: Seq<(String, T)>)
    ensures
        members_distinct(viewed(table)) == (distinct_keys(table) && all_values(
            table,
            no_member_twice(),
        )),
{
    lemma_distinct_viewed(table);
    let p = no_member_twice();
    if members_distinct(viewed(table)) {
        assert forall|i: int| 0 <= i < table.len() implies p((#[trigger] table[i]).1@) by {
            assert(viewed(table)[i].1 == table[i].1@);
        }
    }
    if distinct_keys(table) && all_values(table, p) {
        assert forall|i: int| 0 <= i < viewed(table).len() implies (
        #[trigger] viewed(table)[i]).1.members.no_duplicates() by {
            assert(p(table[i].1@));
        }
    }
}

/// A copy of a list of keys with their values.
pub fn clone_pairs(pairs: &Vec<KeyValue>) -> (r: Vec<KeyValue>)
    ensures
        key_values(r@) == key_values(pairs@),
{
    let mut out: Vec<KeyValue> = Vec::new();
    let mut i: usize = 0;
    while i < pairs.len()
        invariant
            i <= pairs.len(),
            out.len() == i,
            forall|j: int|
                0 <= j < i ==> (#[trigger] out@[j]).key == pairs@[j].key && out@[j].value
                    == pairs@[j].value,
        decreases pairs.len() - i,
    {
        out.push(KeyValue { key: pairs[i].key.clone(), value: pairs[i].value.clone() });
        i += 1;
    }
    assert(key_values(out@) =~= key_values(pairs@));
    out
}

impl Resolver {
    /// A copy with the same content.
    pub fn copy(&self) -> (r: Resolver)
        ensures
            r@ == self@,
    {
        match self {
            Resolver::Http(h) => Resolver::Http(
                Http {
                    path: h.path.clone(),
                    method: h.method,
                    query: clone_pairs(&h.query),
                    base_url: clone_text(&h.base_url),
                    headers: clone_pairs(&h.headers),
                    body: clone_text(&h.body),
                    batch_key: clone_names(&h.batch_key),
                },
            ),
            Resolver::Grpc(g) => Resolver::Grpc(
                Grpc {
                    base_url: clone_text(&g.base_url),
                    body: clone_text(&g.body),
                    group_by: clone_names(&g.group_by),
                    headers: clone_pairs(&g.headers),
                    method: g.method.clone(),
                },
            ),
            Resolver::Js { name } => Resolver::Js { name: name.clone() },
            Resolver::Expr { body } => Resolver::Expr { body: body.clone() },
        }
    }
}

impl Arg {
    /// A copy with the same content.
    pub fn copy(&self) -> (r: Arg)
        ensures
            r@ == self@,
    {
        Arg {
            type_of: self.type_of.clone(),
            list: self.list,
            required: self.required,
            doc: clone_text(&self.doc),
            modify: clone_text(&self.modify),
            default_value: match &self.default_value {
                Some(v) => Some(v.clone()),
                None => None,
            },
        }
    }
}

impl Field {
    /// A copy with the same content.
    pub fn copy(&self) -> (r: Field)
        ensures
            r@ == self@,
    {
        let mut args: Vec<(String, Arg)> = Vec::new();
        let mut i: usize = 0;
        while i < self.args.len()
            invariant
                i <= self.args.len(),
                args.len() == i,
                forall|j: int|
                    0 <= j < i ==> (#[trigger] args@[j]).0@ == self.args@[j].0@ && args@[j].1@
                        == self.args@[j].1@,
            decreases self.args.len() - i,
        {
            args.push((self.args[i].0.clone(), self.args[i].1.copy()));
            i += 1;
        }
        let r = Field {
            type_of: self.type_of.clone(),
            list: self.list,
            required: self.required,
            args,
            doc: clone_text(&self.doc),
            resolver: match &self.resolver {
                Some(r) => Some(r.copy()),
                None => None,
            },
        };
        assert(r@.args =~= self@.args);
        r
    }
}

impl Type {
    /// A copy with the same content.
    pub fn copy(&self) -> (r: Type)
        ensures
            r@ == self@,
    {
        let mut fields: Vec<(String, Field)> = Vec::new();
        let mut i: usize = 0;
        while i < self.fields.len()
            invariant
                i <= self.fields.len(),
                fields.len() == i,
                forall|j: int|
                    0 <= j < i ==> (#[trigger] fields@[j]).0@ == self.fields@[j].0@
                        && fields@[j].1@ == self.fields@[j].1@,
            decreases self.fields.len() - i,
        {
            fields.push((self.fields[i].0.clone(), self.fields[i].1.copy()));
            i += 1;
        }
        let r = Type {
            fields,
            doc: clone_text(&self.doc),
            interface: self.interface,
            tag: match &self.tag {
                Some(t) => Some(Tag { id: t.id.clone() }),
                None => None,
            },
        };
        assert(r@.fields =~= self@.fields);
        r
    }
}

/// The names that the first `upto` arguments of a field refer to.
pub open spec fn arg_types(field: Field, upto: int) -> Seq<Seq<char>>
    decreases upto,
{
    if upto <= 0 {
        Seq::empty()
    } else {
        arg_types(field, upto - 1).push(field.args@[upto - 1].1.type_of@)
    }
}

/// The names that the first `upto` fields of a type refer to: for each
/// field its type, then the types of its arguments.
pub open spec fn type_uses(ty: Type, upto: int) -> Seq<Seq<char>>
    decreases upto,
{
    if upto <= 0 {
        Seq::empty()
    } else {
        let field = ty.fields@[upto - 1].1;
        type_uses(ty, upto - 1).push(field.type_of@) + arg_types(field, field.args@.len() as int)
    }
}

impl Config {
    /// The names that the item named `name` refers to: for a union its
    /// members, else for a type the types of its fields and of their
    /// arguments; nothing for any other name.
    pub open spec fn uses(&self, name: Seq<char>) -> Seq<Seq<char>> {
        match lookup(self.unions@, name) {
            Some(u) => chars_list(u.types@),
            None => match lookup(self.types@, name) {
                Some(t) => type_uses(t, t.fields@.len() as int),
                None => Seq::empty(),
            },
        }
    }
}

/// `path` is a walk along `next`: each name after the first is among what
/// `next` gives for the name before it.
pub open spec fn is_walk_by(next: spec_fn(Seq<char>) -> Seq<Seq<char>>, path: Seq<Seq<char>>) -> bool {
    path.len() >= 2 && forall|i: int| 1 <= i < path.len() ==> next(path[i - 1]).contains(#[trigger] path[i])
}

/// `to` is reached from `from` by a walk along `next`.
pub open spec fn reaches_by(
    next: spec_fn(Seq<char>) -> Seq<Seq<char>>,
    from: Seq<char>,
    to: Seq<char>,
) -> bool {
    exists|path: Seq<Seq<char>>|
        #![auto]
        is_walk_by(next, path) && path[0] == from && path.last() == to
}

impl Cors {
    /// The two hold the same settings, list for list.
    pub open spec fn same_as(&self, other: Cors) -> bool {
        &&& self.allow_credentials == other.allow_credentials
        &&& self.allow_headers@ == other.allow_headers@
        &&& self.allow_methods@ == other.allow_methods@
        &&& self.allow_origins@ == other.allow_origins@
        &&& self.allow_private_network == other.allow_private_network
        &&& self.expose_headers@ == other.expose_headers@
        &&& self.max_age == other.max_age
        &&& self.vary@ == other.vary@
    }

    /// A copy of the settings.
    pub fn copy(&self) -> (r: Cors)
        ensures
            r.same_as(*self),
    {
        let mut methods: Vec<Method> = Vec::new();
        let mut i: usize = 0;
        while i < self.allow_methods.len()
            invariant
                i <= self.allow_methods.len(),
                methods@ == self.allow_methods@.take(i as int),
            decreases self.allow_methods.len() - i,
        {
            methods.push(self.allow_methods[i]);
            assert(self.allow_methods@.take(i + 1) =~= self.allow_methods@.take(i as int).push(
                self.allow_methods@[i as int],
            ));
            i += 1;
        }
        assert(self.allow_methods@.take(self.allow_methods.len() as int) =~= self.allow_methods@);
        Cors {
            allow_credentials: self.allow_credentials,
            allow_headers: clone_names(&self.allow_headers),
            allow_methods: methods,
            allow_origins: clone_names(&self.allow_origins),
            allow_private_network: self.allow_private_network,
            expose_headers: clone_names(&self.expose_headers),
            max_age: self.max_age,
            vary: clone_names(&self.vary),
        }
    }
}

} // verus!
