//! A configuration together with what was resolved for it: proto
//! descriptors, scripts, certificates, credentials, and the names of the
//! types that occur as inputs and as outputs.

use vstd::prelude::*;

use crate::config::{Config, Field, Type};
use crate::names::{NameSet, str_eq};
use crate::proto::FileDescriptorSet;

verus! {

/// A resolved file: its content, and the identifier it was linked under.
#[derive(Clone, Debug, Default)]
pub struct Content<A> {
    pub id: Option<String>,
    pub content: A,
}

/// A set of JSON web keys, each as its JSON text.
#[derive(Clone, Debug, Default, PartialEq, Eq)]
pub struct JwkSet {
    pub keys: Vec<String>,
}

/// A REST endpoint declared next to the schema.
#[derive(Clone, Debug, PartialEq, Eq)]
pub struct Endpoint {
    pub method: String,
    pub path: String,
    pub query: String,
}

/// A compiled proto file and where it was read from.
#[derive(Debug)]
pub struct ProtoMetadata {
    pub descriptor_set: FileDescriptorSet,
    pub path: String,
}

/// What had to be fetched before a blueprint can be made: none of it can be
/// inferred from the configuration alone.
#[derive(Debug, Default)]
pub struct Extensions {
    /// The descriptors resolved from the links to proto files.
    pub grpc_file_descriptor_set: Option<FileDescriptorSet>,
    /// The content of the script file.
    pub script: Option<String>,
    /// The certificates for HTTP/2 with TLS, in DER form.
    pub cert: Vec<Vec<u8>>,
    /// The private keys for HTTP/2 with TLS, in DER form.
    pub keys: Vec<Vec<u8>>,
    /// The REST endpoints.
    pub endpoint_set: Vec<Endpoint>,
    pub htpasswd: Vec<Content<String>>,
    pub jwks: Vec<Content<JwkSet>>,
}

impl FileDescriptorSet {
    /// The files of `self`, then those of `other`.
    pub fn merge_right(self, other: Self) -> (r: Self)
        ensures
            r.file@ == self.file@ + other.file@,
    {
        let mut merged = self;
        let mut other = other;
        merged.file.append(&mut other.file);
        merged
    }
}

impl Extensions {
    pub fn add_proto(&mut self, metadata: ProtoMetadata)
        ensures
            final(self).grpc_file_descriptor_set matches Some(set) && set.file@ == match old(
                self,
            ).grpc_file_descriptor_set {
                Some(before) => before.file@ + metadata.descriptor_set.file@,
                None => metadata.descriptor_set.file@,
            },
            final(self).script == old(self).script,
            final(self).cert == old(self).cert,
            final(self).keys == old(self).keys,
            final(self).endpoint_set == old(self).endpoint_set,
            final(self).htpasswd == old(self).htpasswd,
            final(self).jwks == old(self).jwks,
    {
        let mut current: Option<FileDescriptorSet> = None;
        std::mem::swap(&mut self.grpc_file_descriptor_set, &mut current);
        let set = match current {
            Some(set) => set.merge_right(metadata.descriptor_set),
            None => metadata.descriptor_set,
        };
        self.grpc_file_descriptor_set = Some(set);
    }

    pub fn get_file_descriptor_set(&self) -> (r: Option<&FileDescriptorSet>)
        ensures
            match r {
                Some(set) => self.grpc_file_descriptor_set == Some(*set),
                None => self.grpc_file_descriptor_set is None,
            },
    {
        self.grpc_file_descriptor_set.as_ref()
    }

    /// Whether any credentials were resolved.
    pub fn has_auth(&self) -> (r: bool)
        ensures
            r == (self.htpasswd@.len() > 0 || self.jwks@.len() > 0),
    {
        self.htpasswd.len() > 0 || self.jwks.len() > 0
    }

    /// `r` is both sets of extensions: lists are joined, `self` first; of
    /// two scripts the one of `other` stands; the keys of `other` stand
    /// unless it has none.
    pub open spec fn merges(self, other: Extensions, r: Extensions) -> bool {
        &&& match (self.grpc_file_descriptor_set, other.grpc_file_descriptor_set) {
            (Some(a), Some(b)) => r.grpc_file_descriptor_set matches Some(set) && set.file@
                == a.file@ + b.file@,
            (None, Some(b)) => r.grpc_file_descriptor_set == Some(b),
            (Some(a), None) => r.grpc_file_descriptor_set == Some(a),
            (None, None) => r.grpc_file_descriptor_set is None,
        }
        &&& r.script == if other.script is Some {
            other.script
        } else {
            self.script
        }
        &&& r.cert@ == self.cert@ + other.cert@
        &&& r.keys == if other.keys@.len() > 0 {
            other.keys
        } else {
            self.keys
        }
        &&& r.endpoint_set@ == self.endpoint_set@ + other.endpoint_set@
        &&& r.htpasswd@ == self.htpasswd@ + other.htpasswd@
        &&& r.jwks@ == self.jwks@ + other.jwks@
    }

    /// Both sets of extensions.
    pub fn merge_right(self, other: Self) -> (r: Self)
        ensures
            self.merges(other, r),
    {
        let Extensions {
            grpc_file_descriptor_set: set_a,
            script: script_a,
            cert: mut cert,
            keys: keys_a,
            endpoint_set: mut endpoint_set,
            htpasswd: mut htpasswd,
            jwks: mut jwks,
        } = self;
        let Extensions {
            grpc_file_descriptor_set: set_b,
            script: script_b,
            cert: mut cert_b,
            keys: keys_b,
            endpoint_set: mut endpoint_set_b,
            htpasswd: mut htpasswd_b,
            jwks: mut jwks_b,
        } = other;
        let grpc_file_descriptor_set = match (set_a, set_b) {
            (Some(a), Some(b)) => Some(a.merge_right(b)),
            (None, Some(b)) => Some(b),
            (Some(a), None) => Some(a),
            (None, None) => None,
        };
        let script = if script_b.is_some() {
            script_b
        } else {
            script_a
        };
        cert.append(&mut cert_b);
        let keys = if keys_b.len() > 0 {
            keys_b
        } else {
            keys_a
        };
        endpoint_set.append(&mut endpoint_set_b);
        htpasswd.append(&mut htpasswd_b);
        jwks.append(&mut jwks_b);
        Extensions { grpc_file_descriptor_set, script, cert, keys, endpoint_set, htpasswd, jwks }
    }
}

/// A configuration with its extensions and the names of its input and
/// output types.
#[derive(Debug)]
pub struct ConfigModule {
    pub config: Config,
    pub extensions: Extensions,
    pub input_types: NameSet,
    pub output_types: NameSet,
}

impl ConfigModule {
    /// Both modules, part by part: the configurations and the extensions
    /// merged, and the names of the input and of the output types of both.
    /// Where neither configuration has a name twice, the merged one has
    /// none.
    pub fn merge_right(self, other: Self) -> (r: Self)
        ensures
            self.config.merges(other.config, r.config),
            self.config.distinct_names() && other.config.distinct_names()
                ==> r.config.distinct_names(),
            self.extensions.merges(other.extensions, r.extensions),
            r.input_types@ == self.input_types@.union(other.input_types@),
            r.output_types@ == self.output_types@.union(other.output_types@),
    {
        let ConfigModule { config, extensions, input_types, output_types } = self;
        let mut input_types = input_types;
        let mut output_types = output_types;
        input_types.extend(&other.input_types);
        output_types.extend(&other.output_types);
        ConfigModule {
            config: config.merge_right(other.config),
            extensions: extensions.merge_right(other.extensions),
            input_types,
            output_types,
        }
    }
}

impl Default for ConfigModule {
    /// The module of a configuration that defines nothing.
    fn default() -> (r: Self)
        ensures
            r.config.types@.len() == 0,
            r.config.unions@.len() == 0,
            r.config.enums@.len() == 0,
            r.config.schema.query is None,
            r.config.schema.mutation is None,
            r.config.schema.subscription is None,
            r.config.upstream.base_url is None,
            r.config.server.is_unset(),
            r.input_types@ == Set::<Seq<char>>::empty(),
            r.output_types@ == Set::<Seq<char>>::empty(),
            r.extensions.grpc_file_descriptor_set is None,
            r.extensions.script is None,
            r.extensions.cert@.len() == 0,
            r.extensions.keys@.len() == 0,
            r.extensions.endpoint_set@.len() == 0,
            r.extensions.htpasswd@.len() == 0,
            r.extensions.jwks@.len() == 0,
    {
        ConfigModule {
            config: Config {
                server: crate::config::Server::unset(),
                upstream: crate::config::Upstream { base_url: None },
                schema: crate::config::RootSchema {
                    query: None,
                    mutation: None,
                    subscription: None,
                },
                types: Vec::new(),
                unions: Vec::new(),
                enums: Vec::new(),
            },
            extensions: Extensions {
                grpc_file_descriptor_set: None,
                script: None,
                cert: Vec::new(),
                keys: Vec::new(),
                endpoint_set: Vec::new(),
                htpasswd: Vec::new(),
                jwks: Vec::new(),
            },
            input_types: NameSet::new(),
            output_types: NameSet::new(),
        }
    }
}

impl vstd::std_specs::convert::FromSpecImpl<Config> for ConfigModule {
    open spec fn obeys_from_spec() -> bool {
        false
    }

    open spec fn from_spec(config: Config) -> Self {
        arbitrary()
    }
}

impl From<Config> for ConfigModule {
    /// The module of a configuration that has no extensions.
    fn from(config: Config) -> (r: Self)
        ensures
            r.config == config,
            r.input_types@ == input_type_names(&config),
            r.output_types@ == output_type_names(&config, input_type_names(&config)),
            r.extensions.grpc_file_descriptor_set is None,
            r.extensions.script is None,
            r.extensions.cert@.len() == 0,
            r.extensions.keys@.len() == 0,
            r.extensions.endpoint_set@.len() == 0,
            r.extensions.htpasswd@.len() == 0,
            r.extensions.jwks@.len() == 0,
    {
        let input_types = get_input_types(&config);
        let output_types = get_output_types(&config, &input_types);
        ConfigModule {
            config,
            extensions: Extensions {
                grpc_file_descriptor_set: None,
                script: None,
                cert: Vec::new(),
                keys: Vec::new(),
                endpoint_set: Vec::new(),
                htpasswd: Vec::new(),
                jwks: Vec::new(),
            },
            input_types,
            output_types,
        }
    }
}

/// The scalar types that need no definition.
pub open spec fn spec_is_scalar(name: Seq<char>) -> bool {
    ||| name == "String"@
    ||| name == "Int"@
    ||| name == "Float"@
    ||| name == "ID"@
    ||| name == "Boolean"@
    ||| name == "JSON"@
    ||| name == "Empty"@
}

/// Whether `name` is a scalar type that needs no definition.
pub fn is_scalar(name: &str) -> (r: bool)
    ensures
        r == spec_is_scalar(name@),
{
    str_eq(name, "String") || str_eq(name, "Int") || str_eq(name, "Float") || str_eq(name, "ID")
        || str_eq(name, "Boolean") || str_eq(name, "JSON") || str_eq(name, "Empty")
}

/// Whether the fields of this entry count as outputs: the type is an
/// interface or has fields, and its name is not among the inputs.
pub open spec fn yields_outputs(entry: (String, Type), input_types: Set<Seq<char>>) -> bool {
    (entry.1.interface || entry.1.fields@.len() > 0) && !input_types.contains(entry.0@)
}

/// The names of the output types: the query and mutation roots, and the
/// type of every field of every type that yields outputs.
pub open spec fn output_type_names(config: &Config, input_types: Set<Seq<char>>) -> Set<
    Seq<char>,
> {
    Set::new(
        |n: Seq<char>|
            {
                ||| (config.schema.query matches Some(q) && q@ == n)
                ||| (config.schema.mutation matches Some(m) && m@ == n)
                ||| exists|i: int, k: int|
                    0 <= i < config.types@.len() && yields_outputs(config.types@[i], input_types)
                        && 0 <= k < config.types@[i].1.fields@.len()
                        && #[trigger] config.types@[i].1.fields@[k].1.type_of@ == n
            },
    )
}

/// The names of the types that occur as outputs.
pub fn get_output_types(config: &Config, input_types: &NameSet) -> (r: NameSet)
    ensures
        r@ == output_type_names(config, input_types@),
{
    let mut types = NameSet::new();
    if let Some(query) = &config.schema.query {
        types.insert(query.clone());
    }
    if let Some(mutation) = &config.schema.mutation {
        types.insert(mutation.clone());
    }
    let ghost roots = types@;
    let mut i: usize = 0;
    while i < config.types.len()
        invariant
            i <= config.types.len(),
            forall|n: Seq<char>| #[trigger]
                roots.contains(n) <==> ((config.schema.query matches Some(q) && q@ == n) || (
                config.schema.mutation matches Some(m) && m@ == n)),
            forall|n: Seq<char>| #[trigger]
                types@.contains(n) <==> (roots.contains(n) || exists|a: int, k: int|
                    0 <= a < i && yields_outputs(config.types@[a], input_types@) && 0 <= k
                        < config.types@[a].1.fields@.len()
                        && #[trigger] config.types@[a].1.fields@[k].1.type_of@ == n),
        decreases config.types.len() - i,
    {
        let entry = &config.types[i];
        if (entry.1.interface || entry.1.fields.len() > 0) && !input_types.contains(
            entry.0.as_str(),
        ) {
            let ghost before = types@;
            let mut k: usize = 0;
            while k < entry.1.fields.len()
                invariant
                    k <= entry.1.fields.len(),
                    forall|n: Seq<char>| #[trigger]
                        types@.contains(n) <==> (before.contains(n) || exists|j: int|
                            0 <= j < k && #[trigger] entry.1.fields@[j].1.type_of@ == n),
                decreases entry.1.fields.len() - k,
            {
                types.insert(entry.1.fields[k].1.type_of.clone());
                k += 1;
            }
            assert forall|n: Seq<char>| #[trigger]
                types@.contains(n) <==> (roots.contains(n) || exists|a: int, k: int|
                    0 <= a < i + 1 && yields_outputs(config.types@[a], input_types@) && 0 <= k
                        < config.types@[a].1.fields@.len()
                        && #[trigger] config.types@[a].1.fields@[k].1.type_of@ == n) by {
                if types@.contains(n) && !before.contains(n) {
                    let j = choose|j: int|
                        0 <= j < entry.1.fields.len() && #[trigger] entry.1.fields@[j].1.type_of@
                            == n;
                    assert(config.types@[i as int].1.fields@[j].1.type_of@ == n);
                }
            }
        }
        i += 1;
    }
    assert(types@ =~= output_type_names(config, input_types@));
    types
}

/// The names of the types of all fields of `types`, entry by entry.
pub open spec fn all_field_types(types: Seq<(String, Type)>) -> Seq<Seq<char>>
    decreases types.len(),
{
    if types.len() == 0 {
        Seq::empty()
    } else {
        all_field_types(types.drop_last()) + types.last().1.fields@.map_values(
            |f: (String, Field)| f.1.type_of@,
        )
    }
}

proof fn lemma_all_field_types(types: Seq<(String, Type)>, i: int, k: int)
    requires
        0 <= i < types.len(),
        0 <= k < types[i].1.fields@.len(),
    ensures
        all_field_types(types).contains(types[i].1.fields@[k].1.type_of@),
    decreases types.len(),
{
    let own = types.last().1.fields@.map_values(|f: (String, Field)| f.1.type_of@);
    let front = all_field_types(types.drop_last());
    if i == types.len() - 1 {
        assert(own[k] == types[i].1.fields@[k].1.type_of@);
        assert((front + own)[front.len() + k] == own[k]);
    } else {
        lemma_all_field_types(types.drop_last(), i, k);
        let at = choose|at: int|
            0 <= at < front.len() && front[at] == types[i].1.fields@[k].1.type_of@;
        assert((front + own)[at] == front[at]);
    }
}

/// Every type name that a field of the configuration has lies in one
/// finite set.
proof fn lemma_field_types_bounded(config: &Config, from: Seq<char>, to: Seq<char>)
    requires
        config.field_types(from).contains(to),
    ensures
        all_field_types(config.types@).to_set().contains(to),
        all_field_types(config.types@).to_set().finite(),
{
    vstd::seq_lib::seq_to_set_is_finite(all_field_types(config.types@));
    crate::entries::lemma_position(config.types@, from);
    let i = crate::entries::position(config.types@, from)->0;
    let names = config.field_types(from);
    let k = choose|k: int| 0 <= k < names.len() && names[k] == to;
    lemma_all_field_types(config.types@, i, k);
}

/// `path` is a walk along fields: each name after the first is the type of
/// a field of the type named before it.
pub open spec fn is_walk(config: &Config, path: Seq<Seq<char>>) -> bool {
    path.len() >= 2 && forall|i: int|
        1 <= i < path.len() ==> config.field_types(path[i - 1]).contains(#[trigger] path[i])
}

/// `to` is reached from `from` by a walk along fields that, after `from`,
/// passes through no name in `avoid`.
pub open spec fn reaches_avoiding(
    config: &Config,
    from: Seq<char>,
    avoid: Set<Seq<char>>,
    to: Seq<char>,
) -> bool {
    exists|path: Seq<Seq<char>>|
        #![auto]
        is_walk(config, path) && path[0] == from && path.last() == to && forall|i: int|
            1 <= i < path.len() ==> !avoid.contains(#[trigger] path[i])
}

/// `to` is reached from `from` by a walk along fields.
pub open spec fn reaches(config: &Config, from: Seq<char>, to: Seq<char>) -> bool {
    reaches_avoiding(config, from, Set::empty(), to)
}

/// A set that holds the field types of `from` and of each of its own
/// members outside `avoid` holds everything that `from` reaches without
/// passing through `avoid`.
pub proof fn lemma_closed_holds_reached(
    config: &Config,
    from: Seq<char>,
    avoid: Set<Seq<char>>,
    all: Set<Seq<char>>,
    path: Seq<Seq<char>>,
    upto: int,
)
    requires
        is_walk(config, path),
        path[0] == from,
        forall|i: int| 1 <= i < path.len() ==> !avoid.contains(#[trigger] path[i]),
        forall|n: Seq<char>| config.field_types(from).contains(n) ==> all.contains(n),
        forall|n: Seq<char>, m: Seq<char>|
            all.contains(n) && !avoid.contains(n) && config.field_types(n).contains(m)
                ==> all.contains(m),
        1 <= upto < path.len(),
    ensures
        all.contains(path[upto]),
    decreases upto,
{
    if upto > 1 {
        lemma_closed_holds_reached(config, from, avoid, all, path, upto - 1);
        assert(!avoid.contains(path[upto - 1]));
    }
    assert(config.field_types(path[upto - 1]).contains(path[upto]));
}

/// Adds to `types` every name that `type_of` reaches by a walk along fields
/// which passes through no name that `types` held before.
pub fn recurse_type(config: &Config, type_of: &str, types: &mut NameSet)
    ensures
        final(types)@ == old(types)@.union(
            Set::new(|n: Seq<char>| reaches_avoiding(config, type_of@, old(types)@, n)),
        ),
        forall|n: Seq<char>| config.field_types(type_of@).contains(n) ==> final(types)@.contains(n),
        forall|n: Seq<char>, m: Seq<char>|
            final(types)@.contains(n) && !old(types)@.contains(n) && config.field_types(
                n,
            ).contains(m) ==> final(types)@.contains(m),
    decreases all_field_types(config.types@).to_set().difference(old(types)@).len(),
{
    let ghost universe = all_field_types(config.types@).to_set();
    let ghost start = types@;
    proof {
        vstd::seq_lib::seq_to_set_is_finite(all_field_types(config.types@));
    }
    if let Some(type_) = config.find_type(type_of) {
        let ghost names = config.field_types(type_of@);
        let mut k: usize = 0;
        while k < type_.fields.len()
            invariant
                k <= type_.fields.len(),
                universe == all_field_types(config.types@).to_set(),
                universe.finite(),
                start == old(types)@,
                config.spec_find_type(type_of@) == Some(*type_),
                names == config.field_types(type_of@),
                forall|n: Seq<char>| start.contains(n) ==> types@.contains(n),
                forall|n: Seq<char>|
                    types@.contains(n) && !start.contains(n) ==> reaches_avoiding(
                        config,
                        type_of@,
                        start,
                        n,
                    ),
                forall|j: int| 0 <= j < k ==> types@.contains(#[trigger] names[j]),
                forall|n: Seq<char>, m: Seq<char>|
                    types@.contains(n) && !start.contains(n) && config.field_types(n).contains(m)
                        ==> types@.contains(m),
            decreases type_.fields.len() - k,
        {
            let field = &type_.fields[k].1;
            let ghost name = field.type_of@;
            assert(names[k as int] == name);
            assert(config.field_types(type_of@).contains(name));
            if !types.contains(field.type_of.as_str()) {
                let ghost before = types@;
                types.insert(field.type_of.clone());
                let ghost inserted = types@;
                proof {
                    lemma_field_types_bounded(config, type_of@, name);
                    assert(universe.difference(before).subset_of(universe.difference(start)));
                    vstd::set_lib::lemma_len_subset(
                        universe.difference(before),
                        universe.difference(start),
                    );
                    universe.lemma_set_insert_diff_decreases(before, name);
                }
                recurse_type(config, field.type_of.as_str(), types);
                proof {
                    let step = seq![type_of@, name];
                    assert(is_walk(config, step));
                    assert(step.last() == name);
                    assert(reaches_avoiding(config, type_of@, start, name));
                    assert forall|n: Seq<char>|
                        types@.contains(n) && !start.contains(n) implies reaches_avoiding(
                        config,
                        type_of@,
                        start,
                        n,
                    ) by {
                        if !inserted.contains(n) {
                            let tail = choose|path: Seq<Seq<char>>|
                                #![auto]
                                is_walk(config, path) && path[0] == name && path.last() == n
                                    && forall|i: int|
                                    1 <= i < path.len() ==> !inserted.contains(#[trigger] path[i]);
                            let path = seq![type_of@] + tail;
                            assert forall|i: int| 1 <= i < path.len() implies config.field_types(
                                path[i - 1],
                            ).contains(#[trigger] path[i]) by {
                                if i >= 2 {
                                    assert(path[i] == tail[i - 1]);
                                    assert(path[i - 1] == tail[i - 2]);
                                    assert(config.field_types(tail[i - 1 - 1]).contains(
                                        tail[i - 1],
                                    ));
                                }
                            }
                            assert forall|i: int| 1 <= i < path.len() implies !start.contains(
                                #[trigger] path[i],
                            ) by {
                                assert(path[i] == tail[i - 1]);
                                if i >= 2 {
                                    assert(!inserted.contains(tail[i - 1]));
                                }
                            }
                            assert(path.last() == n);
                            assert(is_walk(config, path));
                        }
                    }
                }
            }
            k += 1;
        }
        proof {
            assert forall|n: Seq<char>| config.field_types(type_of@).contains(n) implies types@.contains(
                n,
            ) by {
                let j = choose|j: int| 0 <= j < names.len() && names[j] == n;
                assert(types@.contains(names[j]));
            }
        }
    } else {
        assert(config.field_types(type_of@) =~= Seq::<Seq<char>>::empty());
    }
    proof {
        let reached = Set::new(|n: Seq<char>| reaches_avoiding(config, type_of@, start, n));
        assert forall|n: Seq<char>| reached.contains(n) implies types@.contains(n) by {
            let path = choose|path: Seq<Seq<char>>|
                #![auto]
                is_walk(config, path) && path[0] == type_of@ && path.last() == n && forall|i: int|
                    1 <= i < path.len() ==> !start.contains(#[trigger] path[i]);
            lemma_closed_holds_reached(config, type_of@, start, types@, path, path.len() - 1);
        }
        assert(types@ =~= start.union(reached));
    }
}

/// `all` holds, with each of its names, the types of the fields of the type
/// of that name.
pub open spec fn closed_under_fields(config: &Config, all: Set<Seq<char>>) -> bool {
    forall|n: Seq<char>, m: Seq<char>|
        all.contains(n) && config.field_types(n).contains(m) ==> all.contains(m)
}

/// `name` is the type of an argument of a field of a type that is no
/// interface, and is no scalar.
pub open spec fn is_input_root(config: &Config, name: Seq<char>) -> bool {
    !spec_is_scalar(name) && exists|i: int, k: int, j: int|
        0 <= i < config.types@.len() && !config.types@[i].1.interface && 0 <= k
            < config.types@[i].1.fields@.len() && 0 <= j
            < config.types@[i].1.fields@[k].1.args@.len()
            && #[trigger] config.types@[i].1.fields@[k].1.args@[j].1.type_of@ == name
}

/// The names of the input types: the non-scalar types of arguments, and
/// every name reached from one of them along fields.
pub open spec fn input_type_names(config: &Config) -> Set<Seq<char>> {
    Set::new(
        |n: Seq<char>|
            is_input_root(config, n) || exists|a: Seq<char>|
                is_input_root(config, a) && #[trigger] reaches(config, a, n),
    )
}

/// Adds the name `arg_type` and everything it reaches.
pub fn add_input_type(config: &Config, arg_type: &str, types: &mut NameSet)
    requires
        closed_under_fields(config, old(types)@),
    ensures
        closed_under_fields(config, final(types)@),
        final(types)@.contains(arg_type@),
        forall|n: Seq<char>| old(types)@.contains(n) ==> final(types)@.contains(n),
        forall|n: Seq<char>|
            final(types)@.contains(n) && !old(types)@.contains(n) ==> n == arg_type@ || reaches(
                config,
                arg_type@,
                n,
            ),
{
    let ghost start = types@;
    if let Some(t) = config.find_type(arg_type) {
        let ghost names = config.field_types(arg_type@);
        let mut k: usize = 0;
        while k < t.fields.len()
            invariant
                k <= t.fields.len(),
                config.spec_find_type(arg_type@) == Some(*t),
                names == config.field_types(arg_type@),
                closed_under_fields(config, types@),
                forall|n: Seq<char>| start.contains(n) ==> types@.contains(n),
                forall|j: int| 0 <= j < k ==> types@.contains(#[trigger] names[j]),
                forall|n: Seq<char>|
                    types@.contains(n) && !start.contains(n) ==> reaches(config, arg_type@, n),
            decreases t.fields.len() - k,
        {
            let field = &t.fields[k].1;
            let ghost name = field.type_of@;
            let ghost before = types@;
            assert(names[k as int] == name);
            types.insert(field.type_of.clone());
            let ghost inserted = types@;
            recurse_type(config, field.type_of.as_str(), types);
            proof {
                let step = seq![arg_type@, name];
                assert(is_walk(config, step));
                assert(step.last() == name);
                assert(reaches(config, arg_type@, name));
                assert forall|n: Seq<char>|
                    types@.contains(n) && !start.contains(n) implies reaches(
                    config,
                    arg_type@,
                    n,
                ) by {
                    if !inserted.contains(n) {
                        let tail = choose|path: Seq<Seq<char>>|
                            #![auto]
                            is_walk(config, path) && path[0] == name && path.last() == n
                                && forall|i: int|
                                1 <= i < path.len() ==> !inserted.contains(#[trigger] path[i]);
                        let path = seq![arg_type@] + tail;
                        assert forall|i: int| 1 <= i < path.len() implies config.field_types(
                            path[i - 1],
                        ).contains(#[trigger] path[i]) by {
                            if i >= 2 {
                                assert(path[i] == tail[i - 1]);
                                assert(path[i - 1] == tail[i - 2]);
                                assert(config.field_types(tail[i - 1 - 1]).contains(tail[i - 1]));
                            }
                        }
                        assert(path.last() == n);
                        assert(is_walk(config, path));
                    }
                }
                assert forall|n: Seq<char>, m: Seq<char>|
                    types@.contains(n) && config.field_types(n).contains(m) implies types@.contains(
                    m,
                ) by {
                    if before.contains(n) {
                        assert(before.contains(m));
                    }
                }
            }
            k += 1;
        }
        proof {
            assert forall|m: Seq<char>| config.field_types(arg_type@).contains(m) implies types@.contains(
                m,
            ) by {
                let j = choose|j: int| 0 <= j < names.len() && names[j] == m;
                assert(types@.contains(names[j]));
            }
        }
    } else {
        assert(config.field_types(arg_type@) =~= Seq::<Seq<char>>::empty());
    }
    types.insert(String::from_str(arg_type));
}

/// The names of the types that occur as inputs.
pub fn get_input_types(config: &Config) -> (r: NameSet)
    ensures
        r@ == input_type_names(config),
{
    let mut types = NameSet::new();
    let mut i: usize = 0;
    while i < config.types.len()
        invariant
            i <= config.types.len(),
            closed_under_fields(config, types@),
            forall|n: Seq<char>| types@.contains(n) ==> input_type_names(config).contains(n),
            forall|a: int, k: int, j: int|
                0 <= a < i && !config.types@[a].1.interface && 0 <= k
                    < config.types@[a].1.fields@.len() && 0 <= j
                    < config.types@[a].1.fields@[k].1.args@.len() && !spec_is_scalar(
                    #[trigger] config.types@[a].1.fields@[k].1.args@[j].1.type_of@,
                ) ==> types@.contains(config.types@[a].1.fields@[k].1.args@[j].1.type_of@),
        decreases config.types.len() - i,
    {
        let type_of = &config.types[i].1;
        if !type_of.interface {
            let mut k: usize = 0;
            while k < type_of.fields.len()
                invariant
                    i < config.types.len(),
                    k <= type_of.fields.len(),
                    *type_of == config.types@[i as int].1,
                    !type_of.interface,
                    closed_under_fields(config, types@),
                    forall|n: Seq<char>|
                        types@.contains(n) ==> input_type_names(config).contains(n),
                    forall|a: int, k: int, j: int|
                        0 <= a < i && !config.types@[a].1.interface && 0 <= k
                            < config.types@[a].1.fields@.len() && 0 <= j
                            < config.types@[a].1.fields@[k].1.args@.len() && !spec_is_scalar(
                            #[trigger] config.types@[a].1.fields@[k].1.args@[j].1.type_of@,
                        ) ==> types@.contains(config.types@[a].1.fields@[k].1.args@[j].1.type_of@),
                    forall|b: int, j: int|
                        0 <= b < k && 0 <= j < type_of.fields@[b].1.args@.len() && !spec_is_scalar(
                            #[trigger] type_of.fields@[b].1.args@[j].1.type_of@,
                        ) ==> types@.contains(type_of.fields@[b].1.args@[j].1.type_of@),
                decreases type_of.fields.len() - k,
            {
                let field = &type_of.fields[k].1;
                let mut j: usize = 0;
                while j < field.args.len()
                    invariant
                        i < config.types.len(),
                        k < type_of.fields.len(),
                        j <= field.args.len(),
                        *type_of == config.types@[i as int].1,
                        *field == type_of.fields@[k as int].1,
                        !type_of.interface,
                        closed_under_fields(config, types@),
                        forall|n: Seq<char>|
                            types@.contains(n) ==> input_type_names(config).contains(n),
                        forall|a: int, k: int, j: int|
                            0 <= a < i && !config.types@[a].1.interface && 0 <= k
                                < config.types@[a].1.fields@.len() && 0 <= j
                                < config.types@[a].1.fields@[k].1.args@.len() && !spec_is_scalar(
                                #[trigger] config.types@[a].1.fields@[k].1.args@[j].1.type_of@,
                            ) ==> types@.contains(
                                config.types@[a].1.fields@[k].1.args@[j].1.type_of@,
                            ),
                        forall|b: int, j: int|
                            0 <= b < k && 0 <= j < type_of.fields@[b].1.args@.len()
                                && !spec_is_scalar(
                                #[trigger] type_of.fields@[b].1.args@[j].1.type_of@,
                            ) ==> types@.contains(type_of.fields@[b].1.args@[j].1.type_of@),
                        forall|c: int|
                            0 <= c < j && !spec_is_scalar(#[trigger] field.args@[c].1.type_of@)
                                ==> types@.contains(field.args@[c].1.type_of@),
                    decreases field.args.len() - j,
                {
                    let arg = &field.args[j].1;
                    if !is_scalar(arg.type_of.as_str()) {
                        let ghost root = arg.type_of@;
                        assert(config.types@[i as int].1.fields@[k as int].1.args@[j as int].1.type_of@
                            == root);
                        assert(is_input_root(config, root));
                        add_input_type(config, arg.type_of.as_str(), &mut types);
                    }
                    j += 1;
                }
                k += 1;
            }
        }
        i += 1;
    }
    proof {
        assert forall|n: Seq<char>| input_type_names(config).contains(n) implies types@.contains(
            n,
        ) by {
            if is_input_root(config, n) {
            } else {
                let a = choose|a: Seq<char>|
                    is_input_root(config, a) && #[trigger] reaches(config, a, n);
                assert(types@.contains(a));
                let path = choose|path: Seq<Seq<char>>|
                    #![auto]
                    is_walk(config, path) && path[0] == a && path.last() == n && forall|i: int|
                        1 <= i < path.len() ==> !Set::<Seq<char>>::empty().contains(
                            #[trigger] path[i],
                        );
                lemma_closed_holds_reached(
                    config,
                    a,
                    Set::empty(),
                    types@,
                    path,
                    path.len() - 1,
                );
            }
        }
        assert(types@ =~= input_type_names(config));
    }
    types
}

} // verus!
