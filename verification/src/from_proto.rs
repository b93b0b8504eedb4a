//! Generation of a configuration from protocol buffer descriptors.

use vstd::prelude::*;

use crate::casing::{Case, cased, lowercased, to_lowercase};
use crate::config::{
    Arg, ArgModel, chars_list, Config, Enum, enums_model, Field, FieldModel, fields_distinct,
    Grpc, lemma_set_field, lemma_set_members, lemma_set_type, members_distinct, MembersModel,
    opt_chars, Resolver, ResolverModel, Tag, Type, TypeModel, types_distinct, types_model, Union,
    unions_model, with_entry,
};
use crate::entries::{
    find_index, key_index, keyed, lemma_key_index, lemma_position_keyed, lemma_same_keys,
    lemma_upsert_viewed, put, set_entry, unique_keys, upsert, viewed,
};
use crate::graphql_type::{GraphQLType, item_id, object_name};
use crate::names::str_eq;
use crate::proto::{
    EnumDescriptor, FieldDescriptor, FileDescriptor, FileDescriptorSet, Label, MessageDescriptor,
    MethodDescriptor, ServiceDescriptor,
};
use crate::text::{
    append_chars, chars_of, clone_names, decimal, decimal_digits, head_of, is_prefix_at,
    last_index_of, last_position, matches_at, string_of, tail_of,
};
use crate::unused::{kept, unused_names};

verus! {

/// Why no configuration could be generated.
#[derive(Clone, Debug, PartialEq, Eq)]
pub enum GeneratorError {
    /// A type was referred to by a name that does not start with `.`.
    NotFullyQualified(String),
    /// The field of this name belongs to a oneof that its message does not
    /// declare.
    OneofOutOfRange(String),
}

/// The mathematical content of a [`GeneratorError`].
pub ghost enum FaultModel {
    NotFullyQualified(Seq<char>),
    OneofOutOfRange(Seq<char>),
}

impl View for GeneratorError {
    type V = FaultModel;

    open spec fn view(&self) -> FaultModel {
        match self {
            GeneratorError::NotFullyQualified(name) => FaultModel::NotFullyQualified(name@),
            GeneratorError::OneofOutOfRange(name) => FaultModel::OneofOutOfRange(name@),
        }
    }
}

/// What is being generated: the configuration so far, the packages and
/// messages that enclose the item at hand, and the name of the query type.
#[derive(Debug)]
pub struct Context {
    pub namespace: Vec<String>,
    pub config: Config,
    pub query: String,
}

impl Context {
    pub fn new(query: &str) -> (r: Self)
        ensures
            r.query@ == query@,
            r.namespace@.len() == 0,
            r.config.types@.len() == 0,
            r.config.unions@.len() == 0,
            r.config.enums@.len() == 0,
            r.config.schema.query is None,
            r.config.schema.mutation is None,
            r.config.schema.subscription is None,
            r.config.upstream.base_url is None,
            r.config.server.is_unset(),
    {
        Context {
            query: String::from_str(query),
            namespace: Vec::new(),
            config: Config {
                server: crate::config::Server::unset(),
                upstream: crate::config::Upstream { base_url: None },
                schema: crate::config::RootSchema {
                    query: None,
                    mutation: None,
                    subscription: None,
                },
                types: Vec::new(),
                unions: Vec::new(),
                enums: Vec::new(),
            },
        }
    }

    /// Sets the type named `name`.
    pub fn insert_type(self, name: String, ty: Type) -> (r: Self)
        ensures
            r.config.types@ == with_entry(self.config.types@, (name, ty)),
            r@ == (GenModel { types: set_entry(self@.types, name@, ty@), ..self@ }),
            r.config.unions == self.config.unions,
            r.config.enums == self.config.enums,
            r.config.schema == self.config.schema,
            r.config.upstream == self.config.upstream,
            r.config.server == self.config.server,
            r.namespace == self.namespace,
            r.query == self.query,
            same_rest(r, self),
    {
        let Context { namespace, config, query } = self;
        let Config { server, upstream, schema, types: mut types, unions, enums } = config;
        let ghost before = types@;
        upsert(&mut types, name, ty);
        proof {
            lemma_upsert_viewed(before, types@, name, ty);
        }
        Context {
            namespace,
            config: Config { server, upstream, schema, types, unions, enums },
            query,
        }
    }
}

/// The name that a reference to a type stands for: after the leading `.`,
/// what follows the last `.` is the name, and what precedes it the package.
pub open spec fn ref_parts(name: Seq<char>) -> (Option<Seq<char>>, Seq<char>) {
    let rest = name.skip(1);
    match last_position(rest, '.') {
        Some(i) => (Some(rest.take(i)), rest.skip(i + 1)),
        None => (None, rest),
    }
}

/// `t` is what the reference `name` stands for.
pub open spec fn is_ref_of(t: GraphQLType, name: Seq<char>) -> bool {
    t.name@ == ref_parts(name).1 && match ref_parts(name).0 {
        Some(package) => t.package@.len() == 1 && t.package@[0]@ == package,
        None => t.package@.len() == 0,
    }
}

/// A reference to a type starts with `.`.
pub open spec fn fully_qualified(name: Seq<char>) -> bool {
    name.len() > 0 && name[0] == '.'
}

/// Reads a reference to a type, such as `.news.News`.
pub fn graphql_type_from_ref(name: &str) -> (r: Result<GraphQLType, GeneratorError>)
    ensures
        match r {
            Ok(t) => fully_qualified(name@) && is_ref_of(t, name@),
            Err(e) => !fully_qualified(name@) && e@ == FaultModel::NotFullyQualified(name@),
        },
{
    let chars = chars_of(name);
    if chars.len() == 0 || chars[0] != '.' {
        return Err(GeneratorError::NotFullyQualified(String::from_str(name)));
    }
    let rest = tail_of(&chars, 1);
    match last_index_of(&rest, '.') {
        Some(i) => {
            let package = string_of(&head_of(&rest, i));
            let own = string_of(&tail_of(&rest, i + 1));
            Ok(GraphQLType::new(own.as_str()).push(package.as_str()))
        },
        None => {
            let own = string_of(&rest);
            Ok(GraphQLType::new(own.as_str()))
        },
    }
}

/// The GraphQL scalar for a proto field type, given the type's name and
/// its lower-case form: without a leading `type_`, the lower-case name of a
/// numeric, boolean, text or message type gives its scalar; any other name
/// is handed back, in lower case without the prefix if it had one, else as
/// it was given.
pub open spec fn primitive_type_name(lower: Seq<char>, given: Seq<char>) -> Seq<char> {
    let ty = if is_prefix_at(lower, "type_"@) {
        lower.skip("type_"@.len() as int)
    } else {
        given
    };
    if ty == "double"@ || ty == "float"@ {
        "Float"@
    } else if ty == "int32"@ || ty == "int64"@ || ty == "fixed32"@ || ty == "fixed64"@ || ty
        == "uint32"@ || ty == "uint64"@ {
        "Int"@
    } else if ty == "bool"@ {
        "Boolean"@
    } else if ty == "string"@ || ty == "bytes"@ {
        "String"@
    } else if ty == "message"@ {
        "JSON"@
    } else {
        ty
    }
}

/// The GraphQL scalar for a proto field type, given the type's name and its
/// lower-case form.
pub fn primitive_type(lower: &str, given: &str) -> (r: String)
    ensures
        r@ == primitive_type_name(lower@, given@),
{
    let lower_chars = chars_of(lower);
    let prefix = chars_of("type_");
    let ty = if matches_at(&lower_chars, &prefix, 0) {
        string_of(&tail_of(&lower_chars, prefix.len()))
    } else {
        String::from_str(given)
    };
    let t = ty.as_str();
    if str_eq(t, "double") || str_eq(t, "float") {
        String::from_str("Float")
    } else if str_eq(t, "int32") || str_eq(t, "int64") || str_eq(t, "fixed32") || str_eq(
        t,
        "fixed64",
    ) || str_eq(t, "uint32") || str_eq(t, "uint64") {
        String::from_str("Int")
    } else if str_eq(t, "bool") {
        String::from_str("Boolean")
    } else if str_eq(t, "string") || str_eq(t, "bytes") {
        String::from_str("String")
    } else if str_eq(t, "message") {
        String::from_str("JSON")
    } else {
        ty
    }
}

/// The GraphQL scalar for the proto field type named `proto_ty`.
pub fn convert_primitive_type(proto_ty: &str) -> (r: String)
    ensures
        r@ == primitive_type_name(lowercased(proto_ty@), proto_ty@),
{
    let binding = to_lowercase(proto_ty);
    primitive_type(binding.as_str(), proto_ty)
}

/// The type that a service method returns: `Empty` where it returns
/// nothing, else the type referred to.
pub fn get_output_type(output_ty: &str) -> (r: Result<GraphQLType, GeneratorError>)
    ensures
        output_ty@ == ".google.protobuf.Empty"@ ==> (r matches Ok(t) && t.name@ == "Empty"@
            && t.package@.len() == 0),
        output_ty@ != ".google.protobuf.Empty"@ ==> match r {
            Ok(t) => fully_qualified(output_ty@) && is_ref_of(t, output_ty@),
            Err(e) => !fully_qualified(output_ty@) && e@ == FaultModel::NotFullyQualified(
                output_ty@,
            ),
        },
{
    if str_eq(output_ty, ".google.protobuf.Empty") {
        Ok(GraphQLType::new("Empty"))
    } else {
        graphql_type_from_ref(output_ty)
    }
}

/// The type that a service method takes: none where it takes nothing,
/// else the type referred to.
pub fn get_input_type(input_ty: &str) -> (r: Result<Option<GraphQLType>, GeneratorError>)
    ensures
        (input_ty@ == ".google.protobuf.Empty"@ || input_ty@.len() == 0) ==> r == Ok::<
            Option<GraphQLType>,
            GeneratorError,
        >(None),
        !(input_ty@ == ".google.protobuf.Empty"@ || input_ty@.len() == 0) ==> match r {
            Ok(Some(t)) => fully_qualified(input_ty@) && is_ref_of(t, input_ty@),
            Ok(None) => false,
            Err(e) => !fully_qualified(input_ty@) && e@ == FaultModel::NotFullyQualified(input_ty@),
        },
{
    if str_eq(input_ty, ".google.protobuf.Empty") || str_eq(input_ty, "") {
        proof {
            reveal_strlit("");
        }
        Ok(None)
    } else {
        proof {
            reveal_strlit("");
            assert(input_ty@.len() > 0) by {
                if input_ty@.len() == 0 {
                    assert(input_ty@ =~= ""@);
                }
            }
        }
        match graphql_type_from_ref(input_ty) {
            Ok(t) => Ok(Some(t)),
            Err(e) => Err(e),
        }
    }
}

/// The mathematical content of a [`Context`].
pub ghost struct GenModel {
    pub namespace: Seq<Seq<char>>,
    pub types: Seq<(Seq<char>, TypeModel)>,
    pub unions: Seq<(Seq<char>, MembersModel)>,
    pub enums: Seq<(Seq<char>, MembersModel)>,
    /// The name of the query type, once the configuration has one.
    pub root: Option<Seq<char>>,
    /// The name that the query type is to have.
    pub query: Seq<char>,
}

impl View for Context {
    type V = GenModel;

    open spec fn view(&self) -> GenModel {
        GenModel {
            namespace: chars_list(self.namespace@),
            types: types_model(self.config.types@),
            unions: unions_model(self.config.unions@),
            enums: enums_model(self.config.enums@),
            root: opt_chars(self.config.schema.query),
            query: self.query@,
        }
    }
}

/// What generation leaves alone is in `a` as it is in `b`.
pub open spec fn same_rest(a: Context, b: Context) -> bool {
    &&& a.config.schema.mutation == b.config.schema.mutation
    &&& a.config.schema.subscription == b.config.schema.subscription
    &&& a.config.upstream == b.config.upstream
    &&& a.config.server == b.config.server
    &&& a.query == b.query
}

/// `names` with `name` as a member: added at the end unless it is one.
pub open spec fn with_member(names: Seq<Seq<char>>, name: Seq<char>) -> Seq<Seq<char>> {
    if names.contains(name) {
        names
    } else {
        names.push(name)
    }
}

/// Makes `name` a member of `names`.
pub fn add_member(names: &mut Vec<String>, name: String)
    ensures
        chars_list(final(names)@) == with_member(chars_list(old(names)@), name@),
{
    let ghost before = chars_list(names@);
    let mut i: usize = 0;
    while i < names.len()
        invariant
            i <= names.len(),
            *names == *old(names),
            before == chars_list(names@),
            forall|j: int| 0 <= j < i ==> before[j] != name@,
        decreases names.len() - i,
    {
        if str_eq(names[i].as_str(), name.as_str()) {
            assert(before[i as int] == name@);
            return ;
        }
        i += 1;
    }
    names.push(name);
    assert(chars_list(names@) =~= before.push(name@));
}

/// The names of the values of an enum, each once, in their order.
pub open spec fn variants_of(e: EnumDescriptor, upto: int) -> Seq<Seq<char>>
    decreases upto,
{
    if upto <= 0 {
        Seq::empty()
    } else {
        with_member(variants_of(e, upto - 1), e.value@[upto - 1].name@)
    }
}

/// The enums `enums` together with those declared by the first `upto`
/// descriptors, each under the name that it has in the packages
/// `namespace`.
pub open spec fn enums_appended(
    enums: Seq<(Seq<char>, MembersModel)>,
    namespace: Seq<Seq<char>>,
    descriptors: Seq<EnumDescriptor>,
    upto: int,
) -> Seq<(Seq<char>, MembersModel)>
    decreases upto,
{
    if upto <= 0 {
        enums
    } else {
        let e = descriptors[upto - 1];
        set_entry(
            enums_appended(enums, namespace, descriptors, upto - 1),
            object_name(namespace, e.name@),
            MembersModel { members: variants_of(e, e.value@.len() as int), doc: None },
        )
    }
}

impl Context {
    /// Adds the enums `enums`, declared in the packages at hand.
    pub fn append_enums(self, enums: &Vec<EnumDescriptor>) -> (r: Self)
        ensures
            r@ == (GenModel {
                enums: enums_appended(self@.enums, self@.namespace, enums@, enums@.len() as int),
                ..self@
            }),
            r.namespace == self.namespace,
            same_rest(r, self),
    {
        let Context { namespace, config, query } = self;
        let Config { server, upstream, schema, types, unions, enums: mut table } = config;
        let mut i: usize = 0;
        while i < enums.len()
            invariant
                i <= enums.len(),
                namespace == self.namespace,
                enums_model(table@) == enums_appended(
                    self@.enums,
                    chars_list(namespace@),
                    enums@,
                    i as int,
                ),
            decreases enums.len() - i,
        {
            let e = &enums[i];
            let mut variants: Vec<String> = Vec::new();
            let mut k: usize = 0;
            assert(chars_list(variants@) =~= variants_of(*e, 0));
            while k < e.value.len()
                invariant
                    k <= e.value.len(),
                    chars_list(variants@) == variants_of(*e, k as int),
                decreases e.value.len() - k,
            {
                let variant = GraphQLType::new(e.value[k].name.as_str()).into_enum_variant();
                add_member(&mut variants, variant.to_string());
                k += 1;
            }
            let name = GraphQLType::new(e.name.as_str()).extend(&namespace).into_enum();
            assert(chars_list(name.source.package@) =~= chars_list(namespace@));
            put(&mut table, name.to_string(), Enum { variants, doc: None });
            i += 1;
        }
        Context {
            namespace,
            config: Config { server, upstream, schema, types, unions, enums: table },
            query,
        }
    }
}

/// A type with one more field, which is required.
pub open spec fn with_variant(base: TypeModel, entry: (Seq<char>, FieldModel)) -> TypeModel {
    TypeModel {
        fields: set_entry(base.fields, entry.0, FieldModel { required: true, ..entry.1 }),
        ..base
    }
}

/// The types that stand for a message with oneofs, from the oneof `from`
/// on: for each oneof a type without any of its fields, under a name that
/// ends in `__Var`, and for each of its fields a type with that field as a
/// required one, under a name that ends in `__Var` and the field's
/// number; and this for every choice made for the oneofs before.
pub open spec fn collected(
    name: Seq<char>,
    base: TypeModel,
    oneofs: Seq<Seq<(Seq<char>, FieldModel)>>,
    from: int,
) -> Seq<(Seq<char>, TypeModel)>
    decreases oneofs.len() - from, (if 0 <= from < oneofs.len() {
            oneofs[from].len() + 1
        } else {
            0
        }),
{
    if from < 0 || from >= oneofs.len() {
        seq![(name, base)]
    } else {
        collected(name + "__Var"@, base, oneofs, from + 1) + variants(
            name,
            base,
            oneofs,
            from,
            oneofs[from].len() as int,
        )
    }
}

/// The types for the first `upto` fields of the oneof `from`.
pub open spec fn variants(
    name: Seq<char>,
    base: TypeModel,
    oneofs: Seq<Seq<(Seq<char>, FieldModel)>>,
    from: int,
    upto: int,
) -> Seq<(Seq<char>, TypeModel)>
    decreases oneofs.len() - from, upto,
{
    if from < 0 || from >= oneofs.len() || upto <= 0 || upto > oneofs[from].len() {
        Seq::empty()
    } else {
        variants(name, base, oneofs, from, upto - 1) + collected(
            name + "__Var"@ + decimal((upto - 1) as nat),
            with_variant(base, oneofs[from][upto - 1]),
            oneofs,
            from + 1,
        )
    }
}

/// The mathematical content of the fields of a list of oneofs.
pub open spec fn oneofs_model(oneofs: Seq<Vec<(String, Field)>>) -> Seq<
    Seq<(Seq<char>, FieldModel)>,
> {
    Seq::new(oneofs.len(), |i: int| viewed(oneofs[i]@))
}

fn variant_name(name: &str, number: Option<usize>) -> (r: String)
    ensures
        r@ == name@ + "__Var"@ + match number {
            Some(n) => decimal(n as nat),
            None => Seq::empty(),
        },
{
    let mut chars = chars_of(name);
    let tail = chars_of("__Var");
    append_chars(&mut chars, &tail);
    match number {
        Some(n) => {
            let digits = decimal_digits(n);
            append_chars(&mut chars, &digits);
        },
        None => {
            assert(chars@ + Seq::<char>::empty() =~= chars@);
        },
    }
    string_of(&chars)
}

/// Collects the types that stand for a message with oneofs.
fn collect_types(
    name: String,
    base: Type,
    oneofs: &Vec<Vec<(String, Field)>>,
    from: usize,
    output: &mut Vec<(String, Type)>,
)
    requires
        from <= oneofs.len(),
    ensures
        types_model(final(output)@) == types_model(old(output)@) + collected(
            name@,
            base@,
            oneofs_model(oneofs@),
            from as int,
        ),
    decreases oneofs.len() - from,
{
    let ghost model = oneofs_model(oneofs@);
    let ghost start = types_model(output@);
    if from == oneofs.len() {
        output.push((name, base));
        assert(types_model(output@) =~= start + seq![(name@, base@)]);
        return ;
    }
    let one_of = &oneofs[from];
    assert(model[from as int] == viewed(one_of@));
    collect_types(variant_name(name.as_str(), None), base.copy(), oneofs, from + 1, output);
    assert(name@ + "__Var"@ + Seq::<char>::empty() =~= name@ + "__Var"@);
    let ghost without = collected(name@ + "__Var"@, base@, model, from + 1);
    let mut i: usize = 0;
    assert(types_model(output@) =~= start + without + variants(name@, base@, model, from as int, 0));
    while i < one_of.len()
        invariant
            i <= one_of.len(),
            from < oneofs.len(),
            model == oneofs_model(oneofs@),
            model[from as int] == viewed(one_of@),
            without == collected(name@ + "__Var"@, base@, model, from + 1),
            types_model(output@) == start + without + variants(
                name@,
                base@,
                model,
                from as int,
                i as int,
            ),
        decreases one_of.len() - i,
    {
        let mut new_type = base.copy();
        let mut field = one_of[i].1.copy();
        field.required = true;
        put(&mut new_type.fields, one_of[i].0.clone(), field);
        assert(new_type@ == with_variant(base@, model[from as int][i as int]));
        let ghost before = types_model(output@);
        collect_types(variant_name(name.as_str(), Some(i)), new_type, oneofs, from + 1, output);
        proof {
            let added = collected(
                name@ + "__Var"@ + decimal(i as nat),
                with_variant(base@, model[from as int][i as int]),
                model,
                from + 1,
            );
            assert(variants(name@, base@, model, from as int, i + 1) == variants(
                name@,
                base@,
                model,
                from as int,
                i as int,
            ) + added);
            assert(before + added =~= start + without + (variants(
                name@,
                base@,
                model,
                from as int,
                i as int,
            ) + added));
        }
        i += 1;
    }
    assert(start + without + variants(name@, base@, model, from as int, one_of.len() as int)
        =~= start + (without + variants(name@, base@, model, from as int, one_of.len() as int)));
}

/// The types `types` with the first `upto` of `entries` set, one after
/// the other.
pub open spec fn types_inserted(
    types: Seq<(Seq<char>, TypeModel)>,
    entries: Seq<(Seq<char>, TypeModel)>,
    upto: int,
) -> Seq<(Seq<char>, TypeModel)>
    decreases upto,
{
    if upto <= 0 {
        types
    } else {
        set_entry(types_inserted(types, entries, upto - 1), entries[upto - 1].0, entries[upto - 1].1)
    }
}

/// The names of the first `upto` of `entries`, each once.
pub open spec fn entry_names(entries: Seq<(Seq<char>, TypeModel)>, upto: int) -> Seq<Seq<char>>
    decreases upto,
{
    if upto <= 0 {
        Seq::empty()
    } else {
        with_member(entry_names(entries, upto - 1), entries[upto - 1].0)
    }
}

/// The content of a context after a message with oneofs has been added:
/// the types that stand for the message, and a union of them under the
/// message's name.
pub open spec fn oneofs_inserted(
    g: GenModel,
    name: Seq<char>,
    base: TypeModel,
    oneofs: Seq<Seq<(Seq<char>, FieldModel)>>,
) -> GenModel {
    let entries = collected(name, base, oneofs, 0);
    GenModel {
        types: types_inserted(g.types, entries, entries.len() as int),
        unions: set_entry(
            g.unions,
            name,
            MembersModel { members: entry_names(entries, entries.len() as int), doc: None },
        ),
        ..g
    }
}

impl Context {
    /// Adds a message that has oneofs: one type for each way of choosing,
    /// for each oneof, one of its fields or none, and a union of these
    /// types under the message's name.
    pub fn insert_oneofs(
        self,
        name: String,
        base_type: Type,
        oneof_fields: Vec<Vec<(String, Field)>>,
    ) -> (r: Self)
        ensures
            r@ == oneofs_inserted(self@, name@, base_type@, oneofs_model(oneof_fields@)),
            r.namespace == self.namespace,
            same_rest(r, self),
    {
        let mut union_types: Vec<(String, Type)> = Vec::new();
        assert(types_model(union_types@) =~= Seq::<(Seq<char>, TypeModel)>::empty());
        collect_types(name.clone(), base_type, &oneof_fields, 0, &mut union_types);
        let ghost entries = collected(name@, base_type@, oneofs_model(oneof_fields@), 0);
        assert(types_model(union_types@) =~= entries);
        let mut members: Vec<String> = Vec::new();
        let mut ctx = self;
        assert(chars_list(members@) =~= entry_names(entries, 0));
        for entry in it: union_types
            invariant
                it.seq().len() == entries.len(),
                types_model(it.seq()) == entries,
                chars_list(members@) == entry_names(entries, it.index() as int),
                ctx@ == (GenModel {
                    types: types_inserted(self@.types, entries, it.index() as int),
                    ..self@
                }),
                ctx.namespace == self.namespace,
                same_rest(ctx, self),
        {
            let ghost i = it.index() as int;
            let (member, ty) = entry;
            assert(entries[i] == (member@, ty@));
            add_member(&mut members, member.clone());
            ctx = ctx.insert_type(member, ty);
        }
        let Context { namespace, config, query } = ctx;
        let Config { server, upstream, schema, types, unions: mut unions, enums } = config;
        put(&mut unions, name, Union { types: members, doc: None });
        Context { namespace, config: Config { server, upstream, schema, types, unions, enums }, query }
    }
}

/// The name in the generated schema of the type that a reference stands
/// for.
pub open spec fn ref_object_name(reference: Seq<char>) -> Seq<char> {
    object_name(
        match ref_parts(reference).0 {
            Some(package) => seq![package],
            None => Seq::empty(),
        },
        ref_parts(reference).1,
    )
}

/// The field that is generated for a field of a message. A repeated field
/// is a list, and is required as a required field is. A field of a message
/// or enum type has the type that its reference stands for; any other
/// field the scalar for its type, and where that is `JSON` it is neither
/// a list nor required.
pub open spec fn field_of_descriptor(f: FieldDescriptor) -> Result<FieldModel, FaultModel> {
    let list = f.label == Label::Repeated;
    let required = f.label == Label::Required || list;
    match f.type_ref {
        Some(reference) => if fully_qualified(reference@) {
            Ok(
                FieldModel {
                    type_of: ref_object_name(reference@),
                    list,
                    required,
                    args: Seq::empty(),
                    doc: None,
                    resolver: None,
                },
            )
        } else {
            Err(FaultModel::NotFullyQualified(reference@))
        },
        None => {
            let scalar = primitive_type_name(
                lowercased(f.field_type.spec_name()),
                f.field_type.spec_name(),
            );
            Ok(
                FieldModel {
                    type_of: scalar,
                    list: list && scalar != "JSON"@,
                    required: required && scalar != "JSON"@,
                    args: Seq::empty(),
                    doc: None,
                    resolver: None,
                },
            )
        },
    }
}

/// The fields of a message, split into those that belong to no oneof and
/// those of each oneof.
pub ghost struct SplitModel {
    pub base: Seq<(Seq<char>, FieldModel)>,
    pub oneofs: Seq<Seq<(Seq<char>, FieldModel)>>,
}

/// The first `upto` fields of a message that declares `count` oneofs,
/// generated and split. Each field is named in camel case.
pub open spec fn fields_split(fields: Seq<FieldDescriptor>, count: nat, upto: int) -> Result<
    SplitModel,
    FaultModel,
>
    decreases upto,
{
    if upto <= 0 {
        Ok(SplitModel { base: Seq::empty(), oneofs: Seq::new(count, |i: int| Seq::empty()) })
    } else {
        match fields_split(fields, count, upto - 1) {
            Err(e) => Err(e),
            Ok(split) => {
                let f = fields[upto - 1];
                match field_of_descriptor(f) {
                    Err(e) => Err(e),
                    Ok(model) => {
                        let key = cased(f.name@, Case::Camel);
                        match f.oneof_index {
                            Some(k) => if k < count {
                                Ok(
                                    SplitModel {
                                        oneofs: split.oneofs.update(
                                            k as int,
                                            split.oneofs[k as int].push((key, model)),
                                        ),
                                        ..split
                                    },
                                )
                            } else {
                                Err(FaultModel::OneofOutOfRange(f.name@))
                            },
                            None => Ok(
                                SplitModel { base: set_entry(split.base, key, model), ..split },
                            ),
                        }
                    },
                }
            },
        }
    }
}

/// The content of a context after a message has been added: its enums and
/// the messages declared inside it, which lie in the message as in a
/// package, and then the message itself, as one type or, where it has
/// oneofs, as the types and the union that stand for it. A message that
/// only holds the entries of a map is passed over.
pub open spec fn message_appended(g: GenModel, m: MessageDescriptor) -> Result<GenModel, FaultModel>
    decreases m, 0int,
{
    if m.map_entry {
        Ok(g)
    } else {
        let inside = g.namespace.push(m.name@);
        let with_enums = GenModel {
            namespace: inside,
            enums: enums_appended(g.enums, inside, m.enum_type@, m.enum_type@.len() as int),
            ..g
        };
        match messages_appended(with_enums, m.nested_type@, m.nested_type@.len() as int) {
            Err(e) => Err(e),
            Ok(nested) => {
                let back = GenModel { namespace: g.namespace, ..nested };
                match fields_split(m.field@, m.oneof_count as nat, m.field@.len() as int) {
                    Err(e) => Err(e),
                    Ok(split) => {
                        let ty = TypeModel {
                            fields: split.base,
                            doc: None,
                            interface: false,
                            tag: Some(item_id(g.namespace, m.name@)),
                        };
                        let name = object_name(g.namespace, m.name@);
                        if m.oneof_count == 0 {
                            Ok(GenModel { types: set_entry(back.types, name, ty), ..back })
                        } else {
                            Ok(oneofs_inserted(back, name, ty, split.oneofs))
                        }
                    },
                }
            },
        }
    }
}

/// The content of a context after the first `upto` of the messages have
/// been added, one after the other.
pub open spec fn messages_appended(g: GenModel, messages: Seq<MessageDescriptor>, upto: int) -> Result<
    GenModel,
    FaultModel,
>
    decreases messages, upto,
{
    if upto <= 0 || upto > messages.len() {
        Ok(g)
    } else {
        match messages_appended(g, messages, upto - 1) {
            Err(e) => Err(e),
            Ok(before) => message_appended(before, messages[upto - 1]),
        }
    }
}

/// Generates the field for a field of a message.
fn field_for(f: &FieldDescriptor) -> (r: Result<Field, GeneratorError>)
    ensures
        match field_of_descriptor(*f) {
            Ok(model) => r matches Ok(field) && field@ == model,
            Err(e) => r matches Err(x) && x@ == e,
        },
{
    let list = match f.label {
        Label::Repeated => true,
        _ => false,
    };
    let required = match f.label {
        Label::Required => true,
        _ => list,
    };
    let mut field = Field {
        type_of: String::new(),
        list,
        required,
        args: Vec::new(),
        doc: None,
        resolver: None,
    };
    assert(field@.args =~= Seq::empty());
    match &f.type_ref {
        Some(reference) => {
            let name = match graphql_type_from_ref(reference.as_str()) {
                Ok(t) => t.into_object_type(),
                Err(e) => {
                    return Err(e);
                },
            };
            proof {
                if ref_parts(reference@).0 is Some {
                    assert(chars_list(name.source.package@) =~= seq![ref_parts(reference@).0->0]);
                } else {
                    assert(chars_list(name.source.package@) =~= Seq::<Seq<char>>::empty());
                }
            }
            field.type_of = name.to_string();
        },
        None => {
            let scalar = convert_primitive_type(f.field_type.as_str_name());
            if str_eq(scalar.as_str(), "JSON") {
                field.list = false;
                field.required = false;
            }
            field.type_of = scalar;
        },
    }
    assert(field@.args =~= Seq::empty());
    Ok(field)
}

/// Generates the fields of a message and splits them by oneof.
fn split_fields(fields: &Vec<FieldDescriptor>, count: usize) -> (r: Result<
    (Vec<(String, Field)>, Vec<Vec<(String, Field)>>),
    GeneratorError,
>)
    ensures
        match fields_split(fields@, count as nat, fields@.len() as int) {
            Ok(split) => r matches Ok((base, oneofs)) && viewed(base@) == split.base
                && oneofs_model(oneofs@) == split.oneofs,
            Err(e) => r matches Err(x) && x@ == e,
        },
{
    let mut base: Vec<(String, Field)> = Vec::new();
    let mut oneofs: Vec<Vec<(String, Field)>> = Vec::new();
    let mut n: usize = 0;
    while n < count
        invariant
            n <= count,
            oneofs.len() == n,
            forall|j: int| 0 <= j < n ==> (#[trigger] oneofs@[j])@.len() == 0,
        decreases count - n,
    {
        oneofs.push(Vec::new());
        n += 1;
    }
    assert(viewed(base@) =~= Seq::empty());
    assert forall|j: int| 0 <= j < count implies oneofs_model(oneofs@)[j] == Seq::<
        (Seq<char>, FieldModel),
    >::empty() by {
        assert(viewed(oneofs@[j]@) =~= Seq::empty());
    }
    assert(oneofs_model(oneofs@) =~= Seq::new(count as nat, |i: int| Seq::empty()));
    let mut i: usize = 0;
    while i < fields.len()
        invariant
            i <= fields.len(),
            oneofs.len() == count,
            fields_split(fields@, count as nat, i as int) == Ok::<SplitModel, FaultModel>(
                SplitModel { base: viewed(base@), oneofs: oneofs_model(oneofs@) },
            ),
        decreases fields.len() - i,
    {
        let f = &fields[i];
        proof {
            lemma_fields_split_stop(fields@, count as nat, i + 1);
        }
        let field = match field_for(f) {
            Ok(field) => field,
            Err(e) => {
                return Err(e);
            },
        };
        let key = GraphQLType::new(f.name.as_str()).into_field().to_string();
        match f.oneof_index {
            Some(k) => {
                if k < count {
                    let ghost before = oneofs_model(oneofs@);
                    let ghost old_oneofs = oneofs@;
                    let mut members = oneofs.remove(k);
                    let ghost old_members = members@;
                    members.push((key, field));
                    assert(viewed(members@) =~= viewed(old_members).push((key@, field@)));
                    oneofs.insert(k, members);
                    assert forall|j: int| 0 <= j < count implies oneofs_model(oneofs@)[j]
                        == before.update(k as int, before[k as int].push((key@, field@)))[j] by {
                        if j != k {
                            assert(oneofs@[j] == old_oneofs[j]);
                        }
                    }
                    assert(oneofs_model(oneofs@) =~= before.update(
                        k as int,
                        before[k as int].push((key@, field@)),
                    ));
                } else {
                    return Err(GeneratorError::OneofOutOfRange(f.name.clone()));
                }
            },
            None => {
                put(&mut base, key, field);
            },
        }
        i += 1;
    }
    Ok((base, oneofs))
}

/// Once a field is at fault, the fields after it change nothing.
proof fn lemma_fields_split_stop(fields: Seq<FieldDescriptor>, count: nat, upto: int)
    requires
        0 <= upto <= fields.len(),
    ensures
        fields_split(fields, count, upto) is Err ==> fields_split(fields, count, fields.len() as int)
            == fields_split(fields, count, upto),
    decreases fields.len() - upto,
{
    if upto < fields.len() {
        lemma_fields_split_stop(fields, count, upto + 1);
    }
}

/// Once a message is at fault, the messages after it change nothing.
proof fn lemma_messages_stop(g: GenModel, messages: Seq<MessageDescriptor>, upto: int)
    requires
        0 <= upto <= messages.len(),
    ensures
        messages_appended(g, messages, upto) is Err ==> messages_appended(
            g,
            messages,
            messages.len() as int,
        ) == messages_appended(g, messages, upto),
    decreases messages.len() - upto,
{
    if upto < messages.len() {
        lemma_messages_stop(g, messages, upto + 1);
    }
}

impl Context {
    /// Adds the messages `messages`, declared in the packages at hand.
    pub fn append_msg_type(self, messages: &Vec<MessageDescriptor>) -> (r: Result<
        Self,
        GeneratorError,
    >)
        ensures
            match messages_appended(self@, messages@, messages@.len() as int) {
                Ok(model) => r matches Ok(ctx) && ctx@ == model && same_rest(ctx, self),
                Err(e) => r matches Err(x) && x@ == e,
            },
        decreases messages,
    {
        let mut ctx = self;
        let mut i: usize = 0;
        while i < messages.len()
            invariant
                i <= messages.len(),
                messages_appended(self@, messages@, i as int) == Ok::<GenModel, FaultModel>(ctx@),
                same_rest(ctx, self),
            decreases messages.len() - i,
        {
            let message = &messages[i];
            proof {
                lemma_messages_stop(self@, messages@, i + 1);
                assert(decreases_to!(*messages => messages[i as int]));
                assert(decreases_to!(messages[i as int] => messages[i as int].nested_type));
            }
            if !message.map_entry {
                let ghost before = ctx@;
                let Context { namespace: outer, config, query } = ctx;
                let mut inside = clone_names(&outer);
                inside.push(message.name.clone());
                assert(chars_list(inside@) =~= before.namespace.push(message.name@));
                let inner = Context { namespace: inside, config, query };
                let inner = inner.append_enums(&message.enum_type);
                let ghost with_enums = inner@;
                assert(with_enums == (GenModel {
                    namespace: before.namespace.push(message.name@),
                    enums: enums_appended(
                        before.enums,
                        before.namespace.push(message.name@),
                        message.enum_type@,
                        message.enum_type@.len() as int,
                    ),
                    ..before
                }));
                let inner = match inner.append_msg_type(&message.nested_type) {
                    Ok(ctx) => ctx,
                    Err(e) => {
                        assert(message_appended(before, *message) is Err);
                        return Err(e);
                    },
                };
                let ghost nested = inner@;
                let Context { namespace: _, config, query } = inner;
                ctx = Context { namespace: outer, config, query };
                assert(ctx@ == (GenModel { namespace: before.namespace, ..nested }));
                let (base, oneofs) = match split_fields(&message.field, message.oneof_count) {
                    Ok(split) => split,
                    Err(e) => {
                        assert(message_appended(before, *message) is Err);
                        return Err(e);
                    },
                };
                let msg_type = GraphQLType::new(message.name.as_str()).extend(
                    &ctx.namespace,
                ).into_object_type();
                assert(chars_list(msg_type.source.package@) =~= before.namespace);
                let ty = Type {
                    fields: base,
                    doc: None,
                    interface: false,
                    tag: Some(Tag { id: msg_type.id() }),
                };
                if message.oneof_count == 0 {
                    ctx = ctx.insert_type(msg_type.to_string(), ty);
                } else {
                    ctx = ctx.insert_oneofs(msg_type.to_string(), ty, oneofs);
                }
                assert(message_appended(before, *message) == Ok::<GenModel, FaultModel>(ctx@));
            }
            i += 1;
        }
        Ok(ctx)
    }
}

/// The type that a method takes: none where it takes nothing, else the
/// reference it names, which must be fully qualified.
pub open spec fn input_of(m: MethodDescriptor) -> Result<Option<Seq<char>>, FaultModel> {
    if m.input_type@ == ".google.protobuf.Empty"@ || m.input_type@.len() == 0 {
        Ok(None)
    } else if fully_qualified(m.input_type@) {
        Ok(Some(m.input_type@))
    } else {
        Err(FaultModel::NotFullyQualified(m.input_type@))
    }
}

/// The name of the type that a method returns: `Empty` where it returns
/// nothing, else the name of the type that its reference stands for.
pub open spec fn output_of(m: MethodDescriptor) -> Result<Seq<char>, FaultModel> {
    if m.output_type@ == ".google.protobuf.Empty"@ {
        Ok(object_name(Seq::empty(), "Empty"@))
    } else if fully_qualified(m.output_type@) {
        Ok(ref_object_name(m.output_type@))
    } else {
        Err(FaultModel::NotFullyQualified(m.output_type@))
    }
}

/// The field of the query type that is generated for a method of a
/// service, with its name. The field is required and resolved by a gRPC
/// call of the method. Where the method takes a message, the field has one
/// required argument, named after the message in camel case, which is
/// sent as the body of the call.
pub open spec fn method_entry(namespace: Seq<Seq<char>>, service: Seq<char>, m: MethodDescriptor) -> Result<
    (Seq<char>, FieldModel),
    FaultModel,
> {
    let packages = namespace.push(service);
    match input_of(m) {
        Err(e) => Err(e),
        Ok(input) => match output_of(m) {
            Err(e) => Err(e),
            Ok(output) => Ok(
                (
                    object_name(packages, m.name@),
                    FieldModel {
                        type_of: output,
                        list: false,
                        required: true,
                        args: match input {
                            Some(reference) => seq![
                                (
                                    cased(ref_parts(reference).1, Case::Camel),
                                    ArgModel {
                                        type_of: ref_object_name(reference),
                                        list: false,
                                        required: true,
                                        doc: None,
                                        modify: None,
                                        default_value: None,
                                    },
                                ),
                            ],
                            None => Seq::empty(),
                        },
                        doc: None,
                        resolver: Some(
                            ResolverModel::Grpc {
                                base_url: None,
                                body: match input {
                                    Some(reference) => Some(
                                        "{{.args."@ + cased(ref_parts(reference).1, Case::Camel)
                                            + "}}"@,
                                    ),
                                    None => None,
                                },
                                group_by: Seq::empty(),
                                headers: Seq::empty(),
                                method: item_id(packages, m.name@),
                            },
                        ),
                    },
                ),
            ),
        },
    }
}

/// The content of a context with one more field of the query type. Where
/// there is no type of the query type's name yet, an empty one is added
/// first, and made the query root.
pub open spec fn with_query_field(g: GenModel, name: Seq<char>, field: FieldModel) -> GenModel {
    let empty = TypeModel { fields: Seq::empty(), doc: None, interface: false, tag: None };
    let (types, root) = if key_index(g.types, g.query) is None {
        (g.types.push((g.query, empty)), Some(g.query))
    } else {
        (g.types, g.root)
    };
    match key_index(types, g.query) {
        Some(at) => GenModel {
            types: types.update(
                at,
                (g.query, TypeModel { fields: set_entry(types[at].1.fields, name, field), ..types[at].1 }),
            ),
            root,
            ..g
        },
        None => g,
    }
}

/// The content of a context after the first `upto` methods of a service
/// have been added.
pub open spec fn methods_appended(g: GenModel, service: ServiceDescriptor, upto: int) -> Result<
    GenModel,
    FaultModel,
>
    decreases upto,
{
    if upto <= 0 {
        Ok(g)
    } else {
        match methods_appended(g, service, upto - 1) {
            Err(e) => Err(e),
            Ok(before) => match method_entry(
                before.namespace,
                service.name@,
                service.method@[upto - 1],
            ) {
                Err(e) => Err(e),
                Ok((name, field)) => Ok(with_query_field(before, name, field)),
            },
        }
    }
}

/// The content of a context after the first `upto` services have been
/// added.
pub open spec fn services_appended(g: GenModel, services: Seq<ServiceDescriptor>, upto: int) -> Result<
    GenModel,
    FaultModel,
>
    decreases upto,
{
    if upto <= 0 {
        Ok(g)
    } else {
        match services_appended(g, services, upto - 1) {
            Err(e) => Err(e),
            Ok(before) => methods_appended(
                before,
                services[upto - 1],
                services[upto - 1].method@.len() as int,
            ),
        }
    }
}

proof fn lemma_methods_stop(g: GenModel, service: ServiceDescriptor, upto: int)
    requires
        0 <= upto <= service.method@.len(),
    ensures
        methods_appended(g, service, upto) is Err ==> methods_appended(
            g,
            service,
            service.method@.len() as int,
        ) == methods_appended(g, service, upto),
    decreases service.method@.len() - upto,
{
    if upto < service.method@.len() {
        lemma_methods_stop(g, service, upto + 1);
    }
}

proof fn lemma_services_stop(g: GenModel, services: Seq<ServiceDescriptor>, upto: int)
    requires
        0 <= upto <= services.len(),
    ensures
        services_appended(g, services, upto) is Err ==> services_appended(
            g,
            services,
            services.len() as int,
        ) == services_appended(g, services, upto),
    decreases services.len() - upto,
{
    if upto < services.len() {
        lemma_services_stop(g, services, upto + 1);
    }
}

/// Generates the field of the query type for a method.
fn method_field(namespace: &Vec<String>, service: &str, m: &MethodDescriptor) -> (r: Result<
    (String, Field),
    GeneratorError,
>)
    ensures
        match method_entry(chars_list(namespace@), service@, *m) {
            Ok((name, field)) => r matches Ok((n, f)) && n@ == name && f@ == field,
            Err(e) => r matches Err(x) && x@ == e,
        },
{
    let field_name = GraphQLType::new(m.name.as_str()).extend(namespace).push(service).into_method();
    assert(chars_list(field_name.source.package@) =~= chars_list(namespace@).push(service@));
    let mut args: Vec<(String, Arg)> = Vec::new();
    let mut body: Option<String> = None;
    match get_input_type(m.input_type.as_str()) {
        Err(e) => {
            return Err(e);
        },
        Ok(None) => {
            assert(viewed(args@) =~= Seq::empty());
        },
        Ok(Some(graphql_type)) => {
            let key = GraphQLType::new(graphql_type.name.as_str()).into_field().to_string();
            let object = graphql_type.into_object_type();
            proof {
                if ref_parts(m.input_type@).0 is Some {
                    assert(chars_list(object.source.package@) =~= seq![
                        ref_parts(m.input_type@).0->0,
                    ]);
                } else {
                    assert(chars_list(object.source.package@) =~= Seq::<Seq<char>>::empty());
                }
            }
            let arg = Arg {
                type_of: object.to_string(),
                list: false,
                required: true,
                doc: None,
                modify: None,
                default_value: None,
            };
            let mut text = chars_of("{{.args.");
            let key_chars = chars_of(key.as_str());
            let close = chars_of("}}");
            append_chars(&mut text, &key_chars);
            append_chars(&mut text, &close);
            body = Some(string_of(&text));
            let ghost model = arg@;
            args.push((key, arg));
            assert(viewed(args@) =~= seq![(key@, model)]);
        },
    }
    let output = match get_output_type(m.output_type.as_str()) {
        Ok(t) => t.into_object_type(),
        Err(e) => {
            return Err(e);
        },
    };
    proof {
        if m.output_type@ == ".google.protobuf.Empty"@ {
            assert(chars_list(output.source.package@) =~= Seq::<Seq<char>>::empty());
        } else if ref_parts(m.output_type@).0 is Some {
            assert(chars_list(output.source.package@) =~= seq![ref_parts(m.output_type@).0->0]);
        } else {
            assert(chars_list(output.source.package@) =~= Seq::<Seq<char>>::empty());
        }
    }
    let grpc = Grpc {
        base_url: None,
        body,
        group_by: Vec::new(),
        headers: Vec::new(),
        method: field_name.id(),
    };
    let resolver = Resolver::Grpc(grpc);
    assert(crate::config::chars_list(resolver->Grpc_0.group_by@) =~= Seq::empty());
    assert(crate::config::key_values(resolver->Grpc_0.headers@) =~= Seq::empty());
    let field = Field {
        type_of: output.to_string(),
        list: false,
        required: true,
        args,
        doc: None,
        resolver: Some(resolver),
    };
    Ok((field_name.to_string(), field))
}

impl Context {
    /// Adds one field to the query type.
    fn insert_query_field(self, name: String, field: Field) -> (r: Self)
        ensures
            r@ == with_query_field(self@, name@, field@),
            r.namespace == self.namespace,
            same_rest(r, self),
    {
        let Context { namespace, config, query } = self;
        let Config { server, upstream, schema, types: mut types, unions, enums } = config;
        let mut schema = schema;
        let ghost before = types_model(types@);
        proof {
            lemma_position_keyed(types@, query@);
            lemma_same_keys(keyed(types@), viewed(types@), query@);
        }
        if find_index(&types, query.as_str()).is_none() {
            let empty = Type { fields: Vec::new(), doc: None, interface: false, tag: None };
            assert(viewed(empty.fields@) =~= Seq::empty());
            types.push((query.clone(), empty));
            schema.query = Some(query.clone());
            assert(types_model(types@) =~= before.push(
                (
                    query@,
                    TypeModel { fields: Seq::empty(), doc: None, interface: false, tag: None },
                ),
            ));
        }
        let ghost ready = types_model(types@);
        proof {
            lemma_position_keyed(types@, query@);
            lemma_same_keys(keyed(types@), viewed(types@), query@);
            lemma_key_index(ready, query@);
            if key_index(before, query@) is None {
                lemma_key_index(before, query@);
                assert(ready[before.len() as int].0 == query@);
            }
        }
        match find_index(&types, query.as_str()) {
            Some(at) => {
                let (key, ty) = types.remove(at);
                let Type { fields: mut fields, doc, interface, tag } = ty;
                put(&mut fields, name, field);
                types.insert(at, (key, Type { fields, doc, interface, tag }));
                assert(types_model(types@) =~= ready.update(
                    at as int,
                    (
                        query@,
                        TypeModel {
                            fields: set_entry(ready[at as int].1.fields, name@, field@),
                            ..ready[at as int].1
                        },
                    ),
                ));
            },
            None => {},
        }
        Context { namespace, config: Config { server, upstream, schema, types, unions, enums }, query }
    }

    /// Adds the methods of the services as fields of the query type.
    pub fn append_query_service(self, services: &Vec<ServiceDescriptor>) -> (r: Result<
        Self,
        GeneratorError,
    >)
        ensures
            match services_appended(self@, services@, services@.len() as int) {
                Ok(model) => r matches Ok(ctx) && ctx@ == model && same_rest(ctx, self),
                Err(e) => r matches Err(x) && x@ == e,
            },
    {
        let mut ctx = self;
        let mut i: usize = 0;
        while i < services.len()
            invariant
                i <= services.len(),
                services_appended(self@, services@, i as int) == Ok::<GenModel, FaultModel>(ctx@),
                same_rest(ctx, self),
            decreases services.len() - i,
        {
            let service = &services[i];
            let ghost start = ctx@;
            proof {
                lemma_services_stop(self@, services@, i + 1);
            }
            let mut k: usize = 0;
            while k < service.method.len()
                invariant
                    k <= service.method.len(),
                    i < services.len(),
                    *service == services@[i as int],
                    services_appended(self@, services@, i as int) == Ok::<GenModel, FaultModel>(
                        start,
                    ),
                    methods_appended(start, *service, k as int) == Ok::<GenModel, FaultModel>(
                        ctx@,
                    ),
                    same_rest(ctx, self),
                decreases service.method.len() - k,
            {
                proof {
                    lemma_methods_stop(start, *service, k + 1);
                    lemma_services_stop(self@, services@, i + 1);
                }
                match method_field(&ctx.namespace, service.name.as_str(), &service.method[k]) {
                    Ok((name, field)) => {
                        ctx = ctx.insert_query_field(name, field);
                    },
                    Err(e) => {
                        return Err(e);
                    },
                }
                k += 1;
            }
            i += 1;
        }
        Ok(ctx)
    }
}

/// The content of a context after a file has been added: its enums, its
/// messages and its services, all in the package of the file.
pub open spec fn file_appended(g: GenModel, file: FileDescriptor) -> Result<GenModel, FaultModel> {
    let inside = GenModel { namespace: seq![file.package@], ..g };
    let with_enums = GenModel {
        enums: enums_appended(
            inside.enums,
            inside.namespace,
            file.enum_type@,
            file.enum_type@.len() as int,
        ),
        ..inside
    };
    match messages_appended(with_enums, file.message_type@, file.message_type@.len() as int) {
        Err(e) => Err(e),
        Ok(with_messages) => services_appended(
            with_messages,
            file.service@,
            file.service@.len() as int,
        ),
    }
}

/// The content of a context after the first `upto` files of a set have
/// been added.
pub open spec fn files_appended(g: GenModel, files: Seq<FileDescriptor>, upto: int) -> Result<
    GenModel,
    FaultModel,
>
    decreases upto,
{
    if upto <= 0 {
        Ok(g)
    } else {
        match files_appended(g, files, upto - 1) {
            Err(e) => Err(e),
            Ok(before) => file_appended(before, files[upto - 1]),
        }
    }
}

/// The content of a context after the first `upto` sets of files have been
/// added.
pub open spec fn sets_appended(g: GenModel, sets: Seq<FileDescriptorSet>, upto: int) -> Result<
    GenModel,
    FaultModel,
>
    decreases upto,
{
    if upto <= 0 {
        Ok(g)
    } else {
        match sets_appended(g, sets, upto - 1) {
            Err(e) => Err(e),
            Ok(before) => files_appended(before, sets[upto - 1].file@, sets[upto - 1].file@.len() as int),
        }
    }
}

proof fn lemma_files_stop(g: GenModel, files: Seq<FileDescriptor>, upto: int)
    requires
        0 <= upto <= files.len(),
    ensures
        files_appended(g, files, upto) is Err ==> files_appended(g, files, files.len() as int)
            == files_appended(g, files, upto),
    decreases files.len() - upto,
{
    if upto < files.len() {
        lemma_files_stop(g, files, upto + 1);
    }
}

proof fn lemma_sets_stop(g: GenModel, sets: Seq<FileDescriptorSet>, upto: int)
    requires
        0 <= upto <= sets.len(),
    ensures
        sets_appended(g, sets, upto) is Err ==> sets_appended(g, sets, sets.len() as int)
            == sets_appended(g, sets, upto),
    decreases sets.len() - upto,
{
    if upto < sets.len() {
        lemma_sets_stop(g, sets, upto + 1);
    }
}

/// The context that generation starts from.
pub open spec fn start_of(query: Seq<char>) -> GenModel {
    GenModel {
        namespace: Seq::empty(),
        types: Seq::empty(),
        unions: Seq::empty(),
        enums: Seq::empty(),
        root: None,
        query,
    }
}

/// `full` is a configuration with the generated content `g`, and with
/// nothing else set: no mutation or subscription type, no base URL, and no
/// setting of the server.
pub open spec fn holds(full: Config, g: GenModel) -> bool {
    &&& types_model(full.types@) == g.types
    &&& unions_model(full.unions@) == g.unions
    &&& enums_model(full.enums@) == g.enums
    &&& opt_chars(full.schema.query) == g.root
    &&& full.schema.mutation is None
    &&& full.schema.subscription is None
    &&& full.upstream.base_url is None
    &&& full.server.is_unset()
}

/// No name occurs twice where the generated content keeps things by name:
/// among the types, the unions and the enums, among the fields of a type,
/// among the arguments of a field, and among the members of a union or an
/// enum.
pub open spec fn names_unique(g: GenModel) -> bool {
    types_distinct(g.types) && members_distinct(g.unions) && members_distinct(g.enums)
}

/// Adding a member to members of which none occurs twice gives such
/// members.
pub proof fn lemma_with_member(names: Seq<Seq<char>>, name: Seq<char>)
    requires
        names.no_duplicates(),
    ensures
        with_member(names, name).no_duplicates(),
{
    if !names.contains(name) {
        assert forall|i: int, j: int|
            0 <= i < names.push(name).len() && 0 <= j < names.push(name).len() && i != j implies names.push(
            name,
        )[i] != names.push(name)[j] by {
            if i < names.len() {
                assert(names.contains(names[i]));
            }
            if j < names.len() {
                assert(names.contains(names[j]));
            }
        }
    }
}

proof fn lemma_variants_of(e: EnumDescriptor, upto: int)
    ensures
        variants_of(e, upto).no_duplicates(),
    decreases upto,
{
    if upto > 0 {
        lemma_variants_of(e, upto - 1);
        lemma_with_member(variants_of(e, upto - 1), e.value@[upto - 1].name@);
    }
}

proof fn lemma_entry_names(entries: Seq<(Seq<char>, TypeModel)>, upto: int)
    ensures
        entry_names(entries, upto).no_duplicates(),
    decreases upto,
{
    if upto > 0 {
        lemma_entry_names(entries, upto - 1);
        lemma_with_member(entry_names(entries, upto - 1), entries[upto - 1].0);
    }
}

proof fn lemma_enums_unique(
    enums: Seq<(Seq<char>, MembersModel)>,
    namespace: Seq<Seq<char>>,
    descriptors: Seq<EnumDescriptor>,
    upto: int,
)
    requires
        members_distinct(enums),
    ensures
        members_distinct(enums_appended(enums, namespace, descriptors, upto)),
    decreases upto,
{
    if upto > 0 {
        lemma_enums_unique(enums, namespace, descriptors, upto - 1);
        let e = descriptors[upto - 1];
        lemma_variants_of(e, e.value@.len() as int);
        lemma_set_members(
            enums_appended(enums, namespace, descriptors, upto - 1),
            object_name(namespace, e.name@),
            MembersModel { members: variants_of(e, e.value@.len() as int), doc: None },
        );
    }
}

/// Every type of the list has fields and arguments of distinct names.
pub open spec fn entries_distinct(entries: Seq<(Seq<char>, TypeModel)>) -> bool {
    forall|i: int| 0 <= i < entries.len() ==> fields_distinct((#[trigger] entries[i]).1.fields)
}

/// No field of a oneof has two arguments of the same name.
pub open spec fn oneofs_distinct(oneofs: Seq<Seq<(Seq<char>, FieldModel)>>) -> bool {
    forall|k: int, i: int|
        0 <= k < oneofs.len() && 0 <= i < oneofs[k].len() ==> unique_keys(
            (#[trigger] oneofs[k][i]).1.args,
        )
}

proof fn lemma_types_inserted_unique(
    types: Seq<(Seq<char>, TypeModel)>,
    entries: Seq<(Seq<char>, TypeModel)>,
    upto: int,
)
    requires
        types_distinct(types),
        entries_distinct(entries),
        upto <= entries.len(),
    ensures
        types_distinct(types_inserted(types, entries, upto)),
    decreases upto,
{
    if upto > 0 {
        lemma_types_inserted_unique(types, entries, upto - 1);
        assert(fields_distinct(entries[upto - 1].1.fields));
        lemma_set_type(
            types_inserted(types, entries, upto - 1),
            entries[upto - 1].0,
            entries[upto - 1].1,
        );
    }
}

proof fn lemma_collected(
    name: Seq<char>,
    base: TypeModel,
    oneofs: Seq<Seq<(Seq<char>, FieldModel)>>,
    from: int,
)
    requires
        fields_distinct(base.fields),
        oneofs_distinct(oneofs),
    ensures
        entries_distinct(collected(name, base, oneofs, from)),
    decreases oneofs.len() - from, (if 0 <= from < oneofs.len() {
            oneofs[from].len() + 1
        } else {
            0
        }),
{
    if !(from < 0 || from >= oneofs.len()) {
        lemma_collected(name + "__Var"@, base, oneofs, from + 1);
        lemma_variants(name, base, oneofs, from, oneofs[from].len() as int);
    }
}

proof fn lemma_variants(
    name: Seq<char>,
    base: TypeModel,
    oneofs: Seq<Seq<(Seq<char>, FieldModel)>>,
    from: int,
    upto: int,
)
    requires
        fields_distinct(base.fields),
        oneofs_distinct(oneofs),
    ensures
        entries_distinct(variants(name, base, oneofs, from, upto)),
    decreases oneofs.len() - from, upto,
{
    if !(from < 0 || from >= oneofs.len() || upto <= 0 || upto > oneofs[from].len()) {
        lemma_variants(name, base, oneofs, from, upto - 1);
        let entry = oneofs[from][upto - 1];
        assert(unique_keys(entry.1.args));
        lemma_set_field(base.fields, entry.0, FieldModel { required: true, ..entry.1 });
        lemma_collected(
            name + "__Var"@ + decimal((upto - 1) as nat),
            with_variant(base, entry),
            oneofs,
            from + 1,
        );
    }
}

proof fn lemma_fields_split(fields: Seq<FieldDescriptor>, count: nat, upto: int)
    ensures
        fields_split(fields, count, upto) matches Ok(split) ==> fields_distinct(split.base)
            && oneofs_distinct(split.oneofs) && split.oneofs.len() == count,
    decreases upto,
{
    if upto > 0 {
        lemma_fields_split(fields, count, upto - 1);
        match fields_split(fields, count, upto - 1) {
            Err(_) => {},
            Ok(split) => {
                let f = fields[upto - 1];
                match field_of_descriptor(f) {
                    Err(_) => {},
                    Ok(model) => {
                        let key = cased(f.name@, Case::Camel);
                        assert(model.args =~= Seq::empty());
                        match f.oneof_index {
                            Some(k) => if k < count {
                                let after = split.oneofs.update(
                                    k as int,
                                    split.oneofs[k as int].push((key, model)),
                                );
                                assert forall|a: int, i: int|
                                    0 <= a < after.len() && 0 <= i < after[a].len() implies unique_keys(
                                    (#[trigger] after[a][i]).1.args,
                                ) by {
                                    if a == k as int {
                                        if i < split.oneofs[k as int].len() {
                                            assert(after[a][i] == split.oneofs[a][i]);
                                        }
                                    } else {
                                        assert(after[a][i] == split.oneofs[a][i]);
                                    }
                                }
                            },
                            None => lemma_set_field(split.base, key, model),
                        }
                    },
                }
            },
        }
    }
}

proof fn lemma_oneofs_unique(
    g: GenModel,
    name: Seq<char>,
    base: TypeModel,
    oneofs: Seq<Seq<(Seq<char>, FieldModel)>>,
)
    requires
        names_unique(g),
        fields_distinct(base.fields),
        oneofs_distinct(oneofs),
    ensures
        names_unique(oneofs_inserted(g, name, base, oneofs)),
{
    let entries = collected(name, base, oneofs, 0);
    lemma_collected(name, base, oneofs, 0);
    lemma_types_inserted_unique(g.types, entries, entries.len() as int);
    lemma_entry_names(entries, entries.len() as int);
    lemma_set_members(
        g.unions,
        name,
        MembersModel { members: entry_names(entries, entries.len() as int), doc: None },
    );
}

proof fn lemma_message_unique(g: GenModel, m: MessageDescriptor)
    requires
        names_unique(g),
    ensures
        message_appended(g, m) matches Ok(r) ==> names_unique(r),
    decreases m, 0int,
{
    if !m.map_entry {
        let inside = g.namespace.push(m.name@);
        lemma_enums_unique(g.enums, inside, m.enum_type@, m.enum_type@.len() as int);
        let with_enums = GenModel {
            namespace: inside,
            enums: enums_appended(g.enums, inside, m.enum_type@, m.enum_type@.len() as int),
            ..g
        };
        lemma_messages_unique(with_enums, m.nested_type@, m.nested_type@.len() as int);
        match messages_appended(with_enums, m.nested_type@, m.nested_type@.len() as int) {
            Err(_) => {},
            Ok(nested) => {
                let back = GenModel { namespace: g.namespace, ..nested };
                lemma_fields_split(m.field@, m.oneof_count as nat, m.field@.len() as int);
                match fields_split(m.field@, m.oneof_count as nat, m.field@.len() as int) {
                    Err(_) => {},
                    Ok(split) => {
                        let ty = TypeModel {
                            fields: split.base,
                            doc: None,
                            interface: false,
                            tag: Some(item_id(g.namespace, m.name@)),
                        };
                        let name = object_name(g.namespace, m.name@);
                        if m.oneof_count == 0 {
                            lemma_set_type(back.types, name, ty);
                        } else {
                            lemma_oneofs_unique(back, name, ty, split.oneofs);
                        }
                    },
                }
            },
        }
    }
}

proof fn lemma_messages_unique(g: GenModel, messages: Seq<MessageDescriptor>, upto: int)
    requires
        names_unique(g),
    ensures
        messages_appended(g, messages, upto) matches Ok(r) ==> names_unique(r),
    decreases messages, upto,
{
    if !(upto <= 0 || upto > messages.len()) {
        lemma_messages_unique(g, messages, upto - 1);
        match messages_appended(g, messages, upto - 1) {
            Err(_) => {},
            Ok(before) => lemma_message_unique(before, messages[upto - 1]),
        }
    }
}

proof fn lemma_query_field_unique(g: GenModel, name: Seq<char>, field: FieldModel)
    requires
        names_unique(g),
        unique_keys(field.args),
    ensures
        names_unique(with_query_field(g, name, field)),
{
    let empty = TypeModel { fields: Seq::empty(), doc: None, interface: false, tag: None };
    lemma_key_index(g.types, g.query);
    let types = if key_index(g.types, g.query) is None {
        g.types.push((g.query, empty))
    } else {
        g.types
    };
    assert(types_distinct(types)) by {
        assert forall|i: int| 0 <= i < types.len() implies fields_distinct(
            (#[trigger] types[i]).1.fields,
        ) by {
            if i < g.types.len() {
                assert(types[i] == g.types[i]);
            }
        }
    }
    lemma_key_index(types, g.query);
    match key_index(types, g.query) {
        Some(at) => {
            let ty = TypeModel { fields: set_entry(types[at].1.fields, name, field), ..types[at].1 };
            lemma_set_field(types[at].1.fields, name, field);
            let after = types.update(at, (g.query, ty));
            assert forall|i: int| 0 <= i < after.len() implies fields_distinct(
                (#[trigger] after[i]).1.fields,
            ) by {
                if i != at {
                    assert(after[i] == types[i]);
                }
            }
        },
        None => {},
    }
}

proof fn lemma_method_entry(namespace: Seq<Seq<char>>, service: Seq<char>, m: MethodDescriptor)
    ensures
        method_entry(namespace, service, m) matches Ok((_, field)) ==> unique_keys(field.args),
{
}

proof fn lemma_methods_unique(g: GenModel, service: ServiceDescriptor, upto: int)
    requires
        names_unique(g),
    ensures
        methods_appended(g, service, upto) matches Ok(r) ==> names_unique(r),
    decreases upto,
{
    if upto > 0 {
        lemma_methods_unique(g, service, upto - 1);
        match methods_appended(g, service, upto - 1) {
            Err(_) => {},
            Ok(before) => {
                lemma_method_entry(before.namespace, service.name@, service.method@[upto - 1]);
                match method_entry(before.namespace, service.name@, service.method@[upto - 1]) {
                    Err(_) => {},
                    Ok((name, field)) => lemma_query_field_unique(before, name, field),
                }
            },
        }
    }
}

proof fn lemma_services_unique(g: GenModel, services: Seq<ServiceDescriptor>, upto: int)
    requires
        names_unique(g),
    ensures
        services_appended(g, services, upto) matches Ok(r) ==> names_unique(r),
    decreases upto,
{
    if upto > 0 {
        lemma_services_unique(g, services, upto - 1);
        match services_appended(g, services, upto - 1) {
            Err(_) => {},
            Ok(before) => lemma_methods_unique(
                before,
                services[upto - 1],
                services[upto - 1].method@.len() as int,
            ),
        }
    }
}

proof fn lemma_file_unique(g: GenModel, file: FileDescriptor)
    requires
        names_unique(g),
    ensures
        file_appended(g, file) matches Ok(r) ==> names_unique(r),
{
    let inside = GenModel { namespace: seq![file.package@], ..g };
    lemma_enums_unique(
        inside.enums,
        inside.namespace,
        file.enum_type@,
        file.enum_type@.len() as int,
    );
    let with_enums = GenModel {
        enums: enums_appended(
            inside.enums,
            inside.namespace,
            file.enum_type@,
            file.enum_type@.len() as int,
        ),
        ..inside
    };
    lemma_messages_unique(with_enums, file.message_type@, file.message_type@.len() as int);
    match messages_appended(with_enums, file.message_type@, file.message_type@.len() as int) {
        Err(_) => {},
        Ok(with_messages) => lemma_services_unique(
            with_messages,
            file.service@,
            file.service@.len() as int,
        ),
    }
}

proof fn lemma_files_unique(g: GenModel, files: Seq<FileDescriptor>, upto: int)
    requires
        names_unique(g),
    ensures
        files_appended(g, files, upto) matches Ok(r) ==> names_unique(r),
    decreases upto,
{
    if upto > 0 {
        lemma_files_unique(g, files, upto - 1);
        match files_appended(g, files, upto - 1) {
            Err(_) => {},
            Ok(before) => lemma_file_unique(before, files[upto - 1]),
        }
    }
}

/// Whatever is generated, no name occurs twice among the types, the unions
/// or the enums, among the fields of a type, the arguments of a field, or
/// the members of a union or an enum: what is generated under a name that
/// is taken stands in the place of what was there.
pub proof fn lemma_generated_names_unique(g: GenModel, sets: Seq<FileDescriptorSet>, upto: int)
    requires
        names_unique(g),
    ensures
        sets_appended(g, sets, upto) matches Ok(r) ==> names_unique(r),
    decreases upto,
{
    if upto > 0 {
        lemma_generated_names_unique(g, sets, upto - 1);
        match sets_appended(g, sets, upto - 1) {
            Err(_) => {},
            Ok(before) => lemma_files_unique(
                before,
                sets[upto - 1].file@,
                sets[upto - 1].file@.len() as int,
            ),
        }
    }
}

/// The files of the first `upto` sets, one set after the other.
pub open spec fn files_of(sets: Seq<FileDescriptorSet>, upto: int) -> Seq<FileDescriptor>
    decreases upto,
{
    if upto <= 0 {
        Seq::empty()
    } else {
        files_of(sets, upto - 1) + sets[upto - 1].file@
    }
}

proof fn lemma_files_prefix(g: GenModel, files: Seq<FileDescriptor>, more: Seq<FileDescriptor>, upto: int)
    requires
        0 <= upto <= files.len(),
    ensures
        files_appended(g, files + more, upto) == files_appended(g, files, upto),
    decreases upto,
{
    if upto > 0 {
        lemma_files_prefix(g, files, more, upto - 1);
        assert((files + more)[upto - 1] == files[upto - 1]);
    }
}

proof fn lemma_files_joined(g: GenModel, first: Seq<FileDescriptor>, second: Seq<FileDescriptor>, upto: int)
    requires
        0 <= upto <= second.len(),
    ensures
        files_appended(g, first + second, first.len() + upto) == match files_appended(
            g,
            first,
            first.len() as int,
        ) {
            Ok(before) => files_appended(before, second, upto),
            Err(e) => Err(e),
        },
    decreases upto,
{
    if upto == 0 {
        lemma_files_prefix(g, first, second, first.len() as int);
    } else {
        lemma_files_joined(g, first, second, upto - 1);
        assert((first + second)[first.len() + upto - 1] == second[upto - 1]);
    }
}

/// How the files are grouped into sets does not matter: the sets give what
/// their files give, taken one after the other.
pub proof fn lemma_grouping_does_not_matter(g: GenModel, sets: Seq<FileDescriptorSet>, upto: int)
    requires
        0 <= upto <= sets.len(),
    ensures
        sets_appended(g, sets, upto) == files_appended(
            g,
            files_of(sets, upto),
            files_of(sets, upto).len() as int,
        ),
    decreases upto,
{
    if upto > 0 {
        lemma_grouping_does_not_matter(g, sets, upto - 1);
        lemma_files_joined(
            g,
            files_of(sets, upto - 1),
            sets[upto - 1].file@,
            sets[upto - 1].file@.len() as int,
        );
    }
}

/// `config` is `full` without the types and unions that are not in use.
pub open spec fn is_pruned(config: Config, full: Config) -> bool {
    &&& config.types@ == kept(full.types@, unused_names(&full), full.types@.len() as int)
    &&& config.unions@ == kept(full.unions@, unused_names(&full), full.unions@.len() as int)
    &&& config.enums == full.enums
    &&& config.schema == full.schema
    &&& config.upstream == full.upstream
    &&& config.server == full.server
}

/// Generates a configuration from sets of proto files: a type for every
/// message, an enum for every enum, and a field of the query type, named
/// `query`, for every method of every service; of the types and unions
/// only those stay that the query type reaches.
pub fn from_proto(descriptor_sets: &Vec<FileDescriptorSet>, query: &str) -> (r: Result<
    Config,
    GeneratorError,
>)
    ensures
        match sets_appended(start_of(query@), descriptor_sets@, descriptor_sets@.len() as int) {
            Ok(g) => r matches Ok(config) && exists|full: Config|
                #![auto]
                holds(full, g) && is_pruned(config, full),
            Err(e) => r matches Err(x) && x@ == e,
        },
        r matches Ok(config) ==> config.distinct_names(),
{
    let mut ctx = Context::new(query);
    assert(ctx@ =~= start_of(query@)) by {
        assert(chars_list(ctx.namespace@) =~= Seq::empty());
        assert(types_model(ctx.config.types@) =~= Seq::empty());
        assert(unions_model(ctx.config.unions@) =~= Seq::empty());
        assert(enums_model(ctx.config.enums@) =~= Seq::empty());
    }
    let ghost start = ctx@;
    let mut i: usize = 0;
    while i < descriptor_sets.len()
        invariant
            i <= descriptor_sets.len(),
            start == start_of(query@),
            sets_appended(start, descriptor_sets@, i as int) == Ok::<GenModel, FaultModel>(ctx@),
            ctx.config.schema.mutation is None,
            ctx.config.schema.subscription is None,
            ctx.config.upstream.base_url is None,
            ctx.config.server.is_unset(),
        decreases descriptor_sets.len() - i,
    {
        let set = &descriptor_sets[i];
        let ghost before_set = ctx@;
        let mut k: usize = 0;
        while k < set.file.len()
            invariant
                k <= set.file.len(),
                i < descriptor_sets.len(),
                start == start_of(query@),
                *set == descriptor_sets@[i as int],
                sets_appended(start, descriptor_sets@, i as int) == Ok::<GenModel, FaultModel>(
                    before_set,
                ),
                files_appended(before_set, set.file@, k as int) == Ok::<GenModel, FaultModel>(
                    ctx@,
                ),
                ctx.config.schema.mutation is None,
                ctx.config.schema.subscription is None,
                ctx.config.upstream.base_url is None,
                ctx.config.server.is_unset(),
            decreases set.file.len() - k,
        {
            let file = &set.file[k];
            proof {
                lemma_files_stop(before_set, set.file@, k + 1);
                lemma_sets_stop(start, descriptor_sets@, i + 1);
            }
            let ghost before = ctx@;
            let Context { namespace: _, config, query: q } = ctx;
            let mut namespace: Vec<String> = Vec::new();
            namespace.push(file.package.clone());
            assert(chars_list(namespace@) =~= seq![file.package@]);
            ctx = Context { namespace, config, query: q };
            assert(ctx@ == (GenModel { namespace: seq![file.package@], ..before }));
            ctx = ctx.append_enums(&file.enum_type);
            ctx = match ctx.append_msg_type(&file.message_type) {
                Ok(c) => c,
                Err(e) => {
                    assert(file_appended(before, *file) is Err);
                    return Err(e);
                },
            };
            ctx = match ctx.append_query_service(&file.service) {
                Ok(c) => c,
                Err(e) => {
                    assert(file_appended(before, *file) is Err);
                    return Err(e);
                },
            };
            assert(file_appended(before, *file) == Ok::<GenModel, FaultModel>(ctx@));
            k += 1;
        }
        i += 1;
    }
    let ghost full = ctx.config;
    proof {
        lemma_generated_names_unique(start, descriptor_sets@, descriptor_sets@.len() as int);
    }
    let unused_types = ctx.config.unused_types();
    let config = ctx.config.remove_types(&unused_types);
    assert(holds(full, ctx@) && is_pruned(config, full));
    Ok(config)
}

} // verus!
