//! Generation of a configuration from an OpenAPI document.

use vstd::prelude::*;

use crate::casing::{Case, cased, to_case};
use crate::config::{
    Arg, ArgModel, chars_list, Config, Enum, enums_model, Field, FieldModel, fields_distinct,
    Http, KeyValue, lemma_set_field, lemma_set_members, lemma_set_type, members_distinct,
    MembersModel, opt_chars, Resolver, ResolverModel, RootSchema, Type, TypeModel,
    types_distinct, types_model, Union, unions_model, Upstream,
};
use crate::entries::{
    find_index, key_index, keyed, lemma_position_keyed, lemma_same_keys,
    lemma_set_entry_keeps_keys, lemma_set_entry_unique, put, set_entry, unique_keys, viewed,
};
use crate::from_proto::{add_member, lemma_with_member, with_member};
use crate::names::str_eq;
use crate::openapi::{
    Operation, Parameter, ParameterRef, PathItem, Schema, SchemaRef, SchemaType, Spec,
};
use crate::pattern::{find_all, inner_name, matched, name_of_match, replace_all, rewritten};
use crate::template::Method;
use crate::text::{
    append_chars, chars_of, clone_text, decimal, decimal_digits, last_index_of, last_position,
    string_of, tail_of,
};

verus! {

/// Why no configuration could be generated from a document.
#[derive(Clone, Copy, Debug, PartialEq, Eq, Structural)]
pub enum OpenApiError {
    /// A reference stands for nothing that the document declares.
    Unresolved,
    /// A list of lists has no name.
    NestedList,
    /// A value of an enum is no string.
    NonStringEnum,
    /// A path has no operation.
    NoOperation,
    /// An operation has no response.
    NoResponse,
    /// A parameter has no schema.
    MissingSchema,
    /// An operation has no identifier.
    MissingOperationId,
    /// The document declares no components.
    MissingComponents,
    /// The pattern for path parameters is no pattern.
    BadPattern,
}

/// The GraphQL name for a type of a schema.
pub open spec fn schema_type_text(typ: SchemaType) -> Seq<char> {
    match typ {
        SchemaType::Boolean => "Boolean"@,
        SchemaType::Integer => "Int"@,
        SchemaType::Number => "Int"@,
        SchemaType::String => "String"@,
        SchemaType::Array => "Array"@,
        SchemaType::Object => "Object"@,
    }
}

/// The GraphQL name for a type of a schema.
pub fn schema_type_to_string(typ: &SchemaType) -> (r: String)
    ensures
        r@ == schema_type_text(*typ),
{
    let typ_str = match typ {
        SchemaType::Boolean => "Boolean",
        SchemaType::Integer => "Int",
        SchemaType::Number => "Int",
        SchemaType::String => "String",
        SchemaType::Array => "Array",
        SchemaType::Object => "Object",
    };
    String::from_str(typ_str)
}

/// The scalar for a type of a schema; none for arrays and objects.
pub open spec fn primitive_text(typ: SchemaType) -> Option<Seq<char>> {
    match typ {
        SchemaType::Array | SchemaType::Object => None,
        x => Some(schema_type_text(x)),
    }
}

/// The scalar for a type of a schema; none for arrays and objects.
pub fn schema_to_primitive_type(typ: &SchemaType) -> (r: Option<String>)
    ensures
        match r {
            Some(name) => primitive_text(*typ) == Some(name@),
            None => primitive_text(*typ) is None,
        },
{
    match typ {
        SchemaType::Array | SchemaType::Object => None,
        x => Some(schema_type_to_string(x)),
    }
}

/// The name of a type: a name, or a list of what another name names.
#[derive(Debug, PartialEq, Eq)]
pub enum TypeName {
    ListOf(Box<TypeName>),
    Name(String),
}

/// The mathematical content of a [`TypeName`].
pub ghost enum TypeNameModel {
    ListOf(Box<TypeNameModel>),
    Name(Seq<char>),
}

/// The mathematical content of a name of a type.
pub open spec fn type_name_model(t: &TypeName) -> TypeNameModel
    decreases t,
{
    match t {
        TypeName::ListOf(inner) => TypeNameModel::ListOf(Box::new(type_name_model(inner))),
        TypeName::Name(name) => TypeNameModel::Name(name@),
    }
}

impl View for TypeName {
    type V = TypeNameModel;

    open spec fn view(&self) -> TypeNameModel {
        type_name_model(self)
    }
}

impl TypeNameModel {
    /// Whether the name is a name or a list of a name.
    pub open spec fn is_flat(self) -> bool {
        match self {
            TypeNameModel::Name(_) => true,
            TypeNameModel::ListOf(inner) => *inner is Name,
        }
    }

    /// Whether the name is a list, and the name that it holds.
    pub open spec fn tuple(self) -> (bool, Seq<char>) {
        match self {
            TypeNameModel::Name(name) => (false, name),
            TypeNameModel::ListOf(inner) => (true, inner->Name_0),
        }
    }
}

impl TypeName {
    /// The name, unless this is a list.
    pub fn name(&self) -> (r: Option<String>)
        ensures
            match self {
                TypeName::ListOf(_) => r is None,
                TypeName::Name(name) => r == Some(*name),
            },
    {
        match self {
            TypeName::ListOf(_) => None,
            TypeName::Name(name) => Some(name.clone()),
        }
    }

    /// Whether the name is a name or a list of a name.
    pub fn is_flat(&self) -> (r: bool)
        ensures
            r == self@.is_flat(),
    {
        proof {
            reveal_with_fuel(type_name_model, 2);
        }
        match self {
            TypeName::Name(_) => true,
            TypeName::ListOf(inner) => match &**inner {
                TypeName::Name(_) => true,
                TypeName::ListOf(_) => false,
            },
        }
    }

    /// Whether the name is a list, and the name that it holds.
    pub fn into_tuple(self) -> (r: (bool, String))
        requires
            self@.is_flat(),
        ensures
            r.0 == self@.tuple().0,
            r.1@ == self@.tuple().1,
    {
        proof {
            reveal_with_fuel(type_name_model, 2);
        }
        match self {
            TypeName::ListOf(inner) => match *inner {
                TypeName::Name(name) => (true, name),
                TypeName::ListOf(_) => (true, String::new()),
            },
            TypeName::Name(name) => (false, name),
        }
    }
}

/// What follows the last `/` of a path; the path where it has none.
pub open spec fn last_segment(path: Seq<char>) -> Seq<char> {
    match last_position(path, '/') {
        Some(i) => path.skip(i + 1),
        None => path,
    }
}

/// The name of the type that a reference refers to: the last segment of
/// its path, in Pascal case. Nothing for a schema given in place.
pub open spec fn ref_name(r: SchemaRef) -> Option<Seq<char>> {
    match r {
        SchemaRef::Ref { ref_path } => Some(cased(last_segment(ref_path@), Case::Pascal)),
        SchemaRef::Object(_) => None,
    }
}

/// The name of the type that a reference refers to.
pub fn name_from_ref_path(obj_or_ref: &SchemaRef) -> (r: Option<String>)
    ensures
        match r {
            Some(name) => ref_name(*obj_or_ref) == Some(name@),
            None => ref_name(*obj_or_ref) is None,
        },
{
    match obj_or_ref {
        SchemaRef::Ref { ref_path } => {
            let chars = chars_of(ref_path.as_str());
            let last = match last_index_of(&chars, '/') {
                Some(i) => string_of(&tail_of(&chars, i + 1)),
                None => ref_path.clone(),
            };
            Some(to_case(last.as_str(), Case::Pascal))
        },
        SchemaRef::Object(_) => None,
    }
}

/// Generates a configuration from an OpenAPI document.
pub struct OpenApiToConfigConverter<'a> {
    pub query: String,
    pub spec: &'a Spec,
    /// The schemas that were given in place and await their definition.
    pub inline_types: Vec<&'a Schema>,
    /// While the awaiting schemas are defined, new ones are set aside.
    pub inline_types_frozen: bool,
    pub inline_types_other: Vec<&'a Schema>,
    pub types: Vec<(String, Type)>,
    pub unions: Vec<(String, Union)>,
    pub enums: Vec<(String, Enum)>,
}

/// The mathematical content of a converter.
pub ghost struct ConverterModel {
    pub inline: Seq<Schema>,
    pub frozen: bool,
    pub other: Seq<Schema>,
    pub types: Seq<(Seq<char>, TypeModel)>,
    pub unions: Seq<(Seq<char>, MembersModel)>,
    pub enums: Seq<(Seq<char>, MembersModel)>,
}

/// The schemas that a list refers to.
pub open spec fn schemas_of(list: Seq<&Schema>) -> Seq<Schema> {
    Seq::new(list.len(), |i: int| *list[i])
}

impl<'a> View for OpenApiToConfigConverter<'a> {
    type V = ConverterModel;

    open spec fn view(&self) -> ConverterModel {
        ConverterModel {
            inline: schemas_of(self.inline_types@),
            frozen: self.inline_types_frozen,
            other: schemas_of(self.inline_types_other@),
            types: types_model(self.types@),
            unions: unions_model(self.unions@),
            enums: enums_model(self.enums@),
        }
    }
}

/// A schema given in place is set to await its definition, under the name
/// `Type` followed by the number of those that await theirs already.
/// While these are being defined, it is set aside instead.
pub open spec fn inlined(st: ConverterModel, schema: Schema) -> (Seq<char>, ConverterModel) {
    (
        "Type"@ + decimal(st.inline.len()),
        if st.frozen {
            ConverterModel { other: st.other.push(schema), ..st }
        } else {
            ConverterModel { inline: st.inline.push(schema), ..st }
        },
    )
}

/// Whether a type can be defined for a schema: it has properties, is
/// composed of other schemas, or has the values of an enum.
pub open spec fn can_define(schema: Schema) -> bool {
    schema.properties@.len() > 0 || schema.all_of@.len() > 0 || schema.any_of@.len() > 0
        || schema.one_of@.len() > 0 || schema.enum_values@.len() > 0
}

/// Whether a schema is an enum of strings.
pub open spec fn is_string_enum(schema: Schema) -> bool {
    schema.schema_type == Some(SchemaType::String) && schema.enum_values@.len() > 0
}

/// The name for the items of a list: that of the reference, or else the
/// scalar for the type of the items.
pub open spec fn element_name(element: SchemaRef, inner: Schema) -> Option<Seq<char>> {
    match ref_name(element) {
        Some(name) => Some(name),
        None => match inner.schema_type {
            Some(t) => primitive_text(t),
            None => None,
        },
    }
}

/// The name of the type of a schema, which may be known under the name
/// `name`, and the converter afterwards. A schema with items is a list of
/// what its items are. An enum of strings is set to await its definition.
/// A schema of a scalar type has the scalar's name; one that allows
/// additional properties is `JSON`; one known under a name has that name;
/// one for which a type can be defined is set to await its definition;
/// any other is `JSON`.
pub open spec fn schema_named(
    spec: &Spec,
    schema: Schema,
    name: Option<Seq<char>>,
    st: ConverterModel,
) -> Result<(TypeNameModel, ConverterModel), OpenApiError>
    decreases schema,
{
    match schema.items {
        Some(element) => match spec.resolved(*element) {
            None => Err(OpenApiError::Unresolved),
            Some(inner) => if is_string_enum(inner) {
                Ok(
                    (
                        TypeNameModel::ListOf(Box::new(TypeNameModel::Name(inlined(st, inner).0))),
                        inlined(st, inner).1,
                    ),
                )
            } else {
                match element_name(*element, inner) {
                    Some(found) => Ok(
                        (TypeNameModel::ListOf(Box::new(TypeNameModel::Name(found))), st),
                    ),
                    None => match *element {
                        SchemaRef::Object(given) => match schema_named(spec, *given, None, st) {
                            Ok((t, after)) => Ok((TypeNameModel::ListOf(Box::new(t)), after)),
                            Err(e) => Err(e),
                        },
                        SchemaRef::Ref { .. } => Err(OpenApiError::Unresolved),
                    },
                }
            },
        },
        None => if is_string_enum(schema) {
            Ok((TypeNameModel::Name(inlined(st, schema).0), inlined(st, schema).1))
        } else if schema.schema_type == Some(SchemaType::Integer) || schema.schema_type == Some(
            SchemaType::String,
        ) || schema.schema_type == Some(SchemaType::Number) || schema.schema_type == Some(
            SchemaType::Boolean,
        ) {
            Ok((TypeNameModel::Name(schema_type_text(schema.schema_type->0)), st))
        } else if schema.additional_properties {
            Ok((TypeNameModel::Name("JSON"@), st))
        } else if name is Some {
            Ok((TypeNameModel::Name(name->0), st))
        } else if can_define(schema) {
            Ok((TypeNameModel::Name(inlined(st, schema).0), inlined(st, schema).1))
        } else {
            Ok((TypeNameModel::Name("JSON"@), st))
        },
    }
}

fn holds_string_enum(s: &Schema) -> (b: bool)
    ensures
        b == is_string_enum(*s),
{
    match s.schema_type {
        Some(SchemaType::String) => s.enum_values.len() > 0,
        _ => false,
    }
}

impl<'a> OpenApiToConfigConverter<'a> {
    /// A converter for a document, with the name of the query type.
    pub fn new(query: &str, spec: &'a Spec) -> (r: Self)
        ensures
            r.query@ == query@,
            r.spec == spec,
            r@ == (ConverterModel {
                inline: Seq::empty(),
                frozen: false,
                other: Seq::empty(),
                types: Seq::empty(),
                unions: Seq::empty(),
                enums: Seq::empty(),
            }),
    {
        let r = OpenApiToConfigConverter {
            query: String::from_str(query),
            spec,
            inline_types: Vec::new(),
            inline_types_frozen: false,
            inline_types_other: Vec::new(),
            types: Vec::new(),
            unions: Vec::new(),
            enums: Vec::new(),
        };
        assert(r@.inline =~= Seq::empty());
        assert(r@.other =~= Seq::empty());
        assert(r@.types =~= Seq::empty());
        assert(r@.unions =~= Seq::empty());
        assert(r@.enums =~= Seq::empty());
        r
    }

    /// Sets a schema given in place to await its definition, and names it.
    pub fn insert_inline_type(&mut self, schema: &'a Schema) -> (name: String)
        ensures
            name@ == inlined(old(self)@, *schema).0,
            final(self)@ == inlined(old(self)@, *schema).1,
            final(self).spec == old(self).spec,
            final(self).query == old(self).query,
    {
        let mut chars = chars_of("Type");
        let digits = decimal_digits(self.inline_types.len());
        append_chars(&mut chars, &digits);
        if self.inline_types_frozen {
            self.inline_types_other.push(schema);
            assert(self@.other =~= old(self)@.other.push(*schema));
        } else {
            self.inline_types.push(schema);
            assert(self@.inline =~= old(self)@.inline.push(*schema));
        }
        string_of(&chars)
    }

    /// Whether a type can be defined for a schema.
    pub fn can_define_type(&self, schema: &Schema) -> (r: bool)
        ensures
            r == can_define(*schema),
    {
        schema.properties.len() > 0 || schema.all_of.len() > 0 || schema.any_of.len() > 0
            || schema.one_of.len() > 0 || schema.enum_values.len() > 0
    }

    /// The name of the type of a schema, which may be known under the name
    /// `name`.
    pub fn get_schema_type(&mut self, schema: &'a Schema, name: Option<String>) -> (r: Result<
        TypeName,
        OpenApiError,
    >)
        ensures
            match schema_named(old(self).spec, *schema, opt_chars(name), old(self)@) {
                Ok((t, st)) => r matches Ok(x) && x@ == t && final(self)@ == st,
                Err(e) => r == Err::<TypeName, OpenApiError>(e),
            },
            final(self).spec == old(self).spec,
            final(self).query == old(self).query,
        decreases schema,
    {
        proof {
            reveal_with_fuel(type_name_model, 3);
        }
        match &schema.items {
            Some(element) => {
                let inner = match self.spec.resolve(&**element) {
                    Some(inner) => inner,
                    None => {
                        return Err(OpenApiError::Unresolved);
                    },
                };
                if holds_string_enum(inner) {
                    let name = self.insert_inline_type(inner);
                    return Ok(TypeName::ListOf(Box::new(TypeName::Name(name))));
                }
                let found = match name_from_ref_path(&**element) {
                    Some(n) => Some(n),
                    None => match &inner.schema_type {
                        Some(t) => schema_to_primitive_type(t),
                        None => None,
                    },
                };
                match found {
                    Some(n) => Ok(TypeName::ListOf(Box::new(TypeName::Name(n)))),
                    None => match &**element {
                        SchemaRef::Object(given) => match self.get_schema_type(&**given, None) {
                            Ok(t) => Ok(TypeName::ListOf(Box::new(t))),
                            Err(e) => Err(e),
                        },
                        SchemaRef::Ref { .. } => Err(OpenApiError::Unresolved),
                    },
                }
            },
            None => {
                if holds_string_enum(schema) {
                    let name = self.insert_inline_type(schema);
                    return Ok(TypeName::Name(name));
                }
                match &schema.schema_type {
                    Some(SchemaType::Integer) | Some(SchemaType::String) | Some(SchemaType::Number)
                    | Some(SchemaType::Boolean) => {
                        let typ = schema.schema_type.unwrap();
                        return Ok(TypeName::Name(schema_type_to_string(&typ)));
                    },
                    _ => {},
                }
                if schema.additional_properties {
                    Ok(TypeName::Name(String::from_str("JSON")))
                } else if let Some(name) = name {
                    Ok(TypeName::Name(name))
                } else if self.can_define_type(schema) {
                    let name = self.insert_inline_type(schema);
                    Ok(TypeName::Name(name))
                } else {
                    Ok(TypeName::Name(String::from_str("JSON")))
                }
            },
        }
    }
}

/// What is defined for a schema.
#[derive(Debug)]
pub enum ConfigType {
    Union(Union),
    Type(Type),
    Enum(Enum),
}

/// The mathematical content of a [`ConfigType`].
pub ghost enum ConfigTypeModel {
    Union(MembersModel),
    Type(TypeModel),
    Enum(MembersModel),
}

impl View for ConfigType {
    type V = ConfigTypeModel;

    open spec fn view(&self) -> ConfigTypeModel {
        match self {
            ConfigType::Union(u) => ConfigTypeModel::Union(u@),
            ConfigType::Type(t) => ConfigTypeModel::Type(t@),
            ConfigType::Enum(e) => ConfigTypeModel::Enum(e@),
        }
    }
}

/// The field for a property: of the type that the property's schema is
/// named, required where the property is among `required`, and described
/// as the schema is where `with_doc`. A list of lists is no type of a
/// field.
pub open spec fn property_field(
    spec: &Spec,
    required: Seq<Seq<char>>,
    entry: (String, SchemaRef),
    with_doc: bool,
    st: ConverterModel,
) -> Result<(FieldModel, ConverterModel), OpenApiError> {
    match spec.resolved(entry.1) {
        None => Err(OpenApiError::Unresolved),
        Some(schema) => match schema_named(spec, schema, ref_name(entry.1), st) {
            Err(e) => Err(e),
            Ok((t, after)) => if !t.is_flat() {
                Err(OpenApiError::NestedList)
            } else {
                Ok(
                    (
                        FieldModel {
                            type_of: t.tuple().1,
                            list: t.tuple().0,
                            required: required.contains(entry.0@),
                            args: Seq::empty(),
                            doc: if with_doc {
                                opt_chars(schema.description)
                            } else {
                                None
                            },
                            resolver: None,
                        },
                        after,
                    ),
                )
            },
        },
    }
}

/// The fields for the first `upto` of the properties, by name; of two
/// properties of one name the later one stands.
pub open spec fn properties_fields(
    spec: &Spec,
    required: Seq<Seq<char>>,
    properties: Seq<(String, SchemaRef)>,
    with_doc: bool,
    st: ConverterModel,
    upto: int,
) -> Result<(Seq<(Seq<char>, FieldModel)>, ConverterModel), OpenApiError>
    decreases upto,
{
    if upto <= 0 {
        Ok((Seq::empty(), st))
    } else {
        match properties_fields(spec, required, properties, with_doc, st, upto - 1) {
            Err(e) => Err(e),
            Ok((fields, before)) => match property_field(
                spec,
                required,
                properties[upto - 1],
                with_doc,
                before,
            ) {
                Err(e) => Err(e),
                Ok((field, after)) => Ok(
                    (set_entry(fields, properties[upto - 1].0@, field), after),
                ),
            },
        }
    }
}

/// The properties that a schema takes over from the first `upto` of the
/// schemas it is composed of, each with all that it takes over itself and
/// then its own; and with them the names that the schema and all of
/// these require. A schema given by reference is followed no deeper than
/// `fuel` references.
pub open spec fn all_of_props(spec: &Spec, schema: Schema, fuel: nat, upto: int) -> Result<
    (Seq<(String, SchemaRef)>, Seq<Seq<char>>),
    OpenApiError,
>
    decreases fuel, schema, upto,
{
    if upto <= 0 || upto > schema.all_of@.len() {
        Ok((Seq::empty(), chars_list(schema.required@)))
    } else {
        match all_of_props(spec, schema, fuel, upto - 1) {
            Err(e) => Err(e),
            Ok((properties, required)) => match schema.all_of@[upto - 1] {
                SchemaRef::Object(given) => match all_of_props(
                    spec,
                    *given,
                    fuel,
                    given.all_of@.len() as int,
                ) {
                    Err(e) => Err(e),
                    Ok((more, needed)) => Ok(
                        (properties + more + given.properties@, required + needed),
                    ),
                },
                SchemaRef::Ref { ref_path } => if fuel == 0 {
                    Err(OpenApiError::Unresolved)
                } else {
                    match spec.resolved(schema.all_of@[upto - 1]) {
                        None => Err(OpenApiError::Unresolved),
                        Some(found) => match all_of_props(
                            spec,
                            found,
                            (fuel - 1) as nat,
                            found.all_of@.len() as int,
                        ) {
                            Err(e) => Err(e),
                            Ok((more, needed)) => Ok(
                                (properties + more + found.properties@, required + needed),
                            ),
                        },
                    }
                },
            },
        }
    }
}

/// The members of a union for the first `upto` of the schemas that a
/// schema may be any or one of. Each is set to await its definition, and
/// is a member under the name of its reference, or else under the scalar
/// of its type, or else under the name it awaits its definition under.
pub open spec fn union_members(spec: &Spec, members: Seq<SchemaRef>, st: ConverterModel, upto: int) -> Result<
    (Seq<Seq<char>>, ConverterModel),
    OpenApiError,
>
    decreases upto,
{
    if upto <= 0 {
        Ok((Seq::empty(), st))
    } else {
        match union_members(spec, members, st, upto - 1) {
            Err(e) => Err(e),
            Ok((names, before)) => match spec.resolved(members[upto - 1]) {
                None => Err(OpenApiError::Unresolved),
                Some(schema) => Ok(
                    (
                        with_member(
                            names,
                            match element_name(members[upto - 1], schema) {
                                Some(name) => name,
                                None => inlined(before, schema).0,
                            },
                        ),
                        inlined(before, schema).1,
                    ),
                ),
            },
        }
    }
}

/// The variants of an enum for its first `upto` values, which must be
/// strings.
pub open spec fn enum_members(values: Seq<Option<String>>, upto: int) -> Result<
    Seq<Seq<char>>,
    OpenApiError,
>
    decreases upto,
{
    if upto <= 0 {
        Ok(Seq::empty())
    } else {
        match (enum_members(values, upto - 1), values[upto - 1]) {
            (Ok(names), Some(text)) => Ok(with_member(names, text@)),
            (Err(e), _) => Err(e),
            (_, None) => Err(OpenApiError::NonStringEnum),
        }
    }
}

/// What is defined for a schema, and the converter afterwards: for a schema
/// with properties a type with a field for each; else for a schema
/// composed of others a type with a field for each property that it takes
/// over; else for a schema that may be any or one of others a union; else
/// for a schema with the values of an enum an enum; else nothing.
pub open spec fn defined(spec: &Spec, schema: Schema, st: ConverterModel) -> Result<
    (Option<ConfigTypeModel>, ConverterModel),
    OpenApiError,
> {
    if schema.properties@.len() > 0 {
        match properties_fields(
            spec,
            chars_list(schema.required@),
            schema.properties@,
            true,
            st,
            schema.properties@.len() as int,
        ) {
            Err(e) => Err(e),
            Ok((fields, after)) => Ok(
                (
                    Some(
                        ConfigTypeModel::Type(
                            TypeModel {
                                fields,
                                doc: opt_chars(schema.description),
                                interface: false,
                                tag: None,
                            },
                        ),
                    ),
                    after,
                ),
            ),
        }
    } else if schema.all_of@.len() > 0 {
        match all_of_props(spec, schema, spec.schemas().len(), schema.all_of@.len() as int) {
            Err(e) => Err(e),
            Ok((properties, required)) => match properties_fields(
                spec,
                required,
                properties + schema.properties@,
                false,
                st,
                (properties + schema.properties@).len() as int,
            ) {
                Err(e) => Err(e),
                Ok((fields, after)) => Ok(
                    (
                        Some(
                            ConfigTypeModel::Type(
                                TypeModel {
                                    fields,
                                    doc: opt_chars(schema.description),
                                    interface: false,
                                    tag: None,
                                },
                            ),
                        ),
                        after,
                    ),
                ),
            },
        }
    } else if schema.any_of@.len() > 0 || schema.one_of@.len() > 0 {
        match union_members(
            spec,
            schema.any_of@ + schema.one_of@,
            st,
            (schema.any_of@ + schema.one_of@).len() as int,
        ) {
            Err(e) => Err(e),
            Ok((members, after)) => Ok(
                (
                    Some(
                        ConfigTypeModel::Union(
                            MembersModel { members, doc: opt_chars(schema.description) },
                        ),
                    ),
                    after,
                ),
            ),
        }
    } else if schema.enum_values@.len() > 0 {
        match enum_members(schema.enum_values@, schema.enum_values@.len() as int) {
            Err(e) => Err(e),
            Ok(members) => Ok(
                (
                    Some(
                        ConfigTypeModel::Enum(
                            MembersModel { members, doc: opt_chars(schema.description) },
                        ),
                    ),
                    st,
                ),
            ),
        }
    } else {
        Ok((None, st))
    }
}

/// The entries that a list refers to.
pub open spec fn entries_of(list: Seq<&(String, SchemaRef)>) -> Seq<(String, SchemaRef)> {
    Seq::new(list.len(), |i: int| *list[i])
}

fn has_name(names: &Vec<String>, name: &str) -> (r: bool)
    ensures
        r == chars_list(names@).contains(name@),
{
    let mut i: usize = 0;
    while i < names.len()
        invariant
            i <= names.len(),
            forall|j: int| 0 <= j < i ==> chars_list(names@)[j] != name@,
        decreases names.len() - i,
    {
        if str_eq(names[i].as_str(), name) {
            assert(chars_list(names@)[i as int] == name@);
            return true;
        }
        i += 1;
    }
    false
}

proof fn lemma_properties_stop(
    spec: &Spec,
    required: Seq<Seq<char>>,
    properties: Seq<(String, SchemaRef)>,
    with_doc: bool,
    st: ConverterModel,
    upto: int,
)
    requires
        0 <= upto <= properties.len(),
    ensures
        properties_fields(spec, required, properties, with_doc, st, upto) is Err
            ==> properties_fields(
            spec,
            required,
            properties,
            with_doc,
            st,
            properties.len() as int,
        ) == properties_fields(spec, required, properties, with_doc, st, upto),
    decreases properties.len() - upto,
{
    if upto < properties.len() {
        lemma_properties_stop(spec, required, properties, with_doc, st, upto + 1);
    }
}

proof fn lemma_union_stop(spec: &Spec, members: Seq<SchemaRef>, st: ConverterModel, upto: int)
    requires
        0 <= upto <= members.len(),
    ensures
        union_members(spec, members, st, upto) is Err ==> union_members(
            spec,
            members,
            st,
            members.len() as int,
        ) == union_members(spec, members, st, upto),
    decreases members.len() - upto,
{
    if upto < members.len() {
        lemma_union_stop(spec, members, st, upto + 1);
    }
}

proof fn lemma_enum_stop(values: Seq<Option<String>>, upto: int)
    requires
        0 <= upto <= values.len(),
    ensures
        enum_members(values, upto) is Err ==> enum_members(values, values.len() as int)
            == enum_members(values, upto),
    decreases values.len() - upto,
{
    if upto < values.len() {
        lemma_enum_stop(values, upto + 1);
    }
}

proof fn lemma_all_of_stop(spec: &Spec, schema: Schema, fuel: nat, upto: int)
    requires
        0 <= upto <= schema.all_of@.len(),
    ensures
        all_of_props(spec, schema, fuel, upto) is Err ==> all_of_props(
            spec,
            schema,
            fuel,
            schema.all_of@.len() as int,
        ) == all_of_props(spec, schema, fuel, upto),
    decreases schema.all_of@.len() - upto,
{
    if upto < schema.all_of@.len() {
        lemma_all_of_stop(spec, schema, fuel, upto + 1);
    }
}

impl<'a> OpenApiToConfigConverter<'a> {
    /// Collects the properties that a schema takes over from the schemas
    /// it is composed of, and the names that it and they require.
    pub fn get_all_of_properties(
        &self,
        properties: &mut Vec<&'a (String, SchemaRef)>,
        required: &mut Vec<String>,
        schema: &'a Schema,
        fuel: usize,
    ) -> (r: Result<(), OpenApiError>)
        ensures
            match all_of_props(self.spec, *schema, fuel as nat, schema.all_of@.len() as int) {
                Ok((more, needed)) => r is Ok && entries_of(final(properties)@) == entries_of(
                    old(properties)@,
                ) + more + schema.properties@ && chars_list(final(required)@) == chars_list(
                    old(required)@,
                ) + needed,
                Err(e) => r == Err::<(), OpenApiError>(e),
            },
        decreases fuel, schema,
    {
        let ghost props0 = entries_of(properties@);
        let ghost req0 = chars_list(required@);
        let mut k: usize = 0;
        while k < schema.required.len()
            invariant
                k <= schema.required.len(),
                entries_of(properties@) == props0,
                chars_list(required@) == req0 + chars_list(schema.required@).take(k as int),
            decreases schema.required.len() - k,
        {
            let ghost before = chars_list(required@);
            required.push(schema.required[k].clone());
            assert(chars_list(required@) =~= before.push(schema.required@[k as int]@));
            assert(chars_list(schema.required@).take(k + 1) =~= chars_list(
                schema.required@,
            ).take(k as int).push(schema.required@[k as int]@));
            k += 1;
        }
        assert(chars_list(schema.required@).take(schema.required.len() as int) =~= chars_list(
            schema.required@,
        ));
        let mut i: usize = 0;
        assert(props0 + Seq::<(String, SchemaRef)>::empty() =~= props0);
        while i < schema.all_of.len()
            invariant
                i <= schema.all_of.len(),
                all_of_props(self.spec, *schema, fuel as nat, i as int) matches Ok(
                    (more, needed),
                ) && entries_of(properties@) == props0 + more && chars_list(required@) == req0
                    + needed,
            decreases schema.all_of.len() - i,
        {
            let ghost so_far = all_of_props(self.spec, *schema, fuel as nat, i as int)->Ok_0;
            proof {
                lemma_all_of_stop(self.spec, *schema, fuel as nat, i + 1);
            }
            let member: &'a Schema = match &schema.all_of[i] {
                SchemaRef::Object(given) => {
                    match self.get_all_of_properties(properties, required, &**given, fuel) {
                        Ok(_) => {},
                        Err(e) => {
                            return Err(e);
                        },
                    }
                    &**given
                },
                SchemaRef::Ref { .. } => {
                    if fuel == 0 {
                        return Err(OpenApiError::Unresolved);
                    }
                    let found = match self.spec.resolve(&schema.all_of[i]) {
                        Some(found) => found,
                        None => {
                            return Err(OpenApiError::Unresolved);
                        },
                    };
                    match self.get_all_of_properties(properties, required, found, fuel - 1) {
                        Ok(_) => {},
                        Err(e) => {
                            return Err(e);
                        },
                    }
                    found
                },
            };
            proof {
                let now = all_of_props(self.spec, *schema, fuel as nat, i + 1)->Ok_0;
                assert(entries_of(properties@) =~= props0 + now.0);
                assert(chars_list(required@) =~= req0 + now.1);
            }
            i += 1;
        }
        let ghost collected = entries_of(properties@);
        let mut j: usize = 0;
        assert(collected + schema.properties@.take(0) =~= collected);
        while j < schema.properties.len()
            invariant
                j <= schema.properties.len(),
                entries_of(properties@) == collected + schema.properties@.take(j as int),
            decreases schema.properties.len() - j,
        {
            let ghost before = entries_of(properties@);
            properties.push(&schema.properties[j]);
            assert(entries_of(properties@) =~= before.push(schema.properties@[j as int]));
            assert(schema.properties@.take(j + 1) =~= schema.properties@.take(j as int).push(
                schema.properties@[j as int],
            ));
            j += 1;
        }
        assert(schema.properties@.take(schema.properties.len() as int) =~= schema.properties@);
        proof {
            let all = all_of_props(self.spec, *schema, fuel as nat, schema.all_of@.len() as int)->Ok_0;
            assert(entries_of(properties@) =~= props0 + all.0 + schema.properties@);
        }
        Ok(())
    }

    /// The fields for a list of properties.
    fn fields_for(
        &mut self,
        required: &Vec<String>,
        properties: &Vec<&'a (String, SchemaRef)>,
        with_doc: bool,
    ) -> (r: Result<Vec<(String, Field)>, OpenApiError>)
        ensures
            match properties_fields(
                old(self).spec,
                chars_list(required@),
                entries_of(properties@),
                with_doc,
                old(self)@,
                properties@.len() as int,
            ) {
                Ok((fields, st)) => r matches Ok(found) && viewed(found@) == fields && final(self)@ == st,
                Err(e) => r == Err::<Vec<(String, Field)>, OpenApiError>(e),
            },
            final(self).spec == old(self).spec,
            final(self).query == old(self).query,
    {
        let ghost all = entries_of(properties@);
        let ghost needed = chars_list(required@);
        let mut fields: Vec<(String, Field)> = Vec::new();
        let mut i: usize = 0;
        assert(viewed(fields@) =~= Seq::empty());
        while i < properties.len()
            invariant
                i <= properties.len(),
                all == entries_of(properties@),
                needed == chars_list(required@),
                self.spec == old(self).spec,
                self.query == old(self).query,
                properties_fields(old(self).spec, needed, all, with_doc, old(self)@, i as int)
                    == Ok::<(Seq<(Seq<char>, FieldModel)>, ConverterModel), OpenApiError>(
                    (viewed(fields@), self@),
                ),
            decreases properties.len() - i,
        {
            let entry: &'a (String, SchemaRef) = properties[i];
            proof {
                lemma_properties_stop(old(self).spec, needed, all, with_doc, old(self)@, i + 1);
                assert(all[i as int] == *entry);
            }
            let schema = match self.spec.resolve(&entry.1) {
                Some(schema) => schema,
                None => {
                    return Err(OpenApiError::Unresolved);
                },
            };
            let named = match self.get_schema_type(schema, name_from_ref_path(&entry.1)) {
                Ok(t) => t,
                Err(e) => {
                    return Err(e);
                },
            };
            if !named.is_flat() {
                return Err(OpenApiError::NestedList);
            }
            let (list, type_of) = named.into_tuple();
            let field = Field {
                type_of,
                list,
                required: has_name(required, entry.0.as_str()),
                args: Vec::new(),
                doc: if with_doc {
                    clone_text(&schema.description)
                } else {
                    None
                },
                resolver: None,
            };
            assert(field@.args =~= Seq::empty());
            put(&mut fields, entry.0.clone(), field);
            i += 1;
        }
        Ok(fields)
    }

    /// Defines what a schema stands for.
    pub fn define_type(&mut self, schema: &'a Schema) -> (r: Result<Option<ConfigType>, OpenApiError>)
        ensures
            match defined(old(self).spec, *schema, old(self)@) {
                Ok((Some(model), st)) => r matches Ok(Some(found)) && found@ == model && final(self)@ == st,
                Ok((None, st)) => r matches Ok(None) && final(self)@ == st,
                Err(e) => r == Err::<Option<ConfigType>, OpenApiError>(e),
            },
            final(self).spec == old(self).spec,
            final(self).query == old(self).query,
    {
        if schema.properties.len() > 0 {
            let mut properties: Vec<&'a (String, SchemaRef)> = Vec::new();
            let mut j: usize = 0;
            assert(entries_of(properties@) =~= schema.properties@.take(0));
            while j < schema.properties.len()
                invariant
                    j <= schema.properties.len(),
                    entries_of(properties@) == schema.properties@.take(j as int),
                decreases schema.properties.len() - j,
            {
                let ghost before = entries_of(properties@);
                properties.push(&schema.properties[j]);
                assert(entries_of(properties@) =~= before.push(schema.properties@[j as int]));
                assert(schema.properties@.take(j + 1) =~= schema.properties@.take(
                    j as int,
                ).push(schema.properties@[j as int]));
                j += 1;
            }
            assert(schema.properties@.take(schema.properties.len() as int)
                =~= schema.properties@);
            let fields = match self.fields_for(&schema.required, &properties, true) {
                Ok(fields) => fields,
                Err(e) => {
                    return Err(e);
                },
            };
            Ok(
                Some(
                    ConfigType::Type(
                        Type {
                            fields,
                            doc: clone_text(&schema.description),
                            interface: false,
                            tag: None,
                        },
                    ),
                ),
            )
        } else if schema.all_of.len() > 0 {
            let mut properties: Vec<&'a (String, SchemaRef)> = Vec::new();
            let mut required: Vec<String> = Vec::new();
            let fuel = match &self.spec.components {
                Some(c) => c.schemas.len(),
                None => 0,
            };
            assert(entries_of(properties@) =~= Seq::empty());
            assert(chars_list(required@) =~= Seq::empty());
            match self.get_all_of_properties(&mut properties, &mut required, schema, fuel) {
                Ok(_) => {},
                Err(e) => {
                    return Err(e);
                },
            }
            proof {
                let all = all_of_props(
                    self.spec,
                    *schema,
                    self.spec.schemas().len(),
                    schema.all_of@.len() as int,
                )->Ok_0;
                assert(entries_of(properties@) =~= all.0 + schema.properties@);
                assert(chars_list(required@) =~= all.1);
            }
            let fields = match self.fields_for(&required, &properties, false) {
                Ok(fields) => fields,
                Err(e) => {
                    return Err(e);
                },
            };
            Ok(
                Some(
                    ConfigType::Type(
                        Type {
                            fields,
                            doc: clone_text(&schema.description),
                            interface: false,
                            tag: None,
                        },
                    ),
                ),
            )
        } else if schema.any_of.len() > 0 || schema.one_of.len() > 0 {
            let ghost members = schema.any_of@ + schema.one_of@;
            let mut types: Vec<String> = Vec::new();
            let total = schema.any_of.len();
            let mut i: usize = 0;
            assert(chars_list(types@) =~= Seq::empty());
            while i < schema.any_of.len()
                invariant
                    i <= schema.any_of.len(),
                    schema.properties@.len() == 0,
                    schema.all_of@.len() == 0,
                    schema.any_of@.len() > 0 || schema.one_of@.len() > 0,
                    members == schema.any_of@ + schema.one_of@,
                    self.spec == old(self).spec,
                    self.query == old(self).query,
                    union_members(old(self).spec, members, old(self)@, i as int) == Ok::<
                        (Seq<Seq<char>>, ConverterModel),
                        OpenApiError,
                    >((chars_list(types@), self@)),
                decreases schema.any_of.len() - i,
            {
                proof {
                    lemma_union_stop(old(self).spec, members, old(self)@, i + 1);
                    assert(members[i as int] == schema.any_of@[i as int]);
                }
                match self.union_member(&schema.any_of[i]) {
                    Ok(name) => {
                        add_member(&mut types, name);
                    },
                    Err(e) => {
                        return Err(e);
                    },
                }
                i += 1;
            }
            let mut k: usize = 0;
            while k < schema.one_of.len()
                invariant
                    k <= schema.one_of.len(),
                    schema.properties@.len() == 0,
                    schema.all_of@.len() == 0,
                    schema.any_of@.len() > 0 || schema.one_of@.len() > 0,
                    members == schema.any_of@ + schema.one_of@,
                    self.spec == old(self).spec,
                    self.query == old(self).query,
                    union_members(
                        old(self).spec,
                        members,
                        old(self)@,
                        schema.any_of@.len() + k,
                    ) == Ok::<(Seq<Seq<char>>, ConverterModel), OpenApiError>(
                        (chars_list(types@), self@),
                    ),
                decreases schema.one_of.len() - k,
            {
                proof {
                    lemma_union_stop(
                        old(self).spec,
                        members,
                        old(self)@,
                        schema.any_of@.len() + k + 1,
                    );
                    assert(members[schema.any_of@.len() + k] == schema.one_of@[k as int]);
                }
                match self.union_member(&schema.one_of[k]) {
                    Ok(name) => {
                        add_member(&mut types, name);
                    },
                    Err(e) => {
                        return Err(e);
                    },
                }
                k += 1;
            }
            Ok(Some(ConfigType::Union(Union { types, doc: clone_text(&schema.description) })))
        } else if schema.enum_values.len() > 0 {
            let mut variants: Vec<String> = Vec::new();
            let mut i: usize = 0;
            assert(chars_list(variants@) =~= Seq::empty());
            while i < schema.enum_values.len()
                invariant
                    i <= schema.enum_values.len(),
                    schema.properties@.len() == 0,
                    schema.all_of@.len() == 0,
                    schema.any_of@.len() == 0,
                    schema.one_of@.len() == 0,
                    schema.enum_values@.len() > 0,
                    *self == *old(self),
                    enum_members(schema.enum_values@, i as int) == Ok::<
                        Seq<Seq<char>>,
                        OpenApiError,
                    >(chars_list(variants@)),
                decreases schema.enum_values.len() - i,
            {
                proof {
                    lemma_enum_stop(schema.enum_values@, i + 1);
                }
                match &schema.enum_values[i] {
                    Some(text) => {
                        add_member(&mut variants, text.clone());
                    },
                    None => {
                        return Err(OpenApiError::NonStringEnum);
                    },
                }
                i += 1;
            }
            Ok(Some(ConfigType::Enum(Enum { variants, doc: clone_text(&schema.description) })))
        } else {
            Ok(None)
        }
    }

    /// The name under which a schema is a member of a union. The schema is
    /// set to await its definition in any case.
    fn union_member(&mut self, member: &'a SchemaRef) -> (r: Result<String, OpenApiError>)
        ensures
            match old(self).spec.resolved(*member) {
                None => r == Err::<String, OpenApiError>(OpenApiError::Unresolved) && *final(self)
                    == *old(self),
                Some(schema) => r matches Ok(name) && name@ == (match element_name(
                    *member,
                    schema,
                ) {
                    Some(n) => n,
                    None => inlined(old(self)@, schema).0,
                }) && final(self)@ == inlined(old(self)@, schema).1,
            },
            final(self).spec == old(self).spec,
            final(self).query == old(self).query,
    {
        let schema = match self.spec.resolve(member) {
            Some(schema) => schema,
            None => {
                return Err(OpenApiError::Unresolved);
            },
        };
        let inline_name = self.insert_inline_type(schema);
        let known = match name_from_ref_path(member) {
            Some(n) => Some(n),
            None => match &schema.schema_type {
                Some(t) => schema_to_primitive_type(t),
                None => None,
            },
        };
        Ok(
            match known {
                Some(n) => n,
                None => inline_name,
            },
        )
    }
}

/// The converter with what was defined for a schema set under `name`.
pub open spec fn with_defined(st: ConverterModel, name: Seq<char>, found: ConfigTypeModel) -> ConverterModel {
    match found {
        ConfigTypeModel::Type(t) => ConverterModel { types: set_entry(st.types, name, t), ..st },
        ConfigTypeModel::Union(u) => ConverterModel { unions: set_entry(st.unions, name, u), ..st },
        ConfigTypeModel::Enum(e) => ConverterModel { enums: set_entry(st.enums, name, e), ..st },
    }
}

/// The converter after the first `upto` of the schemas that await their
/// definition have been defined, and the number of those for which
/// something was defined. Each of these is named `Type` and its number
/// among them, in Pascal case.
pub open spec fn inline_defined(spec: &Spec, awaiting: Seq<Schema>, st: ConverterModel, upto: int) -> Result<
    (ConverterModel, nat),
    OpenApiError,
>
    decreases upto,
{
    if upto <= 0 {
        Ok((st, 0))
    } else {
        match inline_defined(spec, awaiting, st, upto - 1) {
            Err(e) => Err(e),
            Ok((before, index)) => match defined(spec, awaiting[upto - 1], before) {
                Err(e) => Err(e),
                Ok((Some(found), after)) => Ok(
                    (
                        with_defined(after, cased("Type"@ + decimal(index), Case::Pascal), found),
                        index + 1,
                    ),
                ),
                Ok((None, after)) => Ok((after, index)),
            },
        }
    }
}

proof fn lemma_inline_stop(spec: &Spec, awaiting: Seq<Schema>, st: ConverterModel, upto: int)
    requires
        0 <= upto <= awaiting.len(),
    ensures
        inline_defined(spec, awaiting, st, upto) is Err ==> inline_defined(
            spec,
            awaiting,
            st,
            awaiting.len() as int,
        ) == inline_defined(spec, awaiting, st, upto),
    decreases awaiting.len() - upto,
{
    if upto < awaiting.len() {
        lemma_inline_stop(spec, awaiting, st, upto + 1);
    }
}

/// The converter after all schemas that await their definition have been
/// defined. Schemas that come to await theirs meanwhile are set aside.
pub open spec fn all_inline_defined(spec: &Spec, st: ConverterModel) -> Result<
    ConverterModel,
    OpenApiError,
> {
    match inline_defined(
        spec,
        st.inline,
        ConverterModel { inline: Seq::empty(), frozen: true, ..st },
        st.inline.len() as int,
    ) {
        Err(e) => Err(e),
        Ok((after, _)) => Ok(ConverterModel { frozen: false, ..after }),
    }
}

impl<'a> OpenApiToConfigConverter<'a> {
    fn insert_defined(&mut self, name: String, found: ConfigType)
        ensures
            final(self)@ == with_defined(old(self)@, name@, found@),
            final(self).spec == old(self).spec,
            final(self).query == old(self).query,
    {
        match found {
            ConfigType::Type(t) => {
                put(&mut self.types, name, t);
            },
            ConfigType::Union(u) => {
                put(&mut self.unions, name, u);
            },
            ConfigType::Enum(e) => {
                put(&mut self.enums, name, e);
            },
        }
    }

    /// Defines the schemas `inline_types`, one after the other.
    pub fn define_types(&mut self, inline_types: Vec<&'a Schema>) -> (r: Result<(), OpenApiError>)
        ensures
            match inline_defined(
                old(self).spec,
                schemas_of(inline_types@),
                old(self)@,
                inline_types@.len() as int,
            ) {
                Ok((st, _)) => r is Ok && final(self)@ == st,
                Err(e) => r == Err::<(), OpenApiError>(e),
            },
            final(self).spec == old(self).spec,
            final(self).query == old(self).query,
    {
        let ghost awaiting = schemas_of(inline_types@);
        let mut index: usize = 0;
        let mut i: usize = 0;
        while i < inline_types.len()
            invariant
                i <= inline_types.len(),
                index <= i,
                awaiting == schemas_of(inline_types@),
                self.spec == old(self).spec,
                self.query == old(self).query,
                inline_defined(old(self).spec, awaiting, old(self)@, i as int) == Ok::<
                    (ConverterModel, nat),
                    OpenApiError,
                >((self@, index as nat)),
            decreases inline_types.len() - i,
        {
            let schema: &'a Schema = inline_types[i];
            proof {
                lemma_inline_stop(old(self).spec, awaiting, old(self)@, i + 1);
                assert(awaiting[i as int] == *schema);
            }
            let mut chars = chars_of("Type");
            let digits = decimal_digits(index);
            append_chars(&mut chars, &digits);
            let name = to_case(string_of(&chars).as_str(), Case::Pascal);
            match self.define_type(schema) {
                Err(e) => {
                    return Err(e);
                },
                Ok(Some(found)) => {
                    self.insert_defined(name, found);
                    index += 1;
                },
                Ok(None) => {},
            }
            i += 1;
        }
        Ok(())
    }

    /// Defines the schemas that await their definition.
    pub fn define_inline_types(&mut self) -> (r: Result<(), OpenApiError>)
        ensures
            match all_inline_defined(old(self).spec, old(self)@) {
                Ok(st) => r is Ok && final(self)@ == st,
                Err(e) => r == Err::<(), OpenApiError>(e),
            },
            final(self).spec == old(self).spec,
            final(self).query == old(self).query,
    {
        let mut inline_types: Vec<&'a Schema> = Vec::new();
        std::mem::swap(&mut self.inline_types, &mut inline_types);
        self.inline_types_frozen = true;
        assert(self@ == (ConverterModel { inline: Seq::empty(), frozen: true, ..old(self)@ })) by {
            assert(schemas_of(self.inline_types@) =~= Seq::empty());
        }
        match self.define_types(inline_types) {
            Ok(_) => {},
            Err(e) => {
                return Err(e);
            },
        }
        self.inline_types_frozen = false;
        Ok(())
    }
}

/// The first operation of a path, with its method, in the order GET,
/// HEAD, OPTIONS, TRACE, PUT, POST, DELETE, PATCH.
pub open spec fn first_operation(item: PathItem) -> Option<(Method, Operation)> {
    if item.get is Some {
        Some((Method::GET, item.get->0))
    } else if item.head is Some {
        Some((Method::HEAD, item.head->0))
    } else if item.options is Some {
        Some((Method::OPTIONS, item.options->0))
    } else if item.trace is Some {
        Some((Method::TRACE, item.trace->0))
    } else if item.put is Some {
        Some((Method::PUT, item.put->0))
    } else if item.post is Some {
        Some((Method::POST, item.post->0))
    } else if item.delete is Some {
        Some((Method::DELETE, item.delete->0))
    } else if item.patch is Some {
        Some((Method::PATCH, item.patch->0))
    } else {
        None
    }
}

fn first_op(item: &PathItem) -> (r: Option<(Method, &Operation)>)
    ensures
        match r {
            Some((method, op)) => first_operation(*item) == Some((method, *op)),
            None => first_operation(*item) is None,
        },
{
    if let Some(op) = &item.get {
        Some((Method::GET, op))
    } else if let Some(op) = &item.head {
        Some((Method::HEAD, op))
    } else if let Some(op) = &item.options {
        Some((Method::OPTIONS, op))
    } else if let Some(op) = &item.trace {
        Some((Method::TRACE, op))
    } else if let Some(op) = &item.put {
        Some((Method::PUT, op))
    } else if let Some(op) = &item.post {
        Some((Method::POST, op))
    } else if let Some(op) = &item.delete {
        Some((Method::DELETE, op))
    } else if let Some(op) = &item.patch {
        Some((Method::PATCH, op))
    } else {
        None
    }
}

/// The schema of what an operation returns: that of the first media type
/// of its first response. None where the response cannot be found or says
/// nothing of the kind; an operation without responses is at fault.
pub open spec fn response_schema(spec: &Spec, op: Operation) -> Result<
    Option<SchemaRef>,
    OpenApiError,
> {
    if op.responses@.len() == 0 {
        Err(OpenApiError::NoResponse)
    } else {
        match spec.response_of(op.responses@[0].1) {
            None => Ok(None),
            Some(response) => if response.content@.len() == 0 {
                Ok(None)
            } else {
                Ok(response.content@[0].1.schema)
            },
        }
    }
}

/// The argument for a parameter, with its name: of the type that the
/// parameter's schema is named, and required where the parameter says so.
pub open spec fn parameter_arg(spec: &Spec, p: ParameterRef, st: ConverterModel) -> Result<
    ((Seq<char>, ArgModel), ConverterModel),
    OpenApiError,
> {
    match spec.parameter_of(p) {
        None => Err(OpenApiError::Unresolved),
        Some(param) => match param.schema {
            None => Err(OpenApiError::MissingSchema),
            Some(schema) => match schema_named(spec, schema, opt_chars(param.param_type), st) {
                Err(e) => Err(e),
                Ok((t, after)) => if !t.is_flat() {
                    Err(OpenApiError::NestedList)
                } else {
                    Ok(
                        (
                            (
                                param.name@,
                                ArgModel {
                                    type_of: t.tuple().1,
                                    list: t.tuple().0,
                                    required: match param.required {
                                        Some(b) => b,
                                        None => false,
                                    },
                                    doc: None,
                                    modify: None,
                                    default_value: None,
                                },
                            ),
                            after,
                        ),
                    )
                },
            },
        },
    }
}

/// The arguments for the first `upto` parameters, by name.
pub open spec fn parameters_args(
    spec: &Spec,
    params: Seq<ParameterRef>,
    st: ConverterModel,
    upto: int,
) -> Result<(Seq<(Seq<char>, ArgModel)>, ConverterModel), OpenApiError>
    decreases upto,
{
    if upto <= 0 {
        Ok((Seq::empty(), st))
    } else {
        match parameters_args(spec, params, st, upto - 1) {
            Err(e) => Err(e),
            Ok((args, before)) => match parameter_arg(spec, params[upto - 1], before) {
                Err(e) => Err(e),
                Ok((arg, after)) => Ok((set_entry(args, arg.0, arg.1), after)),
            },
        }
    }
}

proof fn lemma_parameters_stop(spec: &Spec, params: Seq<ParameterRef>, st: ConverterModel, upto: int)
    requires
        0 <= upto <= params.len(),
    ensures
        parameters_args(spec, params, st, upto) is Err ==> parameters_args(
            spec,
            params,
            st,
            params.len() as int,
        ) == parameters_args(spec, params, st, upto),
    decreases params.len() - upto,
{
    if upto < params.len() {
        lemma_parameters_stop(spec, params, st, upto + 1);
    }
}

/// The names that the matches of the pattern for path parameters name.
pub open spec fn url_params_of(found: Seq<Seq<char>>) -> Seq<Seq<char>> {
    Seq::new(found.len(), |i: int| inner_name(found[i]))
}

/// The query parameters for the first `upto` arguments: one for each
/// argument that the path does not name, with a reference to the argument
/// as its value.
pub open spec fn query_pairs(
    args: Seq<(Seq<char>, ArgModel)>,
    url_params: Seq<Seq<char>>,
    upto: int,
) -> Seq<(Seq<char>, Seq<char>)>
    decreases upto,
{
    if upto <= 0 {
        Seq::empty()
    } else if url_params.contains(args[upto - 1].0) {
        query_pairs(args, url_params, upto - 1)
    } else {
        query_pairs(args, url_params, upto - 1).push(
            (args[upto - 1].0, "{{args."@ + args[upto - 1].0 + "}}"@),
        )
    }
}

/// The pattern for a parameter in a path: a word in braces.
pub open spec fn path_parameter() -> Seq<char> {
    "\\{\\w+\\}"@
}

/// The path of an operation with its parameters turned into references to
/// arguments, and the names of these parameters; the path as it is where
/// the operation has no arguments.
pub open spec fn path_template(path: Seq<char>, has_args: bool) -> Result<
    (Seq<char>, Seq<Seq<char>>),
    OpenApiError,
> {
    if has_args {
        match (rewritten(path_parameter(), path), matched(path_parameter(), path)) {
            (Some(out), Some(found)) => Ok((out, url_params_of(found))),
            _ => Err(OpenApiError::BadPattern),
        }
    } else {
        Ok((path, Seq::empty()))
    }
}

/// The field of the query type for an operation on a path, with its name,
/// which is the operation's identifier in camel case. The field has an
/// argument for each parameter and is resolved by an HTTP call of the
/// operation's method on the path, with the arguments that the path does
/// not name as query parameters.
pub open spec fn operation_field(
    spec: &Spec,
    path: Seq<char>,
    method: Method,
    op: Operation,
    output: SchemaRef,
    st: ConverterModel,
) -> Result<((Seq<char>, FieldModel), ConverterModel), OpenApiError> {
    match parameters_args(spec, op.parameters@, st, op.parameters@.len() as int) {
        Err(e) => Err(e),
        Ok((args, with_args)) => match spec.resolved(output) {
            None => Err(OpenApiError::Unresolved),
            Some(schema) => match schema_named(spec, schema, ref_name(output), with_args) {
                Err(e) => Err(e),
                Ok((t, after)) => if !t.is_flat() {
                    Err(OpenApiError::NestedList)
                } else {
                    match path_template(path, args.len() > 0) {
                        Err(e) => Err(e),
                        Ok((template, url_params)) => match op.operation_id {
                            None => Err(OpenApiError::MissingOperationId),
                            Some(id) => Ok(
                                (
                                    (
                                        cased(id@, Case::Camel),
                                        FieldModel {
                                            type_of: t.tuple().1,
                                            list: t.tuple().0,
                                            required: false,
                                            args,
                                            doc: opt_chars(op.description),
                                            resolver: Some(
                                                ResolverModel::Http {
                                                    path: template,
                                                    method,
                                                    query: query_pairs(
                                                        args,
                                                        url_params,
                                                        args.len() as int,
                                                    ),
                                                    base_url: None,
                                                    headers: Seq::empty(),
                                                    body: None,
                                                    batch_key: Seq::empty(),
                                                },
                                            ),
                                        },
                                    ),
                                    after,
                                ),
                            ),
                        },
                    }
                },
            },
        },
    }
}

/// The fields of the query type for the first `upto` paths. A path whose
/// operation returns nothing that has a schema gives no field; a path
/// without operation is at fault.
pub open spec fn path_fields(
    spec: &Spec,
    paths: Seq<(String, PathItem)>,
    st: ConverterModel,
    upto: int,
) -> Result<(Seq<(Seq<char>, FieldModel)>, ConverterModel), OpenApiError>
    decreases upto,
{
    if upto <= 0 {
        Ok((Seq::empty(), st))
    } else {
        match path_fields(spec, paths, st, upto - 1) {
            Err(e) => Err(e),
            Ok((fields, before)) => match first_operation(paths[upto - 1].1) {
                None => Err(OpenApiError::NoOperation),
                Some((method, op)) => match response_schema(spec, op) {
                    Err(e) => Err(e),
                    Ok(None) => Ok((fields, before)),
                    Ok(Some(output)) => match operation_field(
                        spec,
                        paths[upto - 1].0@,
                        method,
                        op,
                        output,
                        before,
                    ) {
                        Err(e) => Err(e),
                        Ok((field, after)) => Ok((set_entry(fields, field.0, field.1), after)),
                    },
                },
            },
        }
    }
}

proof fn lemma_paths_stop(spec: &Spec, paths: Seq<(String, PathItem)>, st: ConverterModel, upto: int)
    requires
        0 <= upto <= paths.len(),
    ensures
        path_fields(spec, paths, st, upto) is Err ==> path_fields(
            spec,
            paths,
            st,
            paths.len() as int,
        ) == path_fields(spec, paths, st, upto),
    decreases paths.len() - upto,
{
    if upto < paths.len() {
        lemma_paths_stop(spec, paths, st, upto + 1);
    }
}

/// The converter after the first `upto` of the declared schemas have been
/// defined, each under its name in Pascal case.
pub open spec fn components_defined(
    spec: &Spec,
    schemas: Seq<(String, SchemaRef)>,
    st: ConverterModel,
    upto: int,
) -> Result<ConverterModel, OpenApiError>
    decreases upto,
{
    if upto <= 0 {
        Ok(st)
    } else {
        match components_defined(spec, schemas, st, upto - 1) {
            Err(e) => Err(e),
            Ok(before) => match spec.resolved(schemas[upto - 1].1) {
                None => Err(OpenApiError::Unresolved),
                Some(schema) => match defined(spec, schema, before) {
                    Err(e) => Err(e),
                    Ok((Some(found), after)) => Ok(
                        with_defined(after, cased(schemas[upto - 1].0@, Case::Pascal), found),
                    ),
                    Ok((None, after)) => Ok(after),
                },
            },
        }
    }
}

proof fn lemma_components_stop(
    spec: &Spec,
    schemas: Seq<(String, SchemaRef)>,
    st: ConverterModel,
    upto: int,
)
    requires
        0 <= upto <= schemas.len(),
    ensures
        components_defined(spec, schemas, st, upto) is Err ==> components_defined(
            spec,
            schemas,
            st,
            schemas.len() as int,
        ) == components_defined(spec, schemas, st, upto),
    decreases schemas.len() - upto,
{
    if upto < schemas.len() {
        lemma_components_stop(spec, schemas, st, upto + 1);
    }
}

/// The converter after the types of a document have been made: the type
/// `Query` with a field for each path, what each declared schema stands
/// for, and what each schema given in place stands for. A document
/// without components is at fault.
pub open spec fn created(spec: &Spec, st: ConverterModel) -> Result<ConverterModel, OpenApiError> {
    match spec.components {
        None => Err(OpenApiError::MissingComponents),
        Some(components) => match path_fields(spec, spec.paths@, st, spec.paths@.len() as int) {
            Err(e) => Err(e),
            Ok((fields, after_paths)) => match components_defined(
                spec,
                components.schemas@,
                ConverterModel {
                    types: set_entry(
                        after_paths.types,
                        "Query"@,
                        TypeModel { fields, doc: None, interface: false, tag: None },
                    ),
                    ..after_paths
                },
                components.schemas@.len() as int,
            ) {
                Err(e) => Err(e),
                Ok(with_components) => all_inline_defined(spec, with_components),
            },
        },
    }
}

/// No name occurs twice where a converter keeps things by name: among the
/// types, the unions and the enums, among the fields of a type, among the
/// arguments of a field, and among the members of a union or an enum.
pub open spec fn tables_unique(st: ConverterModel) -> bool {
    types_distinct(st.types) && members_distinct(st.unions) && members_distinct(st.enums)
}

/// What is defined for a schema keeps nothing twice under one name.
pub open spec fn defined_distinct(found: ConfigTypeModel) -> bool {
    match found {
        ConfigTypeModel::Type(t) => fields_distinct(t.fields),
        ConfigTypeModel::Union(u) => u.members.no_duplicates(),
        ConfigTypeModel::Enum(e) => e.members.no_duplicates(),
    }
}

proof fn lemma_properties_distinct(
    spec: &Spec,
    required: Seq<Seq<char>>,
    properties: Seq<(String, SchemaRef)>,
    with_doc: bool,
    st: ConverterModel,
    upto: int,
)
    ensures
        properties_fields(spec, required, properties, with_doc, st, upto) matches Ok(
            (fields, _),
        ) ==> fields_distinct(fields),
    decreases upto,
{
    if upto > 0 {
        lemma_properties_distinct(spec, required, properties, with_doc, st, upto - 1);
        match properties_fields(spec, required, properties, with_doc, st, upto - 1) {
            Err(_) => {},
            Ok((fields, before)) => match property_field(
                spec,
                required,
                properties[upto - 1],
                with_doc,
                before,
            ) {
                Err(_) => {},
                Ok((field, _)) => {
                    assert(field.args =~= Seq::empty());
                    lemma_set_field(fields, properties[upto - 1].0@, field);
                },
            },
        }
    }
}

proof fn lemma_union_distinct(spec: &Spec, members: Seq<SchemaRef>, st: ConverterModel, upto: int)
    ensures
        union_members(spec, members, st, upto) matches Ok((names, _)) ==> names.no_duplicates(),
    decreases upto,
{
    if upto > 0 {
        lemma_union_distinct(spec, members, st, upto - 1);
        match union_members(spec, members, st, upto - 1) {
            Err(_) => {},
            Ok((names, before)) => match spec.resolved(members[upto - 1]) {
                None => {},
                Some(schema) => lemma_with_member(
                    names,
                    match element_name(members[upto - 1], schema) {
                        Some(name) => name,
                        None => inlined(before, schema).0,
                    },
                ),
            },
        }
    }
}

proof fn lemma_enum_distinct(values: Seq<Option<String>>, upto: int)
    ensures
        enum_members(values, upto) matches Ok(names) ==> names.no_duplicates(),
    decreases upto,
{
    if upto > 0 {
        lemma_enum_distinct(values, upto - 1);
        match (enum_members(values, upto - 1), values[upto - 1]) {
            (Ok(names), Some(text)) => lemma_with_member(names, text@),
            _ => {},
        }
    }
}

proof fn lemma_defined_distinct(spec: &Spec, schema: Schema, st: ConverterModel)
    ensures
        defined(spec, schema, st) matches Ok((Some(found), _)) ==> defined_distinct(found),
{
    if schema.properties@.len() > 0 {
        lemma_properties_distinct(
            spec,
            chars_list(schema.required@),
            schema.properties@,
            true,
            st,
            schema.properties@.len() as int,
        );
    } else if schema.all_of@.len() > 0 {
        match all_of_props(spec, schema, spec.schemas().len(), schema.all_of@.len() as int) {
            Err(_) => {},
            Ok((properties, required)) => lemma_properties_distinct(
                spec,
                required,
                properties + schema.properties@,
                false,
                st,
                (properties + schema.properties@).len() as int,
            ),
        }
    } else if schema.any_of@.len() > 0 || schema.one_of@.len() > 0 {
        lemma_union_distinct(
            spec,
            schema.any_of@ + schema.one_of@,
            st,
            (schema.any_of@ + schema.one_of@).len() as int,
        );
    } else if schema.enum_values@.len() > 0 {
        lemma_enum_distinct(schema.enum_values@, schema.enum_values@.len() as int);
    }
}

proof fn lemma_args_distinct(spec: &Spec, params: Seq<ParameterRef>, st: ConverterModel, upto: int)
    ensures
        parameters_args(spec, params, st, upto) matches Ok((args, _)) ==> unique_keys(args),
    decreases upto,
{
    if upto > 0 {
        lemma_args_distinct(spec, params, st, upto - 1);
        match parameters_args(spec, params, st, upto - 1) {
            Err(_) => {},
            Ok((args, before)) => match parameter_arg(spec, params[upto - 1], before) {
                Err(_) => {},
                Ok((arg, _)) => lemma_set_entry_unique(args, arg.0, arg.1),
            },
        }
    }
}

proof fn lemma_operation_distinct(
    spec: &Spec,
    path: Seq<char>,
    method: Method,
    op: Operation,
    output: SchemaRef,
    st: ConverterModel,
)
    ensures
        operation_field(spec, path, method, op, output, st) matches Ok((field, _)) ==> unique_keys(
            field.1.args,
        ),
{
    lemma_args_distinct(spec, op.parameters@, st, op.parameters@.len() as int);
}

proof fn lemma_paths_distinct(
    spec: &Spec,
    paths: Seq<(String, PathItem)>,
    st: ConverterModel,
    upto: int,
)
    ensures
        path_fields(spec, paths, st, upto) matches Ok((fields, _)) ==> fields_distinct(fields),
    decreases upto,
{
    if upto > 0 {
        lemma_paths_distinct(spec, paths, st, upto - 1);
        match path_fields(spec, paths, st, upto - 1) {
            Err(_) => {},
            Ok((fields, before)) => match first_operation(paths[upto - 1].1) {
                None => {},
                Some((method, op)) => match response_schema(spec, op) {
                    Ok(Some(output)) => {
                        lemma_operation_distinct(
                            spec,
                            paths[upto - 1].0@,
                            method,
                            op,
                            output,
                            before,
                        );
                        match operation_field(
                            spec,
                            paths[upto - 1].0@,
                            method,
                            op,
                            output,
                            before,
                        ) {
                            Err(_) => {},
                            Ok((field, _)) => lemma_set_field(fields, field.0, field.1),
                        }
                    },
                    _ => {},
                },
            },
        }
    }
}

/// The two converters hold the same types, unions and enums.
pub open spec fn same_tables(a: ConverterModel, b: ConverterModel) -> bool {
    a.types == b.types && a.unions == b.unions && a.enums == b.enums
}

proof fn lemma_named_keeps(spec: &Spec, schema: Schema, name: Option<Seq<char>>, st: ConverterModel)
    ensures
        schema_named(spec, schema, name, st) matches Ok((_, after)) ==> same_tables(after, st),
    decreases schema,
{
    match schema.items {
        Some(element) => match spec.resolved(*element) {
            None => {},
            Some(inner) => if !is_string_enum(inner) {
                if element_name(*element, inner) is None {
                    match *element {
                        SchemaRef::Object(given) => lemma_named_keeps(spec, *given, None, st),
                        SchemaRef::Ref { .. } => {},
                    }
                }
            },
        },
        None => {},
    }
}

proof fn lemma_properties_keep(
    spec: &Spec,
    required: Seq<Seq<char>>,
    properties: Seq<(String, SchemaRef)>,
    with_doc: bool,
    st: ConverterModel,
    upto: int,
)
    ensures
        properties_fields(spec, required, properties, with_doc, st, upto) matches Ok(
            (_, after),
        ) ==> same_tables(after, st),
    decreases upto,
{
    if upto > 0 {
        lemma_properties_keep(spec, required, properties, with_doc, st, upto - 1);
        match properties_fields(spec, required, properties, with_doc, st, upto - 1) {
            Err(_) => {},
            Ok((_, before)) => match spec.resolved(properties[upto - 1].1) {
                None => {},
                Some(schema) => lemma_named_keeps(
                    spec,
                    schema,
                    ref_name(properties[upto - 1].1),
                    before,
                ),
            },
        }
    }
}

proof fn lemma_union_keeps(spec: &Spec, members: Seq<SchemaRef>, st: ConverterModel, upto: int)
    ensures
        union_members(spec, members, st, upto) matches Ok((_, after)) ==> same_tables(after, st),
    decreases upto,
{
    if upto > 0 {
        lemma_union_keeps(spec, members, st, upto - 1);
    }
}

proof fn lemma_defined_keeps(spec: &Spec, schema: Schema, st: ConverterModel)
    ensures
        defined(spec, schema, st) matches Ok((_, after)) ==> same_tables(after, st),
{
    if schema.properties@.len() > 0 {
        lemma_properties_keep(
            spec,
            chars_list(schema.required@),
            schema.properties@,
            true,
            st,
            schema.properties@.len() as int,
        );
    } else if schema.all_of@.len() > 0 {
        match all_of_props(spec, schema, spec.schemas().len(), schema.all_of@.len() as int) {
            Err(_) => {},
            Ok((properties, required)) => lemma_properties_keep(
                spec,
                required,
                properties + schema.properties@,
                false,
                st,
                (properties + schema.properties@).len() as int,
            ),
        }
    } else if schema.any_of@.len() > 0 || schema.one_of@.len() > 0 {
        lemma_union_keeps(
            spec,
            schema.any_of@ + schema.one_of@,
            st,
            (schema.any_of@ + schema.one_of@).len() as int,
        );
    }
}

proof fn lemma_with_defined_unique(st: ConverterModel, name: Seq<char>, found: ConfigTypeModel)
    requires
        tables_unique(st),
        defined_distinct(found),
    ensures
        tables_unique(with_defined(st, name, found)),
{
    match found {
        ConfigTypeModel::Type(t) => lemma_set_type(st.types, name, t),
        ConfigTypeModel::Union(u) => lemma_set_members(st.unions, name, u),
        ConfigTypeModel::Enum(e) => lemma_set_members(st.enums, name, e),
    }
}

proof fn lemma_inline_unique(spec: &Spec, awaiting: Seq<Schema>, st: ConverterModel, upto: int)
    requires
        tables_unique(st),
    ensures
        inline_defined(spec, awaiting, st, upto) matches Ok((after, _)) ==> tables_unique(after),
    decreases upto,
{
    if upto > 0 {
        lemma_inline_unique(spec, awaiting, st, upto - 1);
        match inline_defined(spec, awaiting, st, upto - 1) {
            Err(_) => {},
            Ok((before, index)) => {
                lemma_defined_keeps(spec, awaiting[upto - 1], before);
                lemma_defined_distinct(spec, awaiting[upto - 1], before);
                match defined(spec, awaiting[upto - 1], before) {
                    Ok((Some(found), after)) => lemma_with_defined_unique(
                        after,
                        cased("Type"@ + decimal(index), Case::Pascal),
                        found,
                    ),
                    _ => {},
                }
            },
        }
    }
}

proof fn lemma_parameters_keep(
    spec: &Spec,
    params: Seq<ParameterRef>,
    st: ConverterModel,
    upto: int,
)
    ensures
        parameters_args(spec, params, st, upto) matches Ok((_, after)) ==> same_tables(after, st),
    decreases upto,
{
    if upto > 0 {
        lemma_parameters_keep(spec, params, st, upto - 1);
        match parameters_args(spec, params, st, upto - 1) {
            Err(_) => {},
            Ok((_, before)) => match spec.parameter_of(params[upto - 1]) {
                None => {},
                Some(param) => match param.schema {
                    None => {},
                    Some(schema) => lemma_named_keeps(
                        spec,
                        schema,
                        opt_chars(param.param_type),
                        before,
                    ),
                },
            },
        }
    }
}

proof fn lemma_operation_keep(
    spec: &Spec,
    path: Seq<char>,
    method: Method,
    op: Operation,
    output: SchemaRef,
    st: ConverterModel,
)
    ensures
        operation_field(spec, path, method, op, output, st) matches Ok((_, after))
            ==> same_tables(after, st),
{
    lemma_parameters_keep(spec, op.parameters@, st, op.parameters@.len() as int);
    match parameters_args(spec, op.parameters@, st, op.parameters@.len() as int) {
        Err(_) => {},
        Ok((_, with_args)) => match spec.resolved(output) {
            None => {},
            Some(schema) => lemma_named_keeps(spec, schema, ref_name(output), with_args),
        },
    }
}

proof fn lemma_paths_keep(
    spec: &Spec,
    paths: Seq<(String, PathItem)>,
    st: ConverterModel,
    upto: int,
)
    ensures
        path_fields(spec, paths, st, upto) matches Ok((_, after)) ==> same_tables(after, st),
    decreases upto,
{
    if upto > 0 {
        lemma_paths_keep(spec, paths, st, upto - 1);
        match path_fields(spec, paths, st, upto - 1) {
            Err(_) => {},
            Ok((_, before)) => match first_operation(paths[upto - 1].1) {
                None => {},
                Some((method, op)) => match response_schema(spec, op) {
                    Ok(Some(output)) => lemma_operation_keep(
                        spec,
                        paths[upto - 1].0@,
                        method,
                        op,
                        output,
                        before,
                    ),
                    _ => {},
                },
            },
        }
    }
}

proof fn lemma_components_unique(
    spec: &Spec,
    schemas: Seq<(String, SchemaRef)>,
    st: ConverterModel,
    upto: int,
)
    requires
        tables_unique(st),
    ensures
        components_defined(spec, schemas, st, upto) matches Ok(after) ==> tables_unique(after),
    decreases upto,
{
    if upto > 0 {
        lemma_components_unique(spec, schemas, st, upto - 1);
        match components_defined(spec, schemas, st, upto - 1) {
            Err(_) => {},
            Ok(before) => match spec.resolved(schemas[upto - 1].1) {
                None => {},
                Some(schema) => {
                    lemma_defined_keeps(spec, schema, before);
                    lemma_defined_distinct(spec, schema, before);
                    match defined(spec, schema, before) {
                        Ok((Some(found), after)) => lemma_with_defined_unique(
                            after,
                            cased(schemas[upto - 1].0@, Case::Pascal),
                            found,
                        ),
                        _ => {},
                    }
                },
            },
        }
    }
}

proof fn lemma_with_defined_keeps_type(
    st: ConverterModel,
    name: Seq<char>,
    found: ConfigTypeModel,
    other: Seq<char>,
)
    requires
        key_index(st.types, other) is Some,
    ensures
        key_index(with_defined(st, name, found).types, other) is Some,
{
    match found {
        ConfigTypeModel::Type(t) => lemma_set_entry_keeps_keys(st.types, name, t, other),
        _ => {},
    }
}

proof fn lemma_inline_keeps_type(
    spec: &Spec,
    awaiting: Seq<Schema>,
    st: ConverterModel,
    upto: int,
    other: Seq<char>,
)
    requires
        key_index(st.types, other) is Some,
    ensures
        inline_defined(spec, awaiting, st, upto) matches Ok((after, _)) ==> key_index(
            after.types,
            other,
        ) is Some,
    decreases upto,
{
    if upto > 0 {
        lemma_inline_keeps_type(spec, awaiting, st, upto - 1, other);
        match inline_defined(spec, awaiting, st, upto - 1) {
            Err(_) => {},
            Ok((before, index)) => {
                lemma_defined_keeps(spec, awaiting[upto - 1], before);
                match defined(spec, awaiting[upto - 1], before) {
                    Ok((Some(found), after)) => lemma_with_defined_keeps_type(
                        after,
                        cased("Type"@ + decimal(index), Case::Pascal),
                        found,
                        other,
                    ),
                    _ => {},
                }
            },
        }
    }
}

proof fn lemma_components_keep_type(
    spec: &Spec,
    schemas: Seq<(String, SchemaRef)>,
    st: ConverterModel,
    upto: int,
    other: Seq<char>,
)
    requires
        key_index(st.types, other) is Some,
    ensures
        components_defined(spec, schemas, st, upto) matches Ok(after) ==> key_index(
            after.types,
            other,
        ) is Some,
    decreases upto,
{
    if upto > 0 {
        lemma_components_keep_type(spec, schemas, st, upto - 1, other);
        match components_defined(spec, schemas, st, upto - 1) {
            Err(_) => {},
            Ok(before) => match spec.resolved(schemas[upto - 1].1) {
                None => {},
                Some(schema) => {
                    lemma_defined_keeps(spec, schema, before);
                    match defined(spec, schema, before) {
                        Ok((Some(found), after)) => lemma_with_defined_keeps_type(
                            after,
                            cased(schemas[upto - 1].0@, Case::Pascal),
                            found,
                            other,
                        ),
                        _ => {},
                    }
                },
            },
        }
    }
}

/// A parameter that is given in place, is a plain integer and is required
/// gives a required argument of the type `Int` under the parameter's name,
/// and leaves the converter as it is.
pub proof fn lemma_required_integer_parameter(spec: &Spec, param: Parameter, st: ConverterModel)
    requires
        param.schema matches Some(schema) && schema.schema_type == Some(SchemaType::Integer)
            && schema.items is None && schema.enum_values@.len() == 0,
        param.required == Some(true),
    ensures
        parameter_arg(spec, ParameterRef::Object(param), st) == Ok::<
            ((Seq<char>, ArgModel), ConverterModel),
            OpenApiError,
        >(
            (
                (
                    param.name@,
                    ArgModel {
                        type_of: "Int"@,
                        list: false,
                        required: true,
                        doc: None,
                        modify: None,
                        default_value: None,
                    },
                ),
                st,
            ),
        ),
{
    reveal_with_fuel(type_name_model, 2);
}

/// The field of the query type that an operation gives is named by the
/// operation's identifier in camel case, is not required, has the
/// arguments that the operation's parameters give, and is resolved by an
/// HTTP call of the operation's method that sets no base URL, header or
/// body of its own.
pub proof fn lemma_operation_field(
    spec: &Spec,
    path: Seq<char>,
    method: Method,
    op: Operation,
    output: SchemaRef,
    st: ConverterModel,
)
    ensures
        operation_field(spec, path, method, op, output, st) matches Ok(((name, field), _)) ==> {
            &&& op.operation_id matches Some(id) && name == cased(id@, Case::Camel)
            &&& !field.required
            &&& parameters_args(spec, op.parameters@, st, op.parameters@.len() as int) matches Ok(
                (args, _),
            ) && field.args == args
            &&& field.doc == opt_chars(op.description)
            &&& field.resolver matches Some(
                ResolverModel::Http { method: m, base_url, headers, body, batch_key, .. },
            ) && m == method && base_url is None && headers.len() == 0 && body is None
                && batch_key.len() == 0
        },
{
}

/// The fields of the query type for a document with one path whose
/// operation returns something are the one field of that operation.
pub proof fn lemma_one_path(spec: &Spec, paths: Seq<(String, PathItem)>, st: ConverterModel)
    requires
        paths.len() == 1,
        first_operation(paths[0].1) matches Some((_, op)) && response_schema(spec, op) matches Ok(
            Some(_),
        ),
    ensures
        match operation_field(
            spec,
            paths[0].0@,
            (first_operation(paths[0].1)->0).0,
            (first_operation(paths[0].1)->0).1,
            response_schema(spec, (first_operation(paths[0].1)->0).1)->Ok_0->0,
            st,
        ) {
            Ok((field, after)) => path_fields(spec, paths, st, 1) == Ok::<
                (Seq<(Seq<char>, FieldModel)>, ConverterModel),
                OpenApiError,
            >((seq![field], after)),
            Err(e) => path_fields(spec, paths, st, 1) == Err::<
                (Seq<(Seq<char>, FieldModel)>, ConverterModel),
                OpenApiError,
            >(e),
        },
{
    assert(path_fields(spec, paths, st, 0) == Ok::<
        (Seq<(Seq<char>, FieldModel)>, ConverterModel),
        OpenApiError,
    >((Seq::empty(), st)));
    match operation_field(
        spec,
        paths[0].0@,
        (first_operation(paths[0].1)->0).0,
        (first_operation(paths[0].1)->0).1,
        response_schema(spec, (first_operation(paths[0].1)->0).1)->Ok_0->0,
        st,
    ) {
        Ok((field, after)) => {
            let empty = Seq::<(Seq<char>, FieldModel)>::empty();
            assert(key_index(empty, field.0) is None);
            assert(set_entry(empty, field.0, field.1) =~= seq![field]);
        },
        Err(_) => {},
    }
}

/// The types that are made for a document include a type `Query`.
pub proof fn lemma_created_has_query(spec: &Spec, st: ConverterModel)
    ensures
        created(spec, st) matches Ok(after) ==> key_index(after.types, "Query"@) is Some,
{
    match spec.components {
        None => {},
        Some(components) => match path_fields(spec, spec.paths@, st, spec.paths@.len() as int) {
            Err(_) => {},
            Ok((fields, after_paths)) => {
                let query = TypeModel { fields, doc: None, interface: false, tag: None };
                lemma_set_entry_keeps_keys(after_paths.types, "Query"@, query, "Query"@);
                let with_query = ConverterModel {
                    types: set_entry(after_paths.types, "Query"@, query),
                    ..after_paths
                };
                lemma_components_keep_type(
                    spec,
                    components.schemas@,
                    with_query,
                    components.schemas@.len() as int,
                    "Query"@,
                );
                match components_defined(
                    spec,
                    components.schemas@,
                    with_query,
                    components.schemas@.len() as int,
                ) {
                    Err(_) => {},
                    Ok(with_components) => {
                        lemma_inline_keeps_type(
                            spec,
                            with_components.inline,
                            ConverterModel { inline: Seq::empty(), frozen: true, ..with_components },
                            with_components.inline.len() as int,
                            "Query"@,
                        );
                    },
                }
            },
        },
    }
}

/// Whatever types are made for a document, no name occurs twice among the
/// types, the unions or the enums, among the fields of a type, the
/// arguments of a field, or the members of a union or an enum: what is
/// defined under a name that is taken stands in the place of what was
/// there.
pub proof fn lemma_created_names_unique(spec: &Spec, st: ConverterModel)
    requires
        tables_unique(st),
    ensures
        created(spec, st) matches Ok(after) ==> tables_unique(after),
{
    match spec.components {
        None => {},
        Some(components) => {
            lemma_paths_keep(spec, spec.paths@, st, spec.paths@.len() as int);
            match path_fields(spec, spec.paths@, st, spec.paths@.len() as int) {
                Err(_) => {},
                Ok((fields, after_paths)) => {
                    let query = TypeModel { fields, doc: None, interface: false, tag: None };
                    lemma_paths_distinct(spec, spec.paths@, st, spec.paths@.len() as int);
                    lemma_set_type(after_paths.types, "Query"@, query);
                    let with_query = ConverterModel {
                        types: set_entry(after_paths.types, "Query"@, query),
                        ..after_paths
                    };
                    lemma_components_unique(
                        spec,
                        components.schemas@,
                        with_query,
                        components.schemas@.len() as int,
                    );
                    match components_defined(
                        spec,
                        components.schemas@,
                        with_query,
                        components.schemas@.len() as int,
                    ) {
                        Err(_) => {},
                        Ok(with_components) => {
                            lemma_inline_unique(
                                spec,
                                with_components.inline,
                                ConverterModel {
                                    inline: Seq::empty(),
                                    frozen: true,
                                    ..with_components
                                },
                                with_components.inline.len() as int,
                            );
                        },
                    }
                },
            }
        },
    }
}

fn response_schema_of<'b>(spec: &'b Spec, op: &'b Operation) -> (r: Result<
    Option<&'b SchemaRef>,
    OpenApiError,
>)
    ensures
        match response_schema(spec, *op) {
            Ok(Some(schema)) => r matches Ok(Some(found)) && *found == schema,
            Ok(None) => r matches Ok(None),
            Err(e) => r == Err::<Option<&SchemaRef>, OpenApiError>(e),
        },
{
    if op.responses.len() == 0 {
        return Err(OpenApiError::NoResponse);
    }
    match spec.resolve_response(&op.responses[0].1) {
        None => Ok(None),
        Some(response) => {
            if response.content.len() == 0 {
                Ok(None)
            } else {
                match &response.content[0].1.schema {
                    Some(schema) => Ok(Some(schema)),
                    None => Ok(None),
                }
            }
        },
    }
}

fn names_param(found: &Vec<String>, key: &str) -> (r: bool)
    ensures
        r == url_params_of(chars_list(found@)).contains(key@),
{
    let ghost all = url_params_of(chars_list(found@));
    let mut i: usize = 0;
    while i < found.len()
        invariant
            i <= found.len(),
            all == url_params_of(chars_list(found@)),
            forall|j: int| 0 <= j < i ==> all[j] != key@,
        decreases found.len() - i,
    {
        let name = name_of_match(found[i].as_str());
        assert(all[i as int] == name@);
        if str_eq(name.as_str(), key) {
            return true;
        }
        i += 1;
    }
    false
}

impl<'a> OpenApiToConfigConverter<'a> {
    fn args_for(&mut self, params: &'a Vec<ParameterRef>) -> (r: Result<
        Vec<(String, Arg)>,
        OpenApiError,
    >)
        ensures
            match parameters_args(old(self).spec, params@, old(self)@, params@.len() as int) {
                Ok((args, st)) => r matches Ok(found) && viewed(found@) == args && final(self)@
                    == st,
                Err(e) => r == Err::<Vec<(String, Arg)>, OpenApiError>(e),
            },
            final(self).spec == old(self).spec,
            final(self).query == old(self).query,
    {
        let mut args: Vec<(String, Arg)> = Vec::new();
        let mut i: usize = 0;
        assert(viewed(args@) =~= Seq::empty());
        while i < params.len()
            invariant
                i <= params.len(),
                self.spec == old(self).spec,
                self.query == old(self).query,
                parameters_args(old(self).spec, params@, old(self)@, i as int) == Ok::<
                    (Seq<(Seq<char>, ArgModel)>, ConverterModel),
                    OpenApiError,
                >((viewed(args@), self@)),
            decreases params.len() - i,
        {
            proof {
                lemma_parameters_stop(old(self).spec, params@, old(self)@, i + 1);
            }
            let param = match self.spec.resolve_parameter(&params[i]) {
                Some(param) => param,
                None => {
                    return Err(OpenApiError::Unresolved);
                },
            };
            let schema = match &param.schema {
                Some(schema) => schema,
                None => {
                    return Err(OpenApiError::MissingSchema);
                },
            };
            let named = match self.get_schema_type(schema, clone_text(&param.param_type)) {
                Ok(t) => t,
                Err(e) => {
                    return Err(e);
                },
            };
            if !named.is_flat() {
                return Err(OpenApiError::NestedList);
            }
            let (list, type_of) = named.into_tuple();
            let arg = Arg {
                type_of,
                list,
                required: match param.required {
                    Some(b) => b,
                    None => false,
                },
                doc: None,
                modify: None,
                default_value: None,
            };
            put(&mut args, param.name.clone(), arg);
            i += 1;
        }
        Ok(args)
    }

    fn field_for_operation(
        &mut self,
        path: &str,
        method: Method,
        op: &'a Operation,
        output: &'a SchemaRef,
    ) -> (r: Result<(String, Field), OpenApiError>)
        ensures
            match operation_field(old(self).spec, path@, method, *op, *output, old(self)@) {
                Ok((field, st)) => r matches Ok((name, found)) && name@ == field.0 && found@
                    == field.1 && final(self)@ == st,
                Err(e) => r == Err::<(String, Field), OpenApiError>(e),
            },
            final(self).spec == old(self).spec,
            final(self).query == old(self).query,
    {
        let args = match self.args_for(&op.parameters) {
            Ok(args) => args,
            Err(e) => {
                return Err(e);
            },
        };
        let schema = match self.spec.resolve(output) {
            Some(schema) => schema,
            None => {
                return Err(OpenApiError::Unresolved);
            },
        };
        let named = match self.get_schema_type(schema, name_from_ref_path(output)) {
            Ok(t) => t,
            Err(e) => {
                return Err(e);
            },
        };
        if !named.is_flat() {
            return Err(OpenApiError::NestedList);
        }
        let (is_list, name) = named.into_tuple();
        let pattern = "\\{\\w+\\}";
        let mut found: Vec<String> = Vec::new();
        let mut template = String::from_str(path);
        assert(url_params_of(chars_list(found@)) =~= Seq::empty());
        if args.len() > 0 {
            template = match replace_all(pattern, path) {
                Some(out) => out,
                None => {
                    return Err(OpenApiError::BadPattern);
                },
            };
            found = match find_all(pattern, path) {
                Some(found) => found,
                None => {
                    return Err(OpenApiError::BadPattern);
                },
            };
        }
        let ghost url_params = url_params_of(chars_list(found@));
        let mut query: Vec<KeyValue> = Vec::new();
        let mut i: usize = 0;
        assert(crate::config::key_values(query@) =~= query_pairs(viewed(args@), url_params, 0));
        while i < args.len()
            invariant
                i <= args.len(),
                url_params == url_params_of(chars_list(found@)),
                crate::config::key_values(query@) == query_pairs(
                    viewed(args@),
                    url_params,
                    i as int,
                ),
            decreases args.len() - i,
        {
            let key = &args[i].0;
            if !names_param(&found, key.as_str()) {
                let mut value = chars_of("{{args.");
                let key_chars = chars_of(key.as_str());
                let close = chars_of("}}");
                append_chars(&mut value, &key_chars);
                append_chars(&mut value, &close);
                let ghost before = crate::config::key_values(query@);
                let pair = KeyValue { key: key.clone(), value: string_of(&value) };
                query.push(pair);
                assert(crate::config::key_values(query@) =~= before.push(
                    (key@, "{{args."@ + key@ + "}}"@),
                ));
            }
            i += 1;
        }
        let id = match &op.operation_id {
            Some(id) => id,
            None => {
                return Err(OpenApiError::MissingOperationId);
            },
        };
        let http = Http {
            path: template,
            method,
            query,
            base_url: None,
            headers: Vec::new(),
            body: None,
            batch_key: Vec::new(),
        };
        assert(crate::config::key_values(http.headers@) =~= Seq::empty());
        assert(chars_list(http.batch_key@) =~= Seq::empty());
        let field = Field {
            type_of: name,
            list: is_list,
            required: false,
            args,
            doc: clone_text(&op.description),
            resolver: Some(Resolver::Http(http)),
        };
        Ok((to_case(id.as_str(), Case::Camel), field))
    }

    /// Makes the types of the document.
    pub fn create_types(&mut self) -> (r: Result<(), OpenApiError>)
        ensures
            match created(old(self).spec, old(self)@) {
                Ok(st) => r is Ok && final(self)@ == st,
                Err(e) => r == Err::<(), OpenApiError>(e),
            },
            final(self).spec == old(self).spec,
            final(self).query == old(self).query,
    {
        let spec: &'a Spec = self.spec;
        let components = match &spec.components {
            Some(components) => components,
            None => {
                return Err(OpenApiError::MissingComponents);
            },
        };
        let mut fields: Vec<(String, Field)> = Vec::new();
        let mut i: usize = 0;
        assert(viewed(fields@) =~= Seq::empty());
        while i < spec.paths.len()
            invariant
                i <= spec.paths.len(),
                self.spec == old(self).spec,
                spec == self.spec,
                self.query == old(self).query,
                spec.components == Some(*components),
                path_fields(spec, spec.paths@, old(self)@, i as int) == Ok::<
                    (Seq<(Seq<char>, FieldModel)>, ConverterModel),
                    OpenApiError,
                >((viewed(fields@), self@)),
            decreases spec.paths.len() - i,
        {
            let entry = &spec.paths[i];
            proof {
                lemma_paths_stop(spec, spec.paths@, old(self)@, i + 1);
            }
            let (method, op) = match first_op(&entry.1) {
                Some(found) => found,
                None => {
                    return Err(OpenApiError::NoOperation);
                },
            };
            match response_schema_of(spec, op) {
                Err(e) => {
                    return Err(e);
                },
                Ok(None) => {},
                Ok(Some(output)) => {
                    match self.field_for_operation(entry.0.as_str(), method, op, output) {
                        Ok((name, field)) => {
                            put(&mut fields, name, field);
                        },
                        Err(e) => {
                            return Err(e);
                        },
                    }
                },
            }
            i += 1;
        }
        let query_type = Type { fields, doc: None, interface: false, tag: None };
        put(&mut self.types, String::from_str("Query"), query_type);
        let ghost start = self@;
        let mut k: usize = 0;
        while k < components.schemas.len()
            invariant
                k <= components.schemas.len(),
                self.spec == old(self).spec,
                spec == self.spec,
                self.query == old(self).query,
                spec.components == Some(*components),
                path_fields(spec, spec.paths@, old(self)@, spec.paths@.len() as int) matches Ok(
                    (found, after),
                ) && start == (ConverterModel {
                    types: set_entry(
                        after.types,
                        "Query"@,
                        TypeModel { fields: found, doc: None, interface: false, tag: None },
                    ),
                    ..after
                }),
                components_defined(spec, components.schemas@, start, k as int) == Ok::<
                    ConverterModel,
                    OpenApiError,
                >(self@),
            decreases components.schemas.len() - k,
        {
            let entry = &components.schemas[k];
            proof {
                lemma_components_stop(spec, components.schemas@, start, k + 1);
            }
            let name = to_case(entry.0.as_str(), Case::Pascal);
            let schema = match spec.resolve(&entry.1) {
                Some(schema) => schema,
                None => {
                    return Err(OpenApiError::Unresolved);
                },
            };
            match self.define_type(schema) {
                Err(e) => {
                    return Err(e);
                },
                Ok(Some(found)) => {
                    self.insert_defined(name, found);
                },
                Ok(None) => {},
            }
            k += 1;
        }
        self.define_inline_types()
    }

    /// Makes the configuration for the document: its types, with `Query`
    /// as the query type, the URL of its first server as the base URL, and
    /// no setting of the server. Where no name occurs twice among what the
    /// converter holds, none does in the configuration.
    pub fn convert(self) -> (r: Result<Config, OpenApiError>)
        ensures
            match created(self.spec, self@) {
                Ok(st) => r matches Ok(config) && types_model(config.types@) == st.types
                    && unions_model(config.unions@) == st.unions && enums_model(config.enums@)
                    == st.enums && opt_chars(config.upstream.base_url) == (if self.spec.servers@.len()
                    > 0 {
                    Some(self.spec.servers@[0]@)
                } else {
                    None
                }) && opt_chars(config.schema.query) == Some("Query"@)
                    && config.schema.mutation is None && config.schema.subscription is None
                    && config.server.is_unset() && (tables_unique(self@)
                    ==> config.distinct_names()),
                Err(e) => r == Err::<Config, OpenApiError>(e),
            },
    {
        let mut converter = self;
        match converter.create_types() {
            Ok(_) => {},
            Err(e) => {
                return Err(e);
            },
        }
        let base_url = if converter.spec.servers.len() > 0 {
            Some(converter.spec.servers[0].clone())
        } else {
            None
        };
        proof {
            lemma_position_keyed(converter.types@, "Query"@);
            lemma_same_keys(keyed(converter.types@), viewed(converter.types@), "Query"@);
            lemma_created_has_query(self.spec, self@);
            if tables_unique(self@) {
                lemma_created_names_unique(self.spec, self@);
            }
        }
        let query = if find_index(&converter.types, "Query").is_some() {
            Some(String::from_str("Query"))
        } else {
            None
        };
        Ok(
            Config {
                server: crate::config::Server::unset(),
                upstream: Upstream { base_url },
                schema: RootSchema { query, mutation: None, subscription: None },
                types: converter.types,
                unions: converter.unions,
                enums: converter.enums,
            },
        )
    }
}

} // verus!
