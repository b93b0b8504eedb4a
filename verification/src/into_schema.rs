//! Binding of a blueprint to the GraphQL runtime: the types to register,
//! and what the resolver of a field returns.

use vstd::prelude::*;

use crate::auth::Auth;
use crate::blueprint::{Blueprint, Definition, FieldDefinition, InputFieldDefinition, Type};
use crate::context::{ContextModel, EvalContext, get_entry, object_get, path_texts};
use crate::entries::{find_index, position};
use crate::eval::{eval, eval_spec, EvalError, Session, SessionModel, Step, StepModel};
use crate::ir::{IO, IR};
use crate::json::{Json, JsonValue};
use crate::loader::values;
use crate::text::{clone_names, clone_text};

verus! {

/// A reference to a type, as the GraphQL runtime takes it.
#[derive(Debug, PartialEq, Eq)]
pub enum TypeRef {
    Named(String),
    NonNull(Box<TypeRef>),
    List(Box<TypeRef>),
}

/// The reference for a type of the blueprint: the name, or a list of the
/// reference of the item type, and around either a non-null marker where
/// the type is non-null.
pub open spec fn type_ref_of(type_of: &Type) -> TypeRef
    decreases type_of,
{
    match type_of {
        Type::NamedType { name, non_null } => if *non_null {
            TypeRef::NonNull(Box::new(TypeRef::Named(*name)))
        } else {
            TypeRef::Named(*name)
        },
        Type::ListType { of_type, non_null } => if *non_null {
            TypeRef::NonNull(Box::new(TypeRef::List(Box::new(type_ref_of(of_type)))))
        } else {
            TypeRef::List(Box::new(type_ref_of(of_type)))
        },
    }
}

/// The reference for a type of the blueprint.
pub fn to_type_ref(type_of: &Type) -> (r: TypeRef)
    ensures
        r == type_ref_of(type_of),
    decreases type_of,
{
    match type_of {
        Type::NamedType { name, non_null } => {
            if *non_null {
                TypeRef::NonNull(Box::new(TypeRef::Named(name.clone())))
            } else {
                TypeRef::Named(name.clone())
            }
        },
        Type::ListType { of_type, non_null } => {
            let inner = Box::new(to_type_ref(&**of_type));
            if *non_null {
                TypeRef::NonNull(Box::new(TypeRef::List(inner)))
            } else {
                TypeRef::List(inner)
            }
        },
    }
}

/// A named input with its type: an argument, or a field of an input object
/// or interface.
#[derive(Debug, PartialEq, Eq)]
pub struct SchemaInput {
    pub name: String,
    pub type_ref: TypeRef,
}

/// A field of an object type to register. Its resolver is that of the
/// field of the blueprint in the same position.
#[derive(Debug, PartialEq, Eq)]
pub struct SchemaField {
    pub name: String,
    pub type_ref: TypeRef,
    pub description: Option<String>,
    pub arguments: Vec<SchemaInput>,
}

/// A type to register with the GraphQL runtime.
#[derive(Debug, PartialEq, Eq)]
pub enum SchemaType {
    Object { name: String, fields: Vec<SchemaField>, implements: Vec<String> },
    Interface { name: String, fields: Vec<SchemaInput> },
    InputObject { name: String, fields: Vec<SchemaInput> },
    Scalar { name: String, description: Option<String> },
    Enum { name: String, items: Vec<String> },
    Union { name: String, possible_types: Vec<String> },
}

/// The inputs of the runtime are those of the blueprint, one for one.
pub open spec fn inputs_bound(inputs: Seq<SchemaInput>, fields: Seq<InputFieldDefinition>) -> bool {
    inputs.len() == fields.len() && forall|i: int|
        0 <= i < fields.len() ==> (#[trigger] inputs[i]).name == fields[i].name
            && inputs[i].type_ref == type_ref_of(&fields[i].of_type)
}

/// The output fields of the blueprint as inputs of the runtime, one for
/// one: an interface declares names and types only.
pub open spec fn signatures_bound(inputs: Seq<SchemaInput>, fields: Seq<FieldDefinition>) -> bool {
    inputs.len() == fields.len() && forall|i: int|
        0 <= i < fields.len() ==> (#[trigger] inputs[i]).name == fields[i].name
            && inputs[i].type_ref == type_ref_of(&fields[i].of_type)
}

/// The fields of the runtime are those of the blueprint, one for one, with
/// their descriptions and arguments.
pub open spec fn fields_bound(bound: Seq<SchemaField>, fields: Seq<FieldDefinition>) -> bool {
    bound.len() == fields.len() && forall|i: int|
        0 <= i < fields.len() ==> (#[trigger] bound[i]).name == fields[i].name
            && bound[i].type_ref == type_ref_of(&fields[i].of_type) && bound[i].description
            == fields[i].description && inputs_bound(bound[i].arguments@, fields[i].args@)
}

/// The type to register is the definition, part for part.
pub open spec fn type_bound(bound: SchemaType, def: &Definition) -> bool {
    match def {
        Definition::ObjectTypeDefinition(d) => bound matches SchemaType::Object {
            name,
            fields,
            implements,
        } && name == d.name && fields_bound(fields@, d.fields@) && implements@ == d.implements@,
        Definition::InterfaceTypeDefinition(d) => bound matches SchemaType::Interface {
            name,
            fields,
        } && name == d.name && signatures_bound(fields@, d.fields@),
        Definition::InputObjectTypeDefinition(d) => bound matches SchemaType::InputObject {
            name,
            fields,
        } && name == d.name && inputs_bound(fields@, d.fields@),
        Definition::ScalarTypeDefinition(d) => bound matches SchemaType::Scalar {
            name,
            description,
        } && name == d.name && description == d.description,
        Definition::EnumTypeDefinition(d) => bound matches SchemaType::Enum { name, items }
            && name == d.name && items@.len() == d.enum_values@.len() && forall|i: int|
            0 <= i < items@.len() ==> #[trigger] items@[i] == d.enum_values@[i].name,
        Definition::UnionTypeDefinition(d) => bound matches SchemaType::Union {
            name,
            possible_types,
        } && name == d.name && possible_types@ == d.types@,
    }
}

fn to_inputs(fields: &Vec<InputFieldDefinition>) -> (r: Vec<SchemaInput>)
    ensures
        inputs_bound(r@, fields@),
{
    let mut out: Vec<SchemaInput> = Vec::new();
    let mut i: usize = 0;
    while i < fields.len()
        invariant
            i <= fields.len(),
            out.len() == i,
            forall|j: int|
                0 <= j < i ==> (#[trigger] out[j]).name == fields[j].name && out[j].type_ref
                    == type_ref_of(&fields[j].of_type),
        decreases fields.len() - i,
    {
        out.push(
            SchemaInput {
                name: fields[i].name.clone(),
                type_ref: to_type_ref(&fields[i].of_type),
            },
        );
        i += 1;
    }
    out
}

/// The type to register with the GraphQL runtime for a definition.
pub fn to_type(def: &Definition) -> (r: SchemaType)
    ensures
        type_bound(r, def),
{
    match def {
        Definition::ObjectTypeDefinition(def) => {
            let mut fields: Vec<SchemaField> = Vec::new();
            let mut i: usize = 0;
            while i < def.fields.len()
                invariant
                    i <= def.fields.len(),
                    fields.len() == i,
                    forall|j: int|
                        0 <= j < i ==> (#[trigger] fields[j]).name == def.fields[j].name
                            && fields[j].type_ref == type_ref_of(&def.fields[j].of_type)
                            && fields[j].description == def.fields[j].description && inputs_bound(
                            fields[j].arguments@,
                            def.fields[j].args@,
                        ),
                decreases def.fields.len() - i,
            {
                let field = &def.fields[i];
                fields.push(
                    SchemaField {
                        name: field.name.clone(),
                        type_ref: to_type_ref(&field.of_type),
                        description: clone_text(&field.description),
                        arguments: to_inputs(&field.args),
                    },
                );
                i += 1;
            }
            SchemaType::Object {
                name: def.name.clone(),
                fields,
                implements: clone_names(&def.implements),
            }
        },
        Definition::InterfaceTypeDefinition(def) => {
            let mut fields: Vec<SchemaInput> = Vec::new();
            let mut i: usize = 0;
            while i < def.fields.len()
                invariant
                    i <= def.fields.len(),
                    fields.len() == i,
                    forall|j: int|
                        0 <= j < i ==> (#[trigger] fields[j]).name == def.fields[j].name
                            && fields[j].type_ref == type_ref_of(&def.fields[j].of_type),
                decreases def.fields.len() - i,
            {
                fields.push(
                    SchemaInput {
                        name: def.fields[i].name.clone(),
                        type_ref: to_type_ref(&def.fields[i].of_type),
                    },
                );
                i += 1;
            }
            SchemaType::Interface { name: def.name.clone(), fields }
        },
        Definition::InputObjectTypeDefinition(def) => SchemaType::InputObject {
            name: def.name.clone(),
            fields: to_inputs(&def.fields),
        },
        Definition::ScalarTypeDefinition(def) => SchemaType::Scalar {
            name: def.name.clone(),
            description: clone_text(&def.description),
        },
        Definition::EnumTypeDefinition(def) => {
            let mut items: Vec<String> = Vec::new();
            let mut i: usize = 0;
            while i < def.enum_values.len()
                invariant
                    i <= def.enum_values.len(),
                    items.len() == i,
                    forall|j: int| 0 <= j < i ==> #[trigger] items@[j] == def.enum_values@[j].name,
                decreases def.enum_values.len() - i,
            {
                items.push(def.enum_values[i].name.clone());
                i += 1;
            }
            SchemaType::Enum { name: def.name.clone(), items }
        },
        Definition::UnionTypeDefinition(def) => SchemaType::Union {
            name: def.name.clone(),
            possible_types: clone_names(&def.types),
        },
    }
}

/// What is to be registered for a blueprint: the names of the root
/// operation types, the types in the order of their definitions, and
/// whether federation is on, which it is where there are entity resolvers.
#[derive(Debug)]
pub struct SchemaPlan {
    pub query: String,
    pub mutation: Option<String>,
    pub types: Vec<SchemaType>,
    pub federation: bool,
}

/// What is to be registered for a blueprint.
pub fn create(blueprint: &Blueprint) -> (r: SchemaPlan)
    ensures
        r.query == blueprint.schema.query,
        r.mutation == blueprint.schema.mutation,
        r.federation == (blueprint.entity_resolvers@.len() > 0),
        r.types@.len() == blueprint.definitions@.len(),
        forall|i: int|
            0 <= i < r.types@.len() ==> type_bound(
                #[trigger] r.types@[i],
                &blueprint.definitions@[i],
            ),
{
    let mut types: Vec<SchemaType> = Vec::new();
    let mut i: usize = 0;
    while i < blueprint.definitions.len()
        invariant
            i <= blueprint.definitions.len(),
            types.len() == i,
            forall|j: int|
                0 <= j < i ==> type_bound(#[trigger] types@[j], &blueprint.definitions@[j]),
        decreases blueprint.definitions.len() - i,
    {
        types.push(to_type(&blueprint.definitions[i]));
        i += 1;
    }
    SchemaPlan {
        query: blueprint.query(),
        mutation: blueprint.mutation(),
        types,
        federation: blueprint.entity_resolvers.len() > 0,
    }
}

/// The value of a field as the GraphQL runtime takes it: a list is handed
/// over item by item.
#[derive(Debug, PartialEq, Eq)]
pub enum FieldValue {
    List(Vec<Json>),
    Value(Json),
}

/// The mathematical content of a [`FieldValue`].
pub ghost enum FieldValueModel {
    List(Seq<JsonValue>),
    Value(JsonValue),
}

impl View for FieldValue {
    type V = FieldValueModel;

    open spec fn view(&self) -> FieldValueModel {
        match self {
            FieldValue::List(items) => FieldValueModel::List(values(items@)),
            FieldValue::Value(v) => FieldValueModel::Value(v@),
        }
    }
}

/// What a resolver's result is handed over as: a list as a list, anything
/// else as a single value.
pub open spec fn field_value_of(v: JsonValue) -> FieldValueModel {
    match v {
        JsonValue::Array(items) => FieldValueModel::List(items),
        other => FieldValueModel::Value(other),
    }
}

/// What a resolver's result is handed over as.
pub fn field_value(value: Json) -> (r: FieldValue)
    ensures
        r@ == field_value_of(value@),
{
    match value {
        Json::Array(items) => {
            assert(values(items@) =~= value@->Array_0);
            FieldValue::List(items)
        },
        other => FieldValue::Value(other),
    }
}

/// Whether a value is null.
pub fn is_null(value: &Json) -> (r: bool)
    ensures
        r == (value@ is Null),
{
    match value {
        Json::Null => true,
        _ => false,
    }
}

/// How far the resolution of a field got.
#[derive(Debug)]
pub enum Resolution<'a> {
    /// The field is resolved: to a value, to nothing, or to an error.
    Done(Result<Option<FieldValue>, EvalError>),
    /// The credentials have to be checked against `auth` first.
    NeedAuth(&'a Auth),
    /// The call `io` has to be made first, with `value` as the parent value.
    NeedIo { io: &'a IO, value: Option<Json> },
}

/// The mathematical content of a [`Resolution`].
pub ghost enum ResolutionModel {
    Done(Result<Option<FieldValueModel>, EvalError>),
    NeedAuth(Auth),
    NeedIo { io: IO, value: Option<JsonValue> },
}

impl<'a> View for Resolution<'a> {
    type V = ResolutionModel;

    open spec fn view(&self) -> ResolutionModel {
        match self {
            Resolution::Done(Ok(Some(v))) => ResolutionModel::Done(Ok(Some(v@))),
            Resolution::Done(Ok(None)) => ResolutionModel::Done(Ok(None)),
            Resolution::Done(Err(e)) => ResolutionModel::Done(Err(*e)),
            Resolution::NeedAuth(auth) => ResolutionModel::NeedAuth(**auth),
            Resolution::NeedIo { io, value } => ResolutionModel::NeedIo {
                io: **io,
                value: match value {
                    Some(v) => Some(v@),
                    None => None,
                },
            },
        }
    }
}

/// What is handed over for a field for which `v` was found: `v` in the
/// form `handed`, unless `v` is null and the field's type is non-null.
pub open spec fn found_value(field: &FieldDefinition, v: JsonValue, handed: FieldValueModel) -> Result<
    Option<FieldValueModel>,
    EvalError,
> {
    if v is Null && field.of_type.spec_non_null() {
        Err(EvalError::PathNotFound)
    } else {
        Ok(Some(handed))
    }
}

/// What a field resolves to. Without a resolver, what the parent value
/// has under the field's name, if anything. With a resolver, what the
/// resolver evaluates to, handed over as a list where it is one. A field
/// whose type is non-null and for which nothing, or null, is found fails:
/// the path was not found.
pub open spec fn resolved(field: &FieldDefinition, ctx: ContextModel, s: SessionModel) -> (
    ResolutionModel,
    SessionModel,
) {
    match field.resolver {
        None => (
            ResolutionModel::Done(
                match ctx.path_value(seq!["value"@, field.name@]) {
                    Some(v) => found_value(field, v, FieldValueModel::Value(v)),
                    None => if field.of_type.spec_non_null() {
                        Err(EvalError::PathNotFound)
                    } else {
                        Ok(None)
                    },
                },
            ),
            s,
        ),
        Some(expr) => match eval_spec(&expr, ctx, s) {
            (StepModel::Done(Ok(v)), after) => (
                ResolutionModel::Done(found_value(field, v, field_value_of(v))),
                after,
            ),
            (StepModel::Done(Err(e)), after) => (ResolutionModel::Done(Err(e)), after),
            (StepModel::NeedAuth(auth), after) => (ResolutionModel::NeedAuth(auth), after),
            (StepModel::NeedIo { io, value }, after) => (
                ResolutionModel::NeedIo { io, value },
                after,
            ),
        },
    }
}

/// Resolves a field in a context, as far as the answers of the session
/// reach.
pub fn resolve_field<'a>(field: &'a FieldDefinition, ctx: &EvalContext, s: &mut Session) -> (r:
    Resolution<'a>)
    ensures
        r@ == resolved(field, ctx@, old(s)@).0,
        final(s)@ == resolved(field, ctx@, old(s)@).1,
{
    match &field.resolver {
        None => {
            let mut path: Vec<String> = Vec::new();
            path.push(String::from_str("value"));
            path.push(field.name.clone());
            assert(path_texts(path@) =~= seq!["value"@, field.name@]);
            Resolution::Done(
                match ctx.path_value(&path) {
                    Some(v) => if is_null(&v) && field.of_type.is_non_null() {
                        Err(EvalError::PathNotFound)
                    } else {
                        Ok(Some(FieldValue::Value(v)))
                    },
                    None => if field.of_type.is_non_null() {
                        Err(EvalError::PathNotFound)
                    } else {
                        Ok(None)
                    },
                },
            )
        },
        Some(expr) => match eval(expr, ctx, s) {
            Step::Done(Ok(v)) => Resolution::Done(
                if is_null(&v) && field.of_type.is_non_null() {
                    Err(EvalError::PathNotFound)
                } else {
                    Ok(Some(field_value(v)))
                },
            ),
            Step::Done(Err(e)) => Resolution::Done(Err(e)),
            Step::NeedAuth(auth) => Resolution::NeedAuth(auth),
            Step::NeedIo { io, value } => Resolution::NeedIo { io, value },
        },
    }
}

/// Which resolver an entity representation is resolved by, as its position
/// among the entity resolvers: that of the type named by the
/// representation's `__typename`; none where the type is not known or has
/// no resolver. A representation that is no object, or whose `__typename`
/// is no string, is malformed; one without `__typename` lacks the path.
pub open spec fn entity_choice(
    resolvers: Seq<(String, Option<IR>)>,
    representation: JsonValue,
) -> Result<Option<int>, EvalError> {
    match representation {
        JsonValue::Object(entries) => match object_get(entries, "__typename"@) {
            Some(JsonValue::String(typename)) => Ok(
                match position(resolvers, typename) {
                    Some(i) => if 0 <= i < resolvers.len() && resolvers[i].1 is Some {
                        Some(i)
                    } else {
                        None
                    },
                    None => None,
                },
            ),
            Some(_) => Err(EvalError::DeserializeFailed),
            None => Err(EvalError::PathNotFound),
        },
        _ => Err(EvalError::DeserializeFailed),
    }
}

/// The resolver by which an entity representation is resolved.
pub fn entity_resolver<'a>(resolvers: &'a Vec<(String, Option<IR>)>, representation: &Json) -> (r:
    Result<Option<&'a IR>, EvalError>)
    ensures
        match entity_choice(resolvers@, representation@) {
            Ok(Some(i)) => r matches Ok(Some(ir)) && resolvers@[i].1 == Some(*ir),
            Ok(None) => r matches Ok(None),
            Err(e) => r matches Err(x) && x == e,
        },
{
    match representation {
        Json::Object(entries) => match get_entry(entries, "__typename") {
            Some(Json::String(typename)) => match find_index(resolvers, typename.as_str()) {
                Some(i) => match &resolvers[i].1 {
                    Some(ir) => Ok(Some(ir)),
                    None => Ok(None),
                },
                None => Ok(None),
            },
            Some(_) => Err(EvalError::DeserializeFailed),
            None => Err(EvalError::PathNotFound),
        },
        _ => Err(EvalError::DeserializeFailed),
    }
}

/// How far the resolution of a list of entities got.
#[derive(Debug)]
pub enum Entities<'a> {
    Done(Result<Vec<FieldValue>, EvalError>),
    NeedAuth(&'a Auth),
    NeedIo { io: &'a IO, value: Option<Json> },
}

/// The mathematical content of an [`Entities`].
pub ghost enum EntitiesModel {
    Done(Result<Seq<FieldValueModel>, EvalError>),
    NeedAuth(Auth),
    NeedIo { io: IO, value: Option<JsonValue> },
}

/// The mathematical content of a list of field values.
pub open spec fn field_values(items: Seq<FieldValue>) -> Seq<FieldValueModel> {
    Seq::new(items.len(), |i: int| items[i]@)
}

impl<'a> View for Entities<'a> {
    type V = EntitiesModel;

    open spec fn view(&self) -> EntitiesModel {
        match self {
            Entities::Done(Ok(v)) => EntitiesModel::Done(Ok(field_values(v@))),
            Entities::Done(Err(e)) => EntitiesModel::Done(Err(*e)),
            Entities::NeedAuth(auth) => EntitiesModel::NeedAuth(**auth),
            Entities::NeedIo { io, value } => EntitiesModel::NeedIo {
                io: **io,
                value: match value {
                    Some(v) => Some(v@),
                    None => None,
                },
            },
        }
    }
}

/// What a list of entity representations resolves to: one value for each
/// representation, in their order. For a representation that has a
/// resolver it is what the resolver evaluates to with the representation as
/// the parent value; for one whose type is not known, or has no resolver,
/// it is null. The first error, or the first need of an answer from
/// outside, ends the resolution.
pub open spec fn entities_resolved(
    resolvers: Seq<(String, Option<IR>)>,
    representations: Seq<JsonValue>,
    ctx: ContextModel,
    s: SessionModel,
) -> (EntitiesModel, SessionModel)
    decreases representations.len(),
{
    if representations.len() == 0 {
        (EntitiesModel::Done(Ok(Seq::empty())), s)
    } else {
        match entities_resolved(resolvers, representations.drop_last(), ctx, s) {
            (EntitiesModel::Done(Ok(found)), after) => match entity_choice(
                resolvers,
                representations.last(),
            ) {
                Err(e) => (EntitiesModel::Done(Err(e)), after),
                Ok(None) => (
                    EntitiesModel::Done(Ok(found.push(FieldValueModel::Value(JsonValue::Null)))),
                    after,
                ),
                Ok(Some(i)) => match eval_spec(
                    &resolvers[i].1->0,
                    ctx.with_value(representations.last()),
                    after,
                ) {
                    (StepModel::Done(Ok(v)), end) => (
                        EntitiesModel::Done(Ok(found.push(field_value_of(v)))),
                        end,
                    ),
                    (StepModel::Done(Err(e)), end) => (EntitiesModel::Done(Err(e)), end),
                    (StepModel::NeedAuth(auth), end) => (EntitiesModel::NeedAuth(auth), end),
                    (StepModel::NeedIo { io, value }, end) => (
                        EntitiesModel::NeedIo { io, value },
                        end,
                    ),
                },
            },
            other => other,
        }
    }
}

/// Resolves a list of entity representations, as far as the answers of
/// the session reach.
pub fn resolve_entities<'a>(
    resolvers: &'a Vec<(String, Option<IR>)>,
    representations: &Vec<Json>,
    ctx: &EvalContext,
    s: &mut Session,
) -> (r: Entities<'a>)
    ensures
        r@ == entities_resolved(resolvers@, values(representations@), ctx@, old(s)@).0,
        final(s)@ == entities_resolved(resolvers@, values(representations@), ctx@, old(s)@).1,
{
    let ghost all = values(representations@);
    let mut found: Vec<FieldValue> = Vec::new();
    let mut i: usize = 0;
    assert(all.take(0) =~= Seq::<JsonValue>::empty());
    assert(field_values(found@) =~= Seq::<FieldValueModel>::empty());
    while i < representations.len()
        invariant
            i <= representations.len(),
            all == values(representations@),
            entities_resolved(resolvers@, all.take(i as int), ctx@, old(s)@) == (
                EntitiesModel::Done(Ok(field_values(found@))),
                s@,
            ),
        decreases representations.len() - i,
    {
        let item = &representations[i];
        proof {
            let next = all.take(i + 1);
            assert(next.drop_last() =~= all.take(i as int));
            assert(next.last() == item@);
            lemma_entities_stop(resolvers@, all, ctx@, old(s)@, i + 1);
        }
        match entity_resolver(resolvers, item) {
            Err(e) => {
                return Entities::Done(Err(e));
            },
            Ok(None) => {
                let ghost before = field_values(found@);
                found.push(FieldValue::Value(Json::Null));
                assert(field_values(found@) =~= before.push(
                    FieldValueModel::Value(JsonValue::Null),
                ));
            },
            Ok(Some(ir)) => {
                let inner = ctx.with_value(item);
                match eval(ir, &inner, s) {
                    Step::Done(Ok(v)) => {
                        let ghost before = field_values(found@);
                        found.push(field_value(v));
                        assert(field_values(found@) =~= before.push(field_value_of(v@)));
                    },
                    Step::Done(Err(e)) => {
                        return Entities::Done(Err(e));
                    },
                    Step::NeedAuth(auth) => {
                        return Entities::NeedAuth(auth);
                    },
                    Step::NeedIo { io, value } => {
                        return Entities::NeedIo { io, value };
                    },
                }
            },
        }
        i += 1;
    }
    assert(all.take(representations.len() as int) =~= all);
    Entities::Done(Ok(found))
}

/// A resolution that is done with values has one value for each
/// representation.
pub proof fn lemma_one_value_each(
    resolvers: Seq<(String, Option<IR>)>,
    representations: Seq<JsonValue>,
    ctx: ContextModel,
    s: SessionModel,
)
    ensures
        entities_resolved(resolvers, representations, ctx, s).0 matches EntitiesModel::Done(
            Ok(found),
        ) ==> found.len() == representations.len(),
    decreases representations.len(),
{
    if representations.len() > 0 {
        lemma_one_value_each(resolvers, representations.drop_last(), ctx, s);
    }
}

/// Once the resolution of a list has ended early on one of its items, the
/// items after it change nothing.
proof fn lemma_entities_stop(
    resolvers: Seq<(String, Option<IR>)>,
    all: Seq<JsonValue>,
    ctx: ContextModel,
    s: SessionModel,
    upto: int,
)
    requires
        0 <= upto <= all.len(),
    ensures
        !(entities_resolved(resolvers, all.take(upto), ctx, s).0 matches EntitiesModel::Done(
            Ok(_),
        )) ==> entities_resolved(resolvers, all, ctx, s) == entities_resolved(
            resolvers,
            all.take(upto),
            ctx,
            s,
        ),
    decreases all.len() - upto,
{
    if upto < all.len() {
        let next = all.take(upto + 1);
        assert(next.drop_last() =~= all.take(upto));
        lemma_entities_stop(resolvers, all, ctx, s, upto + 1);
    } else {
        assert(all.take(upto) =~= all);
    }
}

} // verus!
