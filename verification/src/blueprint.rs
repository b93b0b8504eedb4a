//! The compiled schema that the engine serves: type definitions, and for
//! each field how it is resolved.

use vstd::prelude::*;

use crate::ir::IR;

verus! {

/// The type of a field or argument.
#[derive(Debug, PartialEq, Eq)]
pub enum Type {
    NamedType { name: String, non_null: bool },
    ListType { of_type: Box<Type>, non_null: bool },
}

impl Type {
    /// Whether a value of the type must be there.
    pub open spec fn spec_non_null(&self) -> bool {
        match self {
            Type::NamedType { non_null, .. } => *non_null,
            Type::ListType { non_null, .. } => *non_null,
        }
    }

    /// Whether a value of the type must be there.
    pub fn is_non_null(&self) -> (r: bool)
        ensures
            r == self.spec_non_null(),
    {
        match self {
            Type::NamedType { non_null, .. } => *non_null,
            Type::ListType { non_null, .. } => *non_null,
        }
    }
}

/// An argument of a field, or a field of an input object.
#[derive(Debug)]
pub struct InputFieldDefinition {
    pub name: String,
    pub of_type: Type,
    pub description: Option<String>,
}

/// A field of an object or interface.
#[derive(Debug)]
pub struct FieldDefinition {
    pub name: String,
    pub args: Vec<InputFieldDefinition>,
    pub of_type: Type,
    pub resolver: Option<IR>,
    pub description: Option<String>,
}

#[derive(Debug)]
pub struct ObjectTypeDefinition {
    pub name: String,
    pub fields: Vec<FieldDefinition>,
    pub description: Option<String>,
    pub implements: Vec<String>,
}

#[derive(Debug)]
pub struct InterfaceTypeDefinition {
    pub name: String,
    pub fields: Vec<FieldDefinition>,
    pub description: Option<String>,
}

#[derive(Debug)]
pub struct InputObjectTypeDefinition {
    pub name: String,
    pub fields: Vec<InputFieldDefinition>,
    pub description: Option<String>,
}

#[derive(Debug)]
pub struct ScalarTypeDefinition {
    pub name: String,
    pub description: Option<String>,
}

#[derive(Debug)]
pub struct EnumValueDefinition {
    pub name: String,
    pub description: Option<String>,
}

#[derive(Debug)]
pub struct EnumTypeDefinition {
    pub name: String,
    pub enum_values: Vec<EnumValueDefinition>,
    pub description: Option<String>,
}

#[derive(Debug)]
pub struct UnionTypeDefinition {
    pub name: String,
    pub types: Vec<String>,
    pub description: Option<String>,
}

/// One definition of the schema.
#[derive(Debug)]
pub enum Definition {
    ObjectTypeDefinition(ObjectTypeDefinition),
    InterfaceTypeDefinition(InterfaceTypeDefinition),
    InputObjectTypeDefinition(InputObjectTypeDefinition),
    ScalarTypeDefinition(ScalarTypeDefinition),
    EnumTypeDefinition(EnumTypeDefinition),
    UnionTypeDefinition(UnionTypeDefinition),
}

/// The names of the root operation types.
#[derive(Debug)]
pub struct SchemaDefinition {
    pub query: String,
    pub mutation: Option<String>,
}

/// The compiled schema.
#[derive(Debug)]
pub struct Blueprint {
    pub definitions: Vec<Definition>,
    pub schema: SchemaDefinition,
    /// For each entity type, how an entity of the type is resolved from
    /// its representation; no resolver where the representation is the
    /// entity.
    pub entity_resolvers: Vec<(String, Option<IR>)>,
}

impl Blueprint {
    /// The name of the query type.
    pub fn query(&self) -> (r: String)
        ensures
            r == self.schema.query,
    {
        self.schema.query.clone()
    }

    /// The name of the mutation type, if there is one.
    pub fn mutation(&self) -> (r: Option<String>)
        ensures
            r == self.schema.mutation,
    {
        match &self.schema.mutation {
            Some(name) => Some(name.clone()),
            None => None,
        }
    }
}

} // verus!
