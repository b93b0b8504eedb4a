//! An OpenAPI document, as far as the generator reads it.

use vstd::prelude::*;

use crate::entries::{find, lookup};
use crate::text::{chars_of, is_prefix_at, matches_at, string_of, tail_of};

verus! {

/// The type that a schema declares.
#[derive(Clone, Copy, Debug, PartialEq, Eq, Structural)]
pub enum SchemaType {
    Boolean,
    Integer,
    Number,
    String,
    Array,
    Object,
}

/// A schema, or a reference to one.
#[derive(Debug, PartialEq, Eq)]
pub enum SchemaRef {
    Ref { ref_path: String },
    Object(Box<Schema>),
}

/// A schema.
#[derive(Debug, PartialEq, Eq)]
pub struct Schema {
    pub schema_type: Option<SchemaType>,
    /// The values of an enum: the text of each value that is a string,
    /// nothing for any other value.
    pub enum_values: Vec<Option<String>>,
    pub items: Option<Box<SchemaRef>>,
    pub properties: Vec<(String, SchemaRef)>,
    pub all_of: Vec<SchemaRef>,
    pub any_of: Vec<SchemaRef>,
    pub one_of: Vec<SchemaRef>,
    pub required: Vec<String>,
    pub description: Option<String>,
    /// Whether the schema says anything about additional properties.
    pub additional_properties: bool,
}

/// A parameter of an operation.
#[derive(Debug, PartialEq, Eq)]
pub struct Parameter {
    pub name: String,
    pub required: Option<bool>,
    pub schema: Option<Schema>,
    pub param_type: Option<String>,
}

/// A parameter, or a reference to one.
#[derive(Debug, PartialEq, Eq)]
pub enum ParameterRef {
    Ref { ref_path: String },
    Object(Parameter),
}

/// What a response holds for one media type.
#[derive(Debug, PartialEq, Eq)]
pub struct MediaType {
    pub schema: Option<SchemaRef>,
}

/// A response.
#[derive(Debug, PartialEq, Eq)]
pub struct Response {
    pub content: Vec<(String, MediaType)>,
}

/// A response, or a reference to one.
#[derive(Debug, PartialEq, Eq)]
pub enum ResponseRef {
    Ref { ref_path: String },
    Object(Response),
}

/// An operation on a path.
#[derive(Debug, PartialEq, Eq)]
pub struct Operation {
    pub operation_id: Option<String>,
    pub description: Option<String>,
    pub parameters: Vec<ParameterRef>,
    pub responses: Vec<(String, ResponseRef)>,
}

/// The operations on one path.
#[derive(Debug, PartialEq, Eq)]
pub struct PathItem {
    pub get: Option<Operation>,
    pub head: Option<Operation>,
    pub options: Option<Operation>,
    pub trace: Option<Operation>,
    pub put: Option<Operation>,
    pub post: Option<Operation>,
    pub delete: Option<Operation>,
    pub patch: Option<Operation>,
}

/// What a document declares for reference.
#[derive(Debug, PartialEq, Eq)]
pub struct Components {
    pub schemas: Vec<(String, SchemaRef)>,
    pub parameters: Vec<(String, ParameterRef)>,
    pub responses: Vec<(String, ResponseRef)>,
}

/// An OpenAPI document.
#[derive(Debug, PartialEq, Eq)]
pub struct Spec {
    pub paths: Vec<(String, PathItem)>,
    pub components: Option<Components>,
    /// The URLs of the servers.
    pub servers: Vec<String>,
}

/// The name that a reference gives within the components of the kind
/// `kind`: what follows `#/components/`, the kind and `/`.
pub open spec fn component_name(ref_path: Seq<char>, kind: Seq<char>) -> Option<Seq<char>> {
    let prefix = "#/components/"@ + kind + "/"@;
    if is_prefix_at(ref_path, prefix) {
        Some(ref_path.skip(prefix.len() as int))
    } else {
        None
    }
}

/// The name that a reference gives within the components of one kind.
pub fn name_in(ref_path: &str, kind: &str) -> (r: Option<String>)
    ensures
        match r {
            Some(name) => component_name(ref_path@, kind@) == Some(name@),
            None => component_name(ref_path@, kind@) is None,
        },
{
    let mut prefix = chars_of("#/components/");
    let kind_chars = chars_of(kind);
    let slash = chars_of("/");
    crate::text::append_chars(&mut prefix, &kind_chars);
    crate::text::append_chars(&mut prefix, &slash);
    let path = chars_of(ref_path);
    if matches_at(&path, &prefix, 0) {
        Some(string_of(&tail_of(&path, prefix.len())))
    } else {
        None
    }
}

impl Spec {
    /// The schemas that the document declares.
    pub open spec fn schemas(&self) -> Seq<(String, SchemaRef)> {
        match self.components {
            Some(c) => c.schemas@,
            None => Seq::empty(),
        }
    }

    /// The schema that a reference stands for. A reference to a reference
    /// is followed, through no more than `fuel` references.
    pub open spec fn schema_of(&self, r: SchemaRef, fuel: nat) -> Option<Schema>
        decreases fuel,
    {
        match r {
            SchemaRef::Object(s) => Some(*s),
            SchemaRef::Ref { ref_path } => if fuel == 0 {
                None
            } else {
                match component_name(ref_path@, "schemas"@) {
                    Some(name) => match lookup(self.schemas(), name) {
                        Some(inner) => self.schema_of(inner, (fuel - 1) as nat),
                        None => None,
                    },
                    None => None,
                }
            },
        }
    }

    /// The schema that a reference stands for, followed through no more
    /// references than the document declares schemas.
    pub open spec fn resolved(&self, r: SchemaRef) -> Option<Schema> {
        self.schema_of(r, self.schemas().len())
    }

    fn follow<'a>(&'a self, r: &'a SchemaRef, fuel: usize) -> (found: Option<&'a Schema>)
        ensures
            match found {
                Some(s) => self.schema_of(*r, fuel as nat) == Some(*s),
                None => self.schema_of(*r, fuel as nat) is None,
            },
        decreases fuel,
    {
        match r {
            SchemaRef::Object(s) => Some(&**s),
            SchemaRef::Ref { ref_path } => {
                if fuel == 0 {
                    return None;
                }
                let name = match name_in(ref_path.as_str(), "schemas") {
                    Some(name) => name,
                    None => {
                        return None;
                    },
                };
                match &self.components {
                    Some(c) => match find(&c.schemas, name.as_str()) {
                        Some(inner) => self.follow(inner, fuel - 1),
                        None => None,
                    },
                    None => None,
                }
            },
        }
    }

    /// The schema that a reference stands for.
    pub fn resolve<'a>(&'a self, r: &'a SchemaRef) -> (found: Option<&'a Schema>)
        ensures
            match found {
                Some(s) => self.resolved(*r) == Some(*s),
                None => self.resolved(*r) is None,
            },
    {
        let fuel = match &self.components {
            Some(c) => c.schemas.len(),
            None => 0,
        };
        self.follow(r, fuel)
    }

    /// The parameter that a reference stands for: the parameter itself, or
    /// the one declared under the name that the reference gives.
    pub open spec fn parameter_of(&self, r: ParameterRef) -> Option<Parameter> {
        match r {
            ParameterRef::Object(p) => Some(p),
            ParameterRef::Ref { ref_path } => match (
                component_name(ref_path@, "parameters"@),
                self.components,
            ) {
                (Some(name), Some(c)) => match lookup(c.parameters@, name) {
                    Some(ParameterRef::Object(p)) => Some(p),
                    _ => None,
                },
                _ => None,
            },
        }
    }

    /// The parameter that a reference stands for.
    pub fn resolve_parameter<'a>(&'a self, r: &'a ParameterRef) -> (found: Option<&'a Parameter>)
        ensures
            match found {
                Some(p) => self.parameter_of(*r) == Some(*p),
                None => self.parameter_of(*r) is None,
            },
    {
        match r {
            ParameterRef::Object(p) => Some(p),
            ParameterRef::Ref { ref_path } => {
                let name = match name_in(ref_path.as_str(), "parameters") {
                    Some(name) => name,
                    None => {
                        return None;
                    },
                };
                match &self.components {
                    Some(c) => match find(&c.parameters, name.as_str()) {
                        Some(ParameterRef::Object(p)) => Some(p),
                        _ => None,
                    },
                    None => None,
                }
            },
        }
    }

    /// The response that a reference stands for: the response itself, or
    /// the one declared under the name that the reference gives.
    pub open spec fn response_of(&self, r: ResponseRef) -> Option<Response> {
        match r {
            ResponseRef::Object(p) => Some(p),
            ResponseRef::Ref { ref_path } => match (
                component_name(ref_path@, "responses"@),
                self.components,
            ) {
                (Some(name), Some(c)) => match lookup(c.responses@, name) {
                    Some(ResponseRef::Object(p)) => Some(p),
                    _ => None,
                },
                _ => None,
            },
        }
    }

    /// The response that a reference stands for.
    pub fn resolve_response<'a>(&'a self, r: &'a ResponseRef) -> (found: Option<&'a Response>)
        ensures
            match found {
                Some(p) => self.response_of(*r) == Some(*p),
                None => self.response_of(*r) is None,
            },
    {
        match r {
            ResponseRef::Object(p) => Some(p),
            ResponseRef::Ref { ref_path } => {
                let name = match name_in(ref_path.as_str(), "responses") {
                    Some(name) => name,
                    None => {
                        return None;
                    },
                };
                match &self.components {
                    Some(c) => match find(&c.responses, name.as_str()) {
                        Some(ResponseRef::Object(p)) => Some(p),
                        _ => None,
                    },
                    None => None,
                }
            },
        }
    }
}

} // verus!
