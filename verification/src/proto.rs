//! Protocol buffer descriptors, as far as the gateway reads them.

use vstd::prelude::*;

verus! {

/// How often a field may occur.
#[derive(Clone, Copy, Debug, PartialEq, Eq, Structural)]
pub enum Label {
    Optional,
    Required,
    Repeated,
}

/// The declared type of a field.
#[derive(Clone, Copy, Debug, PartialEq, Eq, Structural)]
pub enum FieldType {
    Double,
    Float,
    Int64,
    Uint64,
    Int32,
    Fixed64,
    Fixed32,
    Bool,
    String,
    Group,
    Message,
    Bytes,
    Uint32,
    Enum,
    Sfixed32,
    Sfixed64,
    Sint32,
    Sint64,
}

impl FieldType {
    /// The name of the type in the descriptor's own vocabulary.
    pub fn as_str_name(&self) -> (r: &'static str)
        ensures
            r@ == self.spec_name(),
    {
        match self {
            FieldType::Double => "TYPE_DOUBLE",
            FieldType::Float => "TYPE_FLOAT",
            FieldType::Int64 => "TYPE_INT64",
            FieldType::Uint64 => "TYPE_UINT64",
            FieldType::Int32 => "TYPE_INT32",
            FieldType::Fixed64 => "TYPE_FIXED64",
            FieldType::Fixed32 => "TYPE_FIXED32",
            FieldType::Bool => "TYPE_BOOL",
            FieldType::String => "TYPE_STRING",
            FieldType::Group => "TYPE_GROUP",
            FieldType::Message => "TYPE_MESSAGE",
            FieldType::Bytes => "TYPE_BYTES",
            FieldType::Uint32 => "TYPE_UINT32",
            FieldType::Enum => "TYPE_ENUM",
            FieldType::Sfixed32 => "TYPE_SFIXED32",
            FieldType::Sfixed64 => "TYPE_SFIXED64",
            FieldType::Sint32 => "TYPE_SINT32",
            FieldType::Sint64 => "TYPE_SINT64",
        }
    }

    pub open spec fn spec_name(&self) -> Seq<char> {
        match self {
            FieldType::Double => "TYPE_DOUBLE"@,
            FieldType::Float => "TYPE_FLOAT"@,
            FieldType::Int64 => "TYPE_INT64"@,
            FieldType::Uint64 => "TYPE_UINT64"@,
            FieldType::Int32 => "TYPE_INT32"@,
            FieldType::Fixed64 => "TYPE_FIXED64"@,
            FieldType::Fixed32 => "TYPE_FIXED32"@,
            FieldType::Bool => "TYPE_BOOL"@,
            FieldType::String => "TYPE_STRING"@,
            FieldType::Group => "TYPE_GROUP"@,
            FieldType::Message => "TYPE_MESSAGE"@,
            FieldType::Bytes => "TYPE_BYTES"@,
            FieldType::Uint32 => "TYPE_UINT32"@,
            FieldType::Enum => "TYPE_ENUM"@,
            FieldType::Sfixed32 => "TYPE_SFIXED32"@,
            FieldType::Sfixed64 => "TYPE_SFIXED64"@,
            FieldType::Sint32 => "TYPE_SINT32"@,
            FieldType::Sint64 => "TYPE_SINT64"@,
        }
    }
}

/// One field of a message.
#[derive(Clone, Debug, PartialEq, Eq)]
pub struct FieldDescriptor {
    pub name: String,
    pub label: Label,
    pub field_type: FieldType,
    /// For a message or enum field, the fully qualified name of its type.
    pub type_ref: Option<String>,
    /// For a member of a oneof, the position of the oneof in the message.
    pub oneof_index: Option<usize>,
}

/// One value of an enum.
#[derive(Clone, Debug, PartialEq, Eq)]
pub struct EnumValueDescriptor {
    pub name: String,
}

/// An enum.
#[derive(Clone, Debug, PartialEq, Eq)]
pub struct EnumDescriptor {
    pub name: String,
    pub value: Vec<EnumValueDescriptor>,
}

/// A message, with the messages and enums declared inside it.
#[derive(Debug, PartialEq, Eq)]
pub struct MessageDescriptor {
    pub name: String,
    pub field: Vec<FieldDescriptor>,
    pub nested_type: Vec<MessageDescriptor>,
    pub enum_type: Vec<EnumDescriptor>,
    /// The number of oneofs that the message declares.
    pub oneof_count: usize,
    /// Whether the message was generated for the entries of a map field.
    pub map_entry: bool,
}

/// One method of a service.
#[derive(Clone, Debug, PartialEq, Eq)]
pub struct MethodDescriptor {
    pub name: String,
    pub input_type: String,
    pub output_type: String,
}

/// A service.
#[derive(Clone, Debug, PartialEq, Eq)]
pub struct ServiceDescriptor {
    pub name: String,
    pub method: Vec<MethodDescriptor>,
}

/// One `.proto` file.
#[derive(Debug, PartialEq, Eq)]
pub struct FileDescriptor {
    pub name: String,
    pub package: String,
    pub message_type: Vec<MessageDescriptor>,
    pub enum_type: Vec<EnumDescriptor>,
    pub service: Vec<ServiceDescriptor>,
}

/// A set of `.proto` files.
#[derive(Debug, Default, PartialEq, Eq)]
pub struct FileDescriptorSet {
    pub file: Vec<FileDescriptor>,
}

} // verus!
