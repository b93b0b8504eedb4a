//! Names of generated GraphQL items.

use vstd::prelude::*;

use crate::casing::{Case, cased, to_case};
use crate::config::chars_list;
use crate::text::{append_chars, chars_of, string_of};

verus! {

/// What kind of item a name is for.
#[derive(Clone, Copy, Debug, PartialEq, Eq, Structural)]
pub enum Entity {
    Enum,
    EnumVariant,
    ObjectType,
    Method,
    Field,
}

/// The name of an item together with the packages it lies in, outermost
/// first.
#[derive(Clone, Debug, PartialEq, Eq)]
pub struct GraphQLType {
    pub package: Vec<String>,
    pub name: String,
}

/// The name of an item of a given kind.
#[derive(Clone, Debug, PartialEq, Eq)]
pub struct GraphQLName {
    pub source: GraphQLType,
    pub entity: Entity,
}

/// The non-empty texts among `parts`, each followed by `sep`.
pub open spec fn prefixed(parts: Seq<Seq<char>>, sep: Seq<char>) -> Seq<char>
    decreases parts.len(),
{
    if parts.len() == 0 {
        Seq::empty()
    } else if parts.last().len() == 0 {
        prefixed(parts.drop_last(), sep)
    } else {
        prefixed(parts.drop_last(), sep) + parts.last() + sep
    }
}

/// The identifier of an item in its source: its packages and its name,
/// with `.` between them; empty packages are left out.
pub open spec fn item_id(packages: Seq<Seq<char>>, name: Seq<char>) -> Seq<char> {
    prefixed(packages, "."@) + name
}

/// The name of a type, enum or method in the generated schema: its
/// packages and its name with `__` between them, every `.` in a package
/// written as `_`.
pub open spec fn object_name(packages: Seq<Seq<char>>, name: Seq<char>) -> Seq<char> {
    undotted(prefixed(packages, "__"@)) + name
}

/// `text` with every `.` turned into `_`.
pub open spec fn undotted(text: Seq<char>) -> Seq<char> {
    Seq::new(
        text.len(),
        |i: int|
            if text[i] == '.' {
                '_'
            } else {
                text[i]
            },
    )
}

impl GraphQLType {
    pub fn new(name: &str) -> (r: Self)
        ensures
            r.name@ == name@,
            r.package@.len() == 0,
    {
        GraphQLType { package: Vec::new(), name: String::from_str(name) }
    }

    /// Puts the item into one more package, inside those it is in.
    pub fn push(self, package: &str) -> (r: Self)
        ensures
            r.name == self.name,
            r.package@.len() == self.package@.len() + 1,
            r.package@.last()@ == package@,
            r.package@.drop_last() == self.package@,
    {
        let GraphQLType { package: mut parts, name } = self;
        parts.push(String::from_str(package));
        assert(parts@.drop_last() =~= self.package@);
        GraphQLType { package: parts, name }
    }

    /// Puts the item into the packages `namespace`, inside those it is in.
    pub fn extend(self, namespace: &Vec<String>) -> (r: Self)
        ensures
            r.name == self.name,
            r.package@ == self.package@ + namespace@,
    {
        let GraphQLType { package: mut parts, name } = self;
        let mut i: usize = 0;
        while i < namespace.len()
            invariant
                i <= namespace.len(),
                parts@ == self.package@ + namespace@.take(i as int),
            decreases namespace.len() - i,
        {
            parts.push(namespace[i].clone());
            assert(self.package@ + namespace@.take(i + 1) =~= (self.package@ + namespace@.take(
                i as int,
            )).push(namespace@[i as int]));
            i += 1;
        }
        assert(namespace@.take(namespace.len() as int) =~= namespace@);
        GraphQLType { package: parts, name }
    }

    pub fn into_enum(self) -> (r: GraphQLName)
        ensures
            r == (GraphQLName { source: self, entity: Entity::Enum }),
    {
        GraphQLName { source: self, entity: Entity::Enum }
    }

    pub fn into_enum_variant(self) -> (r: GraphQLName)
        ensures
            r == (GraphQLName { source: self, entity: Entity::EnumVariant }),
    {
        GraphQLName { source: self, entity: Entity::EnumVariant }
    }

    pub fn into_object_type(self) -> (r: GraphQLName)
        ensures
            r == (GraphQLName { source: self, entity: Entity::ObjectType }),
    {
        GraphQLName { source: self, entity: Entity::ObjectType }
    }

    pub fn into_method(self) -> (r: GraphQLName)
        ensures
            r == (GraphQLName { source: self, entity: Entity::Method }),
    {
        GraphQLName { source: self, entity: Entity::Method }
    }

    pub fn into_field(self) -> (r: GraphQLName)
        ensures
            r == (GraphQLName { source: self, entity: Entity::Field }),
    {
        GraphQLName { source: self, entity: Entity::Field }
    }
}

impl GraphQLName {
    /// The identifier of the item in its source: its packages and its name,
    /// with `.` between them; empty packages are left out.
    pub open spec fn spec_id(&self) -> Seq<char> {
        item_id(chars_list(self.source.package@), self.source.name@)
    }

    /// The name of the item in the generated schema. A field is named in
    /// camel case and a variant by its own name; any other item by its
    /// packages and its name with `__` between them, every `.` in a package
    /// written as `_`.
    pub open spec fn text(&self) -> Seq<char> {
        match self.entity {
            Entity::Field => cased(self.source.name@, Case::Camel),
            Entity::EnumVariant => self.source.name@,
            _ => object_name(chars_list(self.source.package@), self.source.name@),
        }
    }

    fn prefix(&self, sep: &str) -> (r: Vec<char>)
        ensures
            r@ == prefixed(chars_list(self.source.package@), sep@),
    {
        let sep_chars = chars_of(sep);
        let parts = &self.source.package;
        let mut out: Vec<char> = Vec::new();
        let mut i: usize = 0;
        while i < parts.len()
            invariant
                i <= parts.len(),
                sep_chars@ == sep@,
                out@ == prefixed(chars_list(parts@).take(i as int), sep@),
            decreases parts.len() - i,
        {
            let part = chars_of(parts[i].as_str());
            proof {
                let next = chars_list(parts@).take(i + 1);
                assert(next.drop_last() =~= chars_list(parts@).take(i as int));
                assert(next.last() == parts@[i as int]@);
            }
            if part.len() > 0 {
                append_chars(&mut out, &part);
                append_chars(&mut out, &sep_chars);
            }
            i += 1;
        }
        assert(chars_list(parts@).take(parts.len() as int) =~= chars_list(parts@));
        out
    }

    pub fn id(&self) -> (r: String)
        ensures
            r@ == self.spec_id(),
    {
        let mut out = self.prefix(".");
        let name = chars_of(self.source.name.as_str());
        append_chars(&mut out, &name);
        string_of(&out)
    }

    pub fn to_string(&self) -> (r: String)
        ensures
            r@ == self.text(),
    {
        match self.entity {
            Entity::Field => to_case(self.source.name.as_str(), Case::Camel),
            Entity::EnumVariant => self.source.name.clone(),
            _ => {
                let prefix = self.prefix("__");
                let mut out: Vec<char> = Vec::new();
                let mut i: usize = 0;
                while i < prefix.len()
                    invariant
                        i <= prefix.len(),
                        out@ == undotted(prefix@).take(i as int),
                    decreases prefix.len() - i,
                {
                    let c = prefix[i];
                    out.push(
                        if c == '.' {
                            '_'
                        } else {
                            c
                        },
                    );
                    assert(undotted(prefix@).take(i + 1) =~= undotted(prefix@).take(
                        i as int,
                    ).push(undotted(prefix@)[i as int]));
                    i += 1;
                }
                assert(undotted(prefix@).take(prefix.len() as int) =~= undotted(prefix@));
                let name = chars_of(self.source.name.as_str());
                append_chars(&mut out, &name);
                string_of(&out)
            },
        }
    }
}

} // verus!
