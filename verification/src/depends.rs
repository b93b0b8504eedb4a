//! Which calls read the parent value. A call that does cannot be
//! fingerprinted, nor batched with the calls of its parent's siblings,
//! before the parent is resolved.

use vstd::prelude::*;

use crate::ir::IO;
use crate::template::{
    DynamicValue, GraphqlRequestTemplate, GrpcRequestTemplate, HttpRequestTemplate, Mustache,
};

verus! {

/// Whether a dynamic value holds a template with a hole that reads from
/// the root `root` of the context.
pub open spec fn dynamic_references(value: &DynamicValue, root: Seq<char>) -> bool
    decreases value,
{
    match value {
        DynamicValue::Value(_) => false,
        DynamicValue::Mustache(m) => m.spec_references(root),
        DynamicValue::Object(entries) => exists|i: int|
            0 <= i < entries.len() && dynamic_references(&(#[trigger] entries[i]).1, root),
        DynamicValue::Array(items) => exists|i: int|
            0 <= i < items.len() && dynamic_references(&(#[trigger] items[i]), root),
    }
}

/// Whether one of the templates has a hole that reads from `root`.
pub open spec fn pairs_reference(pairs: Seq<(String, Mustache)>, root: Seq<char>) -> bool {
    exists|i: int| 0 <= i < pairs.len() && (#[trigger] pairs[i]).1.spec_references(root)
}

/// Whether an optional dynamic value reads from `root`.
pub open spec fn body_references(body: Option<DynamicValue>, root: Seq<char>) -> bool {
    match body {
        Some(value) => dynamic_references(&value, root),
        None => false,
    }
}

/// Whether a dynamic value holds a template with a hole that reads from
/// the root `root` of the context.
pub fn references(value: &DynamicValue, root: &str) -> (r: bool)
    ensures
        r == dynamic_references(value, root@),
    decreases value,
{
    match value {
        DynamicValue::Value(_) => false,
        DynamicValue::Mustache(m) => m.references(root),
        DynamicValue::Object(entries) => {
            let mut i: usize = 0;
            while i < entries.len()
                invariant
                    i <= entries.len(),
                    *value == DynamicValue::Object(*entries),
                    forall|j: int|
                        0 <= j < i ==> !dynamic_references(&(#[trigger] entries[j]).1, root@),
                decreases entries.len() - i,
            {
                proof {
                    assert(value->Object_0 == *entries);
                    assert(decreases_to!(*value => value->Object_0));
                    assert(decreases_to!(*entries => entries[i as int]));
                    assert(decreases_to!(entries[i as int] => entries[i as int].1));
                }
                if references(&entries[i].1, root) {
                    assert(dynamic_references(&entries[i as int].1, root@));
                    return true;
                }
                i += 1;
            }
            false
        },
        DynamicValue::Array(items) => {
            let mut i: usize = 0;
            while i < items.len()
                invariant
                    i <= items.len(),
                    *value == DynamicValue::Array(*items),
                    forall|j: int|
                        0 <= j < i ==> !dynamic_references(&(#[trigger] items[j]), root@),
                decreases items.len() - i,
            {
                proof {
                    assert(value->Array_0 == *items);
                    assert(decreases_to!(*value => value->Array_0));
                    assert(decreases_to!(*items => items[i as int]));
                }
                if references(&items[i], root) {
                    assert(dynamic_references(&items[i as int], root@));
                    return true;
                }
                i += 1;
            }
            false
        },
    }
}

/// Whether one of the templates has a hole that reads from `root`.
pub fn any_references(pairs: &Vec<(String, Mustache)>, root: &str) -> (r: bool)
    ensures
        r == pairs_reference(pairs@, root@),
{
    let mut i: usize = 0;
    while i < pairs.len()
        invariant
            i <= pairs.len(),
            forall|j: int| 0 <= j < i ==> !(#[trigger] pairs[j]).1.spec_references(root@),
        decreases pairs.len() - i,
    {
        if pairs[i].1.references(root) {
            return true;
        }
        i += 1;
    }
    false
}

fn body_reads(body: &Option<DynamicValue>, root: &str) -> (r: bool)
    ensures
        r == body_references(*body, root@),
{
    match body {
        Some(value) => references(value, root),
        None => false,
    }
}

impl HttpRequestTemplate {
    /// Whether the URL, a query parameter, a header or the body reads from
    /// `root`.
    pub open spec fn spec_reads(&self, root: Seq<char>) -> bool {
        self.root_url.spec_references(root) || pairs_reference(self.query@, root)
            || pairs_reference(self.headers@, root) || body_references(self.body, root)
    }

    /// Whether the URL, a query parameter, a header or the body reads from
    /// `root`.
    pub fn reads(&self, root: &str) -> (r: bool)
        ensures
            r == self.spec_reads(root@),
    {
        self.root_url.references(root) || any_references(&self.query, root) || any_references(
            &self.headers,
            root,
        ) || body_reads(&self.body, root)
    }
}

impl GraphqlRequestTemplate {
    /// Whether an argument, a header or the selection reads from `root`.
    pub open spec fn spec_reads(&self, root: Seq<char>) -> bool {
        pairs_reference(self.operation_arguments@, root) || pairs_reference(self.headers@, root)
            || match self.selection {
            Some(selection) => selection.spec_references(root),
            None => false,
        }
    }

    /// Whether an argument, a header or the selection reads from `root`.
    pub fn reads(&self, root: &str) -> (r: bool)
        ensures
            r == self.spec_reads(root@),
    {
        any_references(&self.operation_arguments, root) || any_references(&self.headers, root)
            || match &self.selection {
            Some(selection) => selection.references(root),
            None => false,
        }
    }
}

impl GrpcRequestTemplate {
    /// Whether the URL, a header or the message reads from `root`.
    pub open spec fn spec_reads(&self, root: Seq<char>) -> bool {
        self.url.spec_references(root) || pairs_reference(self.headers@, root) || body_references(
            self.body,
            root,
        )
    }

    /// Whether the URL, a header or the message reads from `root`.
    pub fn reads(&self, root: &str) -> (r: bool)
        ensures
            r == self.spec_reads(root@),
    {
        self.url.references(root) || any_references(&self.headers, root) || body_reads(
            &self.body,
            root,
        )
    }
}

impl IO {
    /// The call with its mark set as its template shows: an HTTP or
    /// GraphQL call is dependent exactly if its template reads the parent
    /// value. A gRPC call and a script call carry no mark and stay as they
    /// are.
    pub open spec fn spec_marked(self) -> IO {
        match self {
            IO::Http { req_template, group_by, dl_id, http_filter, is_list, dedupe, is_dependent } => IO::Http {
                req_template,
                group_by,
                dl_id,
                http_filter,
                is_list,
                dedupe,
                is_dependent: req_template.spec_reads("value"@),
            },
            IO::GraphQL { req_template, field_name, batch, dl_id, dedupe, is_dependent } => IO::GraphQL {
                req_template,
                field_name,
                batch,
                dl_id,
                dedupe,
                is_dependent: req_template.spec_reads("value"@),
            },
            other => other,
        }
    }

    /// Marks the call as dependent, or not, as its template shows.
    pub fn mark_dependent(self) -> (r: IO)
        ensures
            r == self.spec_marked(),
    {
        match self {
            IO::Http { req_template, group_by, dl_id, http_filter, is_list, dedupe, is_dependent: _ } => {
                let reads = req_template.reads("value");
                IO::Http {
                    req_template,
                    group_by,
                    dl_id,
                    http_filter,
                    is_list,
                    dedupe,
                    is_dependent: reads,
                }
            },
            IO::GraphQL { req_template, field_name, batch, dl_id, dedupe, is_dependent: _ } => {
                let reads = req_template.reads("value");
                IO::GraphQL { req_template, field_name, batch, dl_id, dedupe, is_dependent: reads }
            },
            other => other,
        }
    }
}

} // verus!
