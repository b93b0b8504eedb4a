//! The types of a configuration that nothing refers to.

use vstd::prelude::*;

use crate::config::{
    all_values, arg_types, chars_list, Config, Field, is_walk_by, lemma_members_distinct,
    lemma_types_distinct, no_member_twice, reaches_by, Type, type_distinct, type_uses, Union,
};
use crate::config_module::{
    add_input_type, is_walk, lemma_closed_holds_reached, reaches, reaches_avoiding,
};
use crate::entries::{distinct_keys, lemma_position, position};
use crate::names::NameSet;

verus! {

/// A field that refers to `name` and says nothing else.
fn edge(name: &String) -> (r: (String, Field))
    ensures
        r.1.type_of == *name,
{
    (
        String::new(),
        Field {
            type_of: name.clone(),
            list: false,
            required: false,
            args: Vec::new(),
            doc: None,
            resolver: None,
        },
    )
}

/// The types of the fields of a type.
pub open spec fn targets(ty: Type) -> Seq<Seq<char>> {
    ty.fields@.map_values(|f: (String, Field)| f.1.type_of@)
}

fn union_node(u: &Union) -> (r: Type)
    ensures
        targets(r) == chars_list(u.types@),
{
    let mut fields: Vec<(String, Field)> = Vec::new();
    let mut i: usize = 0;
    while i < u.types.len()
        invariant
            i <= u.types.len(),
            fields.len() == i,
            forall|j: int| 0 <= j < i ==> (#[trigger] fields@[j]).1.type_of == u.types@[j],
        decreases u.types.len() - i,
    {
        fields.push(edge(&u.types[i]));
        i += 1;
    }
    let r = Type { fields, doc: None, interface: false, tag: None };
    assert(targets(r) =~= chars_list(u.types@));
    r
}

fn type_node(t: &Type) -> (r: Type)
    ensures
        targets(r) == type_uses(*t, t.fields@.len() as int),
{
    let mut fields: Vec<(String, Field)> = Vec::new();
    let mut i: usize = 0;
    let ghost mut done: Seq<Seq<char>> = Seq::empty();
    assert(fields@.map_values(|f: (String, Field)| f.1.type_of@) =~= type_uses(*t, 0));
    while i < t.fields.len()
        invariant
            i <= t.fields.len(),
            fields@.map_values(|f: (String, Field)| f.1.type_of@) == type_uses(*t, i as int),
        decreases t.fields.len() - i,
    {
        let field = &t.fields[i].1;
        let ghost before = fields@.map_values(|f: (String, Field)| f.1.type_of@);
        fields.push(edge(&field.type_of));
        assert(fields@.map_values(|f: (String, Field)| f.1.type_of@) =~= before.push(
            field.type_of@,
        ) + arg_types(*field, 0));
        let mut k: usize = 0;
        while k < field.args.len()
            invariant
                k <= field.args.len(),
                fields@.map_values(|f: (String, Field)| f.1.type_of@) == before.push(
                    field.type_of@,
                ) + arg_types(*field, k as int),
            decreases field.args.len() - k,
        {
            let ghost so_far = fields@.map_values(|f: (String, Field)| f.1.type_of@);
            fields.push(edge(&field.args[k].1.type_of));
            assert(fields@.map_values(|f: (String, Field)| f.1.type_of@) =~= so_far.push(
                field.args@[k as int].1.type_of@,
            ));
            assert(so_far.push(field.args@[k as int].1.type_of@) =~= before.push(field.type_of@)
                + arg_types(*field, k + 1));
            k += 1;
        }
        i += 1;
    }
    Type { fields, doc: None, interface: false, tag: None }
}

/// A configuration whose types stand for the items of `config`, each with
/// one field for every name that the item refers to.
fn usage_graph(config: &Config) -> (g: Config)
    ensures
        forall|n: Seq<char>| #[trigger] g.field_types(n) == config.uses(n),
{
    let mut nodes: Vec<(String, Type)> = Vec::new();
    let mut i: usize = 0;
    while i < config.unions.len()
        invariant
            i <= config.unions.len(),
            nodes.len() == i,
            forall|j: int|
                0 <= j < i ==> (#[trigger] nodes@[j]).0 == config.unions@[j].0 && targets(
                    nodes@[j].1,
                ) == chars_list(config.unions@[j].1.types@),
        decreases config.unions.len() - i,
    {
        nodes.push((config.unions[i].0.clone(), union_node(&config.unions[i].1)));
        i += 1;
    }
    let count = config.unions.len();
    let mut k: usize = 0;
    while k < config.types.len()
        invariant
            k <= config.types.len(),
            count == config.unions.len(),
            nodes.len() == count + k,
            forall|j: int|
                0 <= j < count ==> (#[trigger] nodes@[j]).0 == config.unions@[j].0 && targets(
                    nodes@[j].1,
                ) == chars_list(config.unions@[j].1.types@),
            forall|j: int|
                0 <= j < k ==> (#[trigger] nodes@[count + j]).0 == config.types@[j].0 && targets(
                    nodes@[count + j].1,
                ) == type_uses(config.types@[j].1, config.types@[j].1.fields@.len() as int),
        decreases config.types.len() - k,
    {
        nodes.push((config.types[k].0.clone(), type_node(&config.types[k].1)));
        k += 1;
    }
    let g = Config {
        server: crate::config::Server::unset(),
        upstream: crate::config::Upstream { base_url: None },
        schema: crate::config::RootSchema { query: None, mutation: None, subscription: None },
        types: nodes,
        unions: Vec::new(),
        enums: Vec::new(),
    };
    proof {
        assert forall|n: Seq<char>| #[trigger] g.field_types(n) == config.uses(n) by {
            lemma_position(g.types@, n);
            lemma_position(config.unions@, n);
            lemma_position(config.types@, n);
            match position(config.unions@, n) {
                Some(u) => {
                    assert(g.types@[u].0@ == n);
                    assert(position(g.types@, n) == Some(u)) by {
                        assert forall|j: int| 0 <= j < u implies g.types@[j].0@ != n by {
                            assert(g.types@[j].0 == config.unions@[j].0);
                        }
                    }
                },
                None => {
                    assert forall|j: int| 0 <= j < count implies g.types@[j].0@ != n by {
                        assert(g.types@[j].0 == config.unions@[j].0);
                    }
                    match position(config.types@, n) {
                        Some(t) => {
                            assert(g.types@[count + t].0@ == n);
                            assert(position(g.types@, n) == Some(count + t)) by {
                                assert forall|j: int| 0 <= j < count + t implies g.types@[j].0@
                                    != n by {
                                    if j >= count {
                                        assert(g.types@[count + (j - count)].0
                                            == config.types@[j - count].0);
                                    }
                                }
                            }
                        },
                        None => {
                            assert forall|j: int| 0 <= j < g.types@.len() implies g.types@[j].0@
                                != n by {
                                if j >= count {
                                    assert(g.types@[count + (j - count)].0
                                        == config.types@[j - count].0);
                                }
                            }
                        },
                    }
                },
            }
        }
    }
    g
}

/// A name is a root where it is the query type or the mutation type.
pub open spec fn is_root(config: &Config, name: Seq<char>) -> bool {
    (config.schema.query matches Some(q) && q@ == name) || (config.schema.mutation matches Some(m)
        && m@ == name)
}

/// `to` is reached from `from` along what items refer to.
pub open spec fn refers_to(config: &Config, from: Seq<char>, to: Seq<char>) -> bool {
    reaches_by(|x: Seq<char>| config.uses(x), from, to)
}

/// The names that are in use: the roots, and every name that a root
/// reaches along what items refer to.
pub open spec fn used_names(config: &Config) -> Set<Seq<char>> {
    Set::new(
        |n: Seq<char>|
            is_root(config, n) || exists|r: Seq<char>|
                is_root(config, r) && #[trigger] refers_to(config, r, n),
    )
}

proof fn lemma_same_walks(g: &Config, config: &Config, from: Seq<char>, to: Seq<char>)
    requires
        forall|n: Seq<char>| #[trigger] g.field_types(n) == config.uses(n),
    ensures
        reaches(g, from, to) == reaches_by(|x: Seq<char>| config.uses(x), from, to),
{
    let next = |x: Seq<char>| config.uses(x);
    if reaches(g, from, to) {
        let path = choose|path: Seq<Seq<char>>|
            #![auto]
            is_walk(g, path) && path[0] == from && path.last() == to && forall|i: int|
                1 <= i < path.len() ==> !Set::<Seq<char>>::empty().contains(#[trigger] path[i]);
        assert forall|i: int| 1 <= i < path.len() implies next(path[i - 1]).contains(
            #[trigger] path[i],
        ) by {
            assert(g.field_types(path[i - 1]).contains(path[i]));
        }
        assert(is_walk_by(next, path));
    }
    if reaches_by(next, from, to) {
        let path = choose|path: Seq<Seq<char>>|
            #![auto]
            is_walk_by(next, path) && path[0] == from && path.last() == to;
        assert forall|i: int| 1 <= i < path.len() implies g.field_types(path[i - 1]).contains(
            #[trigger] path[i],
        ) by {
            assert(next(path[i - 1]).contains(path[i]));
        }
        assert(is_walk(g, path));
        assert(reaches_avoiding(g, from, Set::empty(), to));
    }
}

/// The names that are in use.
pub fn used_types(config: &Config) -> (r: NameSet)
    ensures
        r@ == used_names(config),
{
    let g = usage_graph(config);
    let mut seen = NameSet::new();
    if let Some(query) = &config.schema.query {
        add_input_type(&g, query.as_str(), &mut seen);
    }
    let ghost first = seen@;
    if let Some(mutation) = &config.schema.mutation {
        add_input_type(&g, mutation.as_str(), &mut seen);
    }
    proof {
        let next = |x: Seq<char>| config.uses(x);
        assert forall|n: Seq<char>| seen@.contains(n) implies used_names(config).contains(n) by {
            if !is_root(config, n) {
                if first.contains(n) {
                    let q = config.schema.query->0@;
                    lemma_same_walks(&g, config, q, n);
                    assert(refers_to(config, q, n));
                } else {
                    let m = config.schema.mutation->0@;
                    lemma_same_walks(&g, config, m, n);
                    assert(refers_to(config, m, n));
                }
            }
        }
        assert forall|n: Seq<char>| used_names(config).contains(n) implies seen@.contains(n) by {
            if !is_root(config, n) {
                let r = choose|r: Seq<char>|
                    is_root(config, r) && #[trigger] refers_to(config, r, n);
                lemma_same_walks(&g, config, r, n);
                let path = choose|path: Seq<Seq<char>>|
                    #![auto]
                    is_walk(&g, path) && path[0] == r && path.last() == n && forall|i: int|
                        1 <= i < path.len() ==> !Set::<Seq<char>>::empty().contains(
                            #[trigger] path[i],
                        );
                lemma_closed_holds_reached(&g, r, Set::empty(), seen@, path, path.len() - 1);
            }
        }
        assert(seen@ =~= used_names(config));
    }
    seen
}

/// The first `upto` entries of a table without those whose name is in
/// `away`.
pub open spec fn kept<T>(entries: Seq<(String, T)>, away: Set<Seq<char>>, upto: int) -> Seq<
    (String, T),
>
    decreases upto,
{
    if upto <= 0 {
        Seq::empty()
    } else if away.contains(entries[upto - 1].0@) {
        kept(entries, away, upto - 1)
    } else {
        kept(entries, away, upto - 1).push(entries[upto - 1])
    }
}

/// What is kept of a table in which no name occurs twice is such a table,
/// and each of its entries is one of the first `upto` of the table.
pub proof fn lemma_kept_distinct<T>(entries: Seq<(String, T)>, away: Set<Seq<char>>, upto: int)
    requires
        distinct_keys(entries),
        0 <= upto <= entries.len(),
    ensures
        distinct_keys(kept(entries, away, upto)),
        forall|i: int|
            0 <= i < kept(entries, away, upto).len() ==> exists|k: int|
                0 <= k < upto && entries[k] == #[trigger] kept(entries, away, upto)[i],
    decreases upto,
{
    if upto > 0 {
        lemma_kept_distinct(entries, away, upto - 1);
        let before = kept(entries, away, upto - 1);
        let after = kept(entries, away, upto);
        if !away.contains(entries[upto - 1].0@) {
            assert forall|i: int| 0 <= i < after.len() implies exists|k: int|
                0 <= k < upto && entries[k] == #[trigger] after[i] by {
                if i < before.len() {
                    let k = choose|k: int| 0 <= k < upto - 1 && entries[k] == before[i];
                    assert(entries[k] == after[i]);
                } else {
                    assert(entries[upto - 1] == after[i]);
                }
            }
            assert forall|i: int, j: int| 0 <= i < j < after.len() implies (#[trigger] after[i]).0@
                != (#[trigger] after[j]).0@ by {
                if j == before.len() {
                    let k = choose|k: int| 0 <= k < upto - 1 && entries[k] == before[i];
                    assert(entries[k].0@ != entries[upto - 1].0@);
                } else {
                    assert(before[i].0@ != before[j].0@);
                }
            }
        } else {
            assert forall|i: int| 0 <= i < after.len() implies exists|k: int|
                0 <= k < upto && entries[k] == #[trigger] after[i] by {
                let k = choose|k: int| 0 <= k < upto - 1 && entries[k] == before[i];
                assert(entries[k] == after[i]);
            }
        }
    }
}

/// What holds of every value of a table holds of every value that is
/// kept.
pub proof fn lemma_kept_all<T: View>(
    entries: Seq<(String, T)>,
    away: Set<Seq<char>>,
    upto: int,
    p: spec_fn(T::V) -> bool,
)
    requires
        all_values(entries, p),
        0 <= upto <= entries.len(),
    ensures
        all_values(kept(entries, away, upto), p),
    decreases upto,
{
    if upto > 0 {
        lemma_kept_all(entries, away, upto - 1, p);
        let before = kept(entries, away, upto - 1);
        let after = kept(entries, away, upto);
        assert(p(entries[upto - 1].1@));
        assert forall|i: int| 0 <= i < after.len() implies p((#[trigger] after[i]).1@) by {
            if i < before.len() {
                assert(after[i] == before[i]);
            }
        }
    }
}

/// Takes the entries whose name is in `away` out of a table.
pub fn without_names<T>(entries: Vec<(String, T)>, away: &NameSet) -> (r: Vec<(String, T)>)
    ensures
        r@ == kept(entries@, away@, entries@.len() as int),
        distinct_keys(entries@) ==> distinct_keys(r@),
{
    proof {
        if distinct_keys(entries@) {
            lemma_kept_distinct(entries@, away@, entries@.len() as int);
        }
    }
    let mut out: Vec<(String, T)> = Vec::new();
    let ghost all = entries@;
    for entry in it: entries
        invariant
            it.seq() == all,
            out@ == kept(all, away@, it.index() as int),
    {
        if !away.contains(entry.0.as_str()) {
            out.push(entry);
        }
    }
    out
}

/// A name is defined where a type or a union has it.
pub open spec fn is_defined(config: &Config, name: Seq<char>) -> bool {
    position(config.types@, name) is Some || position(config.unions@, name) is Some
}

/// The names that are not in use: those of the types and unions that are
/// defined and that no root reaches.
pub open spec fn unused_names(config: &Config) -> Set<Seq<char>> {
    Set::new(|n: Seq<char>| is_defined(config, n) && !used_names(config).contains(n))
}

impl Config {
    /// The names of the types and unions that are not in use.
    pub fn unused_types(&self) -> (r: NameSet)
        ensures
            r@ == unused_names(self),
    {
        let used = used_types(self);
        let mut unused = NameSet::new();
        let mut i: usize = 0;
        while i < self.types.len()
            invariant
                i <= self.types.len(),
                used@ == used_names(self),
                forall|n: Seq<char>| #[trigger]
                    unused@.contains(n) <==> (!used@.contains(n) && exists|j: int|
                        0 <= j < i && #[trigger] self.types@[j].0@ == n),
            decreases self.types.len() - i,
        {
            if !used.contains(self.types[i].0.as_str()) {
                unused.insert(self.types[i].0.clone());
            }
            i += 1;
        }
        let ghost from_types = unused@;
        let mut k: usize = 0;
        while k < self.unions.len()
            invariant
                k <= self.unions.len(),
                used@ == used_names(self),
                forall|n: Seq<char>| #[trigger]
                    from_types.contains(n) <==> (!used@.contains(n) && exists|j: int|
                        0 <= j < self.types@.len() && #[trigger] self.types@[j].0@ == n),
                forall|n: Seq<char>| #[trigger]
                    unused@.contains(n) <==> (from_types.contains(n) || (!used@.contains(n)
                        && exists|j: int| 0 <= j < k && #[trigger] self.unions@[j].0@ == n)),
            decreases self.unions.len() - k,
        {
            if !used.contains(self.unions[k].0.as_str()) {
                unused.insert(self.unions[k].0.clone());
            }
            k += 1;
        }
        proof {
            assert forall|n: Seq<char>| unused@.contains(n) == unused_names(self).contains(n) by {
                lemma_position(self.types@, n);
                lemma_position(self.unions@, n);
                if position(self.types@, n) is Some {
                    let j = position(self.types@, n)->0;
                    assert(self.types@[j].0@ == n);
                }
                if position(self.unions@, n) is Some {
                    let j = position(self.unions@, n)->0;
                    assert(self.unions@[j].0@ == n);
                }
            }
            assert(unused@ =~= unused_names(self));
        }
        unused
    }

    /// The configuration without the types and unions named in `names`.
    pub fn remove_types(self, names: &NameSet) -> (r: Config)
        ensures
            r.types@ == kept(self.types@, names@, self.types@.len() as int),
            r.unions@ == kept(self.unions@, names@, self.unions@.len() as int),
            r.enums == self.enums,
            r.schema == self.schema,
            r.upstream == self.upstream,
            r.server == self.server,
            self.distinct_names() ==> r.distinct_names(),
    {
        let Config { server, upstream, schema, types, unions, enums } = self;
        proof {
            if self.distinct_names() {
                let n = types@.len() as int;
                lemma_types_distinct(types@);
                lemma_kept_all(types@, names@, n, type_distinct());
                lemma_kept_distinct(types@, names@, n);
                lemma_types_distinct(kept(types@, names@, n));
                let m = unions@.len() as int;
                lemma_members_distinct(unions@);
                lemma_kept_all(unions@, names@, m, no_member_twice());
                lemma_kept_distinct(unions@, names@, m);
                lemma_members_distinct(kept(unions@, names@, m));
            }
        }
        Config {
            server,
            upstream,
            schema,
            types: without_names(types, names),
            unions: without_names(unions, names),
            enums,
        }
    }
}

} // verus!
