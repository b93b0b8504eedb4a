//! The resolver algebra: one tree of resolver primitives per field, and the
//! structural rewrites applied to it when a blueprint is compiled.

use vstd::prelude::*;

use crate::auth::Auth;
use crate::discriminator::Discriminator;
use crate::template::{
    DynamicValue, GraphqlRequestTemplate, GroupBy, GrpcRequestTemplate, HttpFilter,
    HttpRequestTemplate,
};
use crate::text::{clone_names, decimal, decimal_digits, string_of};

verus! {

/// Identifier of a deferred node.
#[derive(Clone, Debug)]
pub struct IrId(usize);

impl IrId {
    /// The number that identifies the node.
    pub closed spec fn index(&self) -> usize {
        self.0
    }

    pub fn new(id: usize) -> (r: Self)
        ensures
            r.index() == id,
    {
        Self(id)
    }

    pub fn as_u64(&self) -> (r: u64)
        ensures
            r == self.index(),
    {
        self.0 as u64
    }

    /// The identifier in decimal.
    pub fn to_string(&self) -> (r: String)
        ensures
            r@ == decimal(self.index() as nat),
    {
        string_of(&decimal_digits(self.0))
    }
}

/// Identifier of a data loader in the loader registry.
#[derive(Clone, Copy, Debug)]
pub struct DataLoaderId(usize);

impl DataLoaderId {
    /// Position of the loader in the registry.
    pub closed spec fn index(&self) -> usize {
        self.0
    }

    pub fn new(id: usize) -> (r: Self)
        ensures
            r.index() == id,
    {
        Self(id)
    }

    pub fn as_usize(&self) -> (r: usize)
        ensures
            r == self.index(),
    {
        self.0
    }
}

/// Fingerprint of a fully rendered upstream request.
#[derive(Clone, Debug, PartialEq, Eq, Hash)]
pub struct IoId(u64);

impl IoId {
    /// The 64-bit fingerprint.
    pub closed spec fn value(&self) -> u64 {
        self.0
    }

    pub fn new(id: u64) -> (r: Self)
        ensures
            r.value() == id,
    {
        Self(id)
    }

    pub fn as_u64(&self) -> (r: u64)
        ensures
            r == self.value(),
    {
        self.0
    }
}

/// Something that can be fingerprinted in a context of type `Ctx`.
pub trait CacheKey<Ctx> {
    fn cache_key(&self, ctx: &Ctx) -> Option<IoId>;
}

/// An upstream or script call.
#[derive(Clone, Debug)]
#[allow(inconsistent_fields)]
pub enum IO {
    Http {
        req_template: HttpRequestTemplate,
        group_by: Option<GroupBy>,
        dl_id: Option<DataLoaderId>,
        http_filter: Option<HttpFilter>,
        is_list: bool,
        dedupe: bool,
        is_dependent: bool,
    },
    GraphQL {
        req_template: GraphqlRequestTemplate,
        field_name: String,
        batch: bool,
        dl_id: Option<DataLoaderId>,
        dedupe: bool,
        is_dependent: bool,
    },
    Grpc {
        req_template: GrpcRequestTemplate,
        group_by: Option<GroupBy>,
        dl_id: Option<DataLoaderId>,
        dedupe: bool,
    },
    Js { name: String },
}

impl IO {
    /// The name of the kind of call.
    pub open spec fn kind(&self) -> Seq<char> {
        match self {
            IO::Http { .. } => "Http"@,
            IO::GraphQL { .. } => "GraphQL"@,
            IO::Grpc { .. } => "Grpc"@,
            IO::Js { .. } => "Js"@,
        }
    }

    /// The name of the kind of call.
    pub fn to_string(&self) -> (r: String)
        ensures
            r@ == self.kind(),
    {
        String::from_str(
            match self {
                IO::Http { .. } => "Http",
                IO::GraphQL { .. } => "GraphQL",
                IO::Grpc { .. } => "Grpc",
                IO::Js { .. } => "Js",
            },
        )
    }

    /// Whether the call may read the parent value. A gRPC call is always
    /// taken to do so, a script call never.
    pub open spec fn spec_is_dependent(&self) -> bool {
        match self {
            IO::Http { is_dependent, .. } => *is_dependent,
            IO::GraphQL { is_dependent, .. } => *is_dependent,
            IO::Grpc { .. } => true,
            IO::Js { .. } => false,
        }
    }

    /// Whether concurrent identical calls are collapsed into one.
    pub open spec fn spec_dedupe(&self) -> bool {
        match self {
            IO::Http { dedupe, .. } => *dedupe,
            IO::GraphQL { dedupe, .. } => *dedupe,
            IO::Grpc { dedupe, .. } => *dedupe,
            IO::Js { .. } => false,
        }
    }

    pub fn is_dependent(&self) -> (r: bool)
        ensures
            r == self.spec_is_dependent(),
    {
        match self {
            IO::Http { is_dependent, .. } => *is_dependent,
            IO::GraphQL { is_dependent, .. } => *is_dependent,
            IO::Grpc { .. } => true,
            IO::Js { .. } => false,
        }
    }

    pub fn dedupe(&self) -> (r: bool)
        ensures
            r == self.spec_dedupe(),
    {
        match self {
            IO::Http { dedupe, .. } => *dedupe,
            IO::GraphQL { dedupe, .. } => *dedupe,
            IO::Grpc { dedupe, .. } => *dedupe,
            IO::Js { .. } => false,
        }
    }
}

/// One upstream call behind a result cache whose entries live `max_age`
/// milliseconds; with `max_age` 0 nothing is stored.
#[derive(Clone, Debug)]
pub struct Cache {
    pub max_age: u64,
    pub io: Box<IO>,
}

/// A lookup table applied to the string that `input` evaluates to.
#[derive(Debug)]
pub struct MapLookup {
    pub input: Box<IR>,
    pub map: Vec<(String, String)>,
}

/// A resolver: how the value of one field is obtained.
#[derive(Debug)]
pub enum IR {
    Dynamic(DynamicValue),
    IO(IO),
    Cache(Cache),
    Path(Box<IR>, Vec<String>),
    ContextPath(Vec<String>),
    Protect(Auth, Box<IR>),
    MapLookup(MapLookup),
    Pipe(Box<IR>, Box<IR>),
    Discriminate(Discriminator, Box<IR>),
    /// Federation `_entities`: one resolver per type name.
    Entity(Vec<(String, IR)>),
    /// Federation `_service`: the schema text.
    Service(String),
    Deferred { id: IrId, label: Option<String>, ir: Box<IR>, path: Vec<String> },
}

/// The shape of an [`IR`]: the same tree, with the entries of an `Entity`
/// node as a mathematical sequence.
pub ghost enum IrView {
    Dynamic(DynamicValue),
    IO(IO),
    Cache(Cache),
    Path(Box<IrView>, Vec<String>),
    ContextPath(Vec<String>),
    Protect(Auth, Box<IrView>),
    MapLookup { input: Box<IrView>, map: Vec<(String, String)> },
    Pipe(Box<IrView>, Box<IrView>),
    Discriminate(Discriminator, Box<IrView>),
    Entity(Seq<(String, IrView)>),
    Service(String),
    Deferred { id: IrId, label: Option<String>, ir: Box<IrView>, path: Vec<String> },
}

/// The shape of `ir`.
pub open spec fn ir_view(ir: &IR) -> IrView
    decreases ir,
{
    match ir {
        IR::Dynamic(v) => IrView::Dynamic(*v),
        IR::IO(io) => IrView::IO(*io),
        IR::Cache(c) => IrView::Cache(*c),
        IR::Path(e, path) => IrView::Path(Box::new(ir_view(e)), *path),
        IR::ContextPath(path) => IrView::ContextPath(*path),
        IR::Protect(auth, e) => IrView::Protect(*auth, Box::new(ir_view(e))),
        IR::MapLookup(m) => IrView::MapLookup { input: Box::new(ir_view(&m.input)), map: m.map },
        IR::Pipe(a, b) => IrView::Pipe(Box::new(ir_view(a)), Box::new(ir_view(b))),
        IR::Discriminate(d, e) => IrView::Discriminate(*d, Box::new(ir_view(e))),
        IR::Entity(entries) => IrView::Entity(
            Seq::new(
                entries.len() as nat,
                |i: int|
                    if 0 <= i < entries.len() {
                        (entries[i].0, ir_view(&entries[i].1))
                    } else {
                        (entries[i].0, IrView::Service(entries[i].0))
                    },
            ),
        ),
        IR::Service(sdl) => IrView::Service(*sdl),
        IR::Deferred { id, label, ir, path } => IrView::Deferred {
            id: *id,
            label: *label,
            ir: Box::new(ir_view(ir)),
            path: *path,
        },
    }
}

impl View for IR {
    type V = IrView;

    open spec fn view(&self) -> IrView {
        ir_view(self)
    }
}

/// What the modifier `f` makes of a node that is offered to it: its
/// substitute, or the node itself where it declines.
pub open spec fn offered<F: FnMut(&IR) -> Option<IR>>(f: &F, node: IR, out: IR) -> bool {
    ||| call_ensures(*f, (&node,), Some(out))
    ||| (call_ensures(*f, (&node,), None::<IR>) && out == node)
}

/// `out` is a possible result of rewriting `ir` with the modifier `f`, from
/// the leaves up: the children of the node are rewritten first, the node is
/// rebuilt over what they became, and the rebuilt node is offered to `f`,
/// whose substitute stands in its place. Every node is visited, children
/// before their parent. The child of a cached call is the call; it stays
/// cached if what it became is again a call, and else what it became takes
/// the place of the cache.
pub open spec fn rewrites<F: FnMut(&IR) -> Option<IR>>(f: &F, ir: IR, out: IR) -> bool
    decreases ir,
{
    exists|rebuilt: IR| #[trigger]
        offered(f, rebuilt, out) && match ir {
            IR::Dynamic(_) | IR::IO(_) | IR::ContextPath(_) | IR::Service(_) => rebuilt == ir,
            IR::Cache(c) => exists|x: IR| #[trigger]
                offered(f, IR::IO(*c.io), x) && rebuilt == match x {
                    IR::IO(io) => IR::Cache(Cache { max_age: c.max_age, io: Box::new(io) }),
                    other => other,
                },
            IR::Path(e, path) => rebuilt matches IR::Path(e2, path2) && path2 == path && rewrites(
                f,
                *e,
                *e2,
            ),
            IR::Protect(auth, e) => rebuilt matches IR::Protect(auth2, e2) && auth2 == auth
                && rewrites(f, *e, *e2),
            IR::MapLookup(m) => rebuilt matches IR::MapLookup(m2) && m2.map == m.map && rewrites(
                f,
                *m.input,
                *m2.input,
            ),
            IR::Pipe(a, b) => rebuilt matches IR::Pipe(a2, b2) && rewrites(f, *a, *a2) && rewrites(
                f,
                *b,
                *b2,
            ),
            IR::Discriminate(d, e) => rebuilt matches IR::Discriminate(d2, e2) && d2 == d
                && rewrites(f, *e, *e2),
            IR::Entity(entries) => rebuilt matches IR::Entity(entries2) && entries2.len()
                == entries.len() && forall|i: int|
                0 <= i < entries.len() ==> (#[trigger] entries2[i]).0 == entries[i].0 && rewrites(
                    f,
                    entries[i].1,
                    entries2[i].1,
                ),
            IR::Deferred { id, label, ir: e, path } => rebuilt matches IR::Deferred {
                id: id2,
                label: label2,
                ir: e2,
                path: path2,
            } && id2 == id && label2 == label && path2 == path && rewrites(f, *e, *e2),
        }
}

impl Clone for MapLookup {
    fn clone(&self) -> (r: Self)
        decreases self,
    {
        let mut map: Vec<(String, String)> = Vec::new();
        let mut i: usize = 0;
        while i < self.map.len()
            invariant
                i <= self.map.len(),
            decreases self.map.len() - i,
        {
            map.push((self.map[i].0.clone(), self.map[i].1.clone()));
            i += 1;
        }
        MapLookup { input: Box::new((*self.input).clone()), map }
    }
}

impl Clone for IR {
    fn clone(&self) -> (r: Self)
        decreases self,
    {
        match self {
            IR::Dynamic(v) => IR::Dynamic(v.clone()),
            IR::IO(io) => IR::IO(io.clone()),
            IR::Cache(c) => IR::Cache(c.clone()),
            IR::Path(e, path) => IR::Path(Box::new((**e).clone()), clone_names(path)),
            IR::ContextPath(path) => IR::ContextPath(clone_names(path)),
            IR::Protect(auth, e) => IR::Protect(auth.clone(), Box::new((**e).clone())),
            IR::MapLookup(m) => IR::MapLookup(m.clone()),
            IR::Pipe(a, b) => IR::Pipe(Box::new((**a).clone()), Box::new((**b).clone())),
            IR::Discriminate(d, e) => IR::Discriminate(d.clone(), Box::new((**e).clone())),
            IR::Entity(entries) => {
                let mut out: Vec<(String, IR)> = Vec::new();
                let mut i: usize = 0;
                while i < entries.len()
                    invariant
                        i <= entries.len(),
                        *self == IR::Entity(*entries),
                    decreases entries.len() - i,
                {
                    proof {
                        assert(self->Entity_0 == *entries);
                        assert(decreases_to!(*self => self->Entity_0));
                        assert(decreases_to!(*entries => entries[i as int]));
                        assert(decreases_to!(entries[i as int] => entries[i as int].1));
                    }
                    out.push((entries[i].0.clone(), entries[i].1.clone()));
                    i += 1;
                }
                IR::Entity(out)
            },
            IR::Service(sdl) => IR::Service(sdl.clone()),
            IR::Deferred { id, label, ir, path } => IR::Deferred {
                id: id.clone(),
                label: match label {
                    Some(l) => Some(l.clone()),
                    None => None,
                },
                ir: Box::new((**ir).clone()),
                path: clone_names(path),
            },
        }
    }
}

impl IR {
    /// The name of the kind of resolver; for a call, the name of the kind
    /// of call.
    pub open spec fn kind(&self) -> Seq<char> {
        match self {
            IR::Dynamic(_) => "Dynamic"@,
            IR::IO(io) => io.kind(),
            IR::Cache(_) => "Cache"@,
            IR::Path(_, _) => "Path"@,
            IR::ContextPath(_) => "ContextPath"@,
            IR::Protect(_, _) => "Protect"@,
            IR::MapLookup(_) => "Map"@,
            IR::Pipe(_, _) => "Pipe"@,
            IR::Discriminate(_, _) => "Discriminate"@,
            IR::Entity(_) => "Entity"@,
            IR::Service(_) => "Service"@,
            IR::Deferred { .. } => "Deferred"@,
        }
    }

    /// The name of the kind of resolver.
    pub fn to_string(&self) -> (r: String)
        ensures
            r@ == self.kind(),
    {
        match self {
            IR::Dynamic(_) => String::from_str("Dynamic"),
            IR::IO(io) => io.to_string(),
            IR::Cache(_) => String::from_str("Cache"),
            IR::Path(_, _) => String::from_str("Path"),
            IR::ContextPath(_) => String::from_str("ContextPath"),
            IR::Protect(_, _) => String::from_str("Protect"),
            IR::MapLookup(_) => String::from_str("Map"),
            IR::Pipe(_, _) => String::from_str("Pipe"),
            IR::Discriminate(_, _) => String::from_str("Discriminate"),
            IR::Entity(_) => String::from_str("Entity"),
            IR::Service(_) => String::from_str("Service"),
            IR::Deferred { .. } => String::from_str("Deferred"),
        }
    }

    /// Evaluate `self`, then `next` with the result bound as the value.
    pub fn pipe(self, next: Self) -> (r: Self)
        ensures
            r == IR::Pipe(Box::new(self), Box::new(next)),
    {
        IR::Pipe(Box::new(self), Box::new(next))
    }

    /// Rewrites the tree from the leaves up: every node is visited, children
    /// before their parent. The children of a node are rewritten, the node
    /// is rebuilt over them and offered to `modifier`; where `modifier`
    /// returns a substitute, the substitute stands in the node's place.
    pub fn modify<F: FnMut(&IR) -> Option<IR>>(self, modifier: &mut F) -> (out: IR)
        requires
            forall|x: &IR| call_requires(*old(modifier), (x,)),
        ensures
            rewrites(old(modifier), self, out),
            *final(modifier) == *old(modifier),
        decreases self,
    {
        let rebuilt = match self {
            IR::Pipe(first, second) => {
                let a = (*first).modify(modifier);
                let b = (*second).modify(modifier);
                IR::Pipe(Box::new(a), Box::new(b))
            },
            IR::ContextPath(path) => IR::ContextPath(path),
            IR::Dynamic(v) => IR::Dynamic(v),
            IR::IO(io) => IR::IO(io),
            IR::Cache(Cache { io, max_age }) => {
                let call = IR::IO(*io);
                let expr = match modifier(&call) {
                    Some(expr) => expr,
                    None => call,
                };
                assert(offered(old(modifier), IR::IO(*io), expr));
                match expr {
                    IR::IO(io) => IR::Cache(Cache { io: Box::new(io), max_age }),
                    expr => expr,
                }
            },
            IR::Path(expr, path) => IR::Path(Box::new((*expr).modify(modifier)), path),
            IR::Protect(auth, expr) => IR::Protect(auth, Box::new((*expr).modify(modifier))),
            IR::MapLookup(MapLookup { input, map }) => IR::MapLookup(
                MapLookup { input: Box::new((*input).modify(modifier)), map },
            ),
            IR::Discriminate(discriminator, expr) => IR::Discriminate(
                discriminator,
                Box::new((*expr).modify(modifier)),
            ),
            IR::Entity(entries) => {
                let ghost before = entries;
                let mut out: Vec<(String, IR)> = Vec::new();
                for entry in it: entries
                    invariant
                        forall|x: &IR| call_requires(*modifier, (x,)),
                        *modifier == *old(modifier),
                        it.seq() == before@,
                        self == IR::Entity(before),
                        out.len() == it.index(),
                        forall|j: int|
                            0 <= j < out.len() ==> (#[trigger] out[j]).0 == before[j].0
                                && rewrites(old(modifier), before[j].1, out[j].1),
                {
                    let (typename, ir) = entry;
                    proof {
                        let i = out.len() as int;
                        assert(entry == before@[i]);
                        assert(self->Entity_0 == before);
                        assert(decreases_to!(self => self->Entity_0));
                        assert(decreases_to!(before => before[i]));
                        assert(decreases_to!(before[i] => before[i].1));
                    }
                    let rewritten = ir.modify(modifier);
                    out.push((typename, rewritten));
                }
                IR::Entity(out)
            },
            IR::Service(sdl) => IR::Service(sdl),
            IR::Deferred { ir, path, id, label } => IR::Deferred {
                ir: Box::new((*ir).modify(modifier)),
                path,
                id,
                label,
            },
        };
        let out = match modifier(&rebuilt) {
            Some(expr) => expr,
            None => rebuilt,
        };
        assert(offered(old(modifier), rebuilt, out));
        out
    }
}

/// Whether the upstream call `io` stands somewhere in `t`, bare or cached.
pub open spec fn reaches_call(t: IrView, io: IO) -> bool
    decreases t,
{
    match t {
        IrView::IO(x) => x == io,
        IrView::Cache(c) => *c.io == io,
        IrView::Dynamic(_) | IrView::ContextPath(_) | IrView::Service(_) => false,
        IrView::Path(e, _) => reaches_call(*e, io),
        IrView::Protect(_, e) => reaches_call(*e, io),
        IrView::MapLookup { input, .. } => reaches_call(*input, io),
        IrView::Pipe(a, b) => reaches_call(*a, io) || reaches_call(*b, io),
        IrView::Discriminate(_, e) => reaches_call(*e, io),
        IrView::Entity(entries) => exists|i: int|
            0 <= i < entries.len() && reaches_call(#[trigger] entries[i].1, io),
        IrView::Deferred { ir, .. } => reaches_call(*ir, io),
    }
}

/// The upstream calls reachable from `t`.
pub open spec fn io_leaves(t: IrView) -> Set<IO> {
    Set::new(|io: IO| reaches_call(t, io))
}

/// Whether a call stands in `t` outside any cache.
pub open spec fn has_bare_call(t: IrView) -> bool
    decreases t,
{
    match t {
        IrView::IO(_) => true,
        IrView::Cache(_) | IrView::Dynamic(_) | IrView::ContextPath(_) | IrView::Service(_) => false,
        IrView::Path(e, _) => has_bare_call(*e),
        IrView::Protect(_, e) => has_bare_call(*e),
        IrView::MapLookup { input, .. } => has_bare_call(*input),
        IrView::Pipe(a, b) => has_bare_call(*a) || has_bare_call(*b),
        IrView::Discriminate(_, e) => has_bare_call(*e),
        IrView::Entity(entries) => exists|i: int|
            0 <= i < entries.len() && has_bare_call(#[trigger] entries[i].1),
        IrView::Deferred { ir, .. } => has_bare_call(*ir),
    }
}

impl Cache {
    /// `t` with every upstream call put behind a cache of `max_age`: a bare
    /// call is wrapped, a cached call gets the new `max_age`, and every
    /// other node keeps its place.
    pub open spec fn wrapped(max_age: u64, t: IrView) -> IrView
        decreases t,
    {
        match t {
            IrView::IO(io) => IrView::Cache(Cache { max_age, io: Box::new(io) }),
            IrView::Cache(c) => IrView::Cache(Cache { max_age, io: c.io }),
            IrView::Dynamic(_) | IrView::ContextPath(_) | IrView::Service(_) => t,
            IrView::Path(e, path) => IrView::Path(Box::new(Cache::wrapped(max_age, *e)), path),
            IrView::Protect(auth, e) => IrView::Protect(
                auth,
                Box::new(Cache::wrapped(max_age, *e)),
            ),
            IrView::MapLookup { input, map } => IrView::MapLookup {
                input: Box::new(Cache::wrapped(max_age, *input)),
                map,
            },
            IrView::Pipe(a, b) => IrView::Pipe(
                Box::new(Cache::wrapped(max_age, *a)),
                Box::new(Cache::wrapped(max_age, *b)),
            ),
            IrView::Discriminate(d, e) => IrView::Discriminate(
                d,
                Box::new(Cache::wrapped(max_age, *e)),
            ),
            IrView::Entity(entries) => IrView::Entity(
                Seq::new(
                    entries.len(),
                    |i: int|
                        if 0 <= i < entries.len() {
                            (entries[i].0, Cache::wrapped(max_age, entries[i].1))
                        } else {
                            entries[i]
                        },
                ),
            ),
            IrView::Deferred { id, label, ir, path } => IrView::Deferred {
                id,
                label,
                ir: Box::new(Cache::wrapped(max_age, *ir)),
                path,
            },
        }
    }

    /// Puts every upstream call of `expr` behind a cache of `max_age`.
    pub fn wrap(max_age: u64, expr: IR) -> (out: IR)
        ensures
            out@ == Cache::wrapped(max_age, expr@),
        decreases expr,
    {
        match expr {
            IR::IO(io) => IR::Cache(Cache { max_age, io: Box::new(io) }),
            IR::Cache(Cache { io, .. }) => IR::Cache(Cache { max_age, io }),
            IR::Dynamic(v) => IR::Dynamic(v),
            IR::ContextPath(path) => IR::ContextPath(path),
            IR::Service(sdl) => IR::Service(sdl),
            IR::Path(e, path) => IR::Path(Box::new(Cache::wrap(max_age, *e)), path),
            IR::Protect(auth, e) => IR::Protect(auth, Box::new(Cache::wrap(max_age, *e))),
            IR::MapLookup(MapLookup { input, map }) => IR::MapLookup(
                MapLookup { input: Box::new(Cache::wrap(max_age, *input)), map },
            ),
            IR::Pipe(a, b) => {
                let first = Cache::wrap(max_age, *a);
                let second = Cache::wrap(max_age, *b);
                IR::Pipe(Box::new(first), Box::new(second))
            },
            IR::Discriminate(d, e) => IR::Discriminate(d, Box::new(Cache::wrap(max_age, *e))),
            IR::Entity(entries) => {
                let ghost before = entries;
                let mut out: Vec<(String, IR)> = Vec::new();
                for entry in it: entries
                    invariant
                        it.seq() == before@,
                        expr == IR::Entity(before),
                        out.len() == it.index(),
                        forall|j: int|
                            0 <= j < out.len() ==> (#[trigger] out[j]).0 == before[j].0
                                && out[j].1@ == Cache::wrapped(max_age, before[j].1@),
                {
                    let (typename, ir) = entry;
                    proof {
                        let i = out.len() as int;
                        assert(entry == before@[i]);
                        assert(expr->Entity_0 == before);
                        assert(decreases_to!(expr => expr->Entity_0));
                        assert(decreases_to!(before => before[i]));
                        assert(decreases_to!(before[i] => before[i].1));
                    }
                    let cached = Cache::wrap(max_age, ir);
                    out.push((typename, cached));
                }
                let r = IR::Entity(out);
                assert(r@->Entity_0 =~= Cache::wrapped(max_age, expr@)->Entity_0);
                r
            },
            IR::Deferred { id, label, ir, path } => IR::Deferred {
                id,
                label,
                ir: Box::new(Cache::wrap(max_age, *ir)),
                path,
            },
        }
    }
}

/// Wrapping keeps the upstream calls: a call is reachable from the wrapped
/// tree exactly if it is reachable from the tree.
pub proof fn lemma_wrap_keeps_calls(max_age: u64, t: IrView, io: IO)
    ensures
        reaches_call(Cache::wrapped(max_age, t), io) == reaches_call(t, io),
    decreases t,
{
    match t {
        IrView::IO(_) | IrView::Cache(_) | IrView::Dynamic(_) | IrView::ContextPath(_)
        | IrView::Service(_) => {},
        IrView::Path(e, _) => lemma_wrap_keeps_calls(max_age, *e, io),
        IrView::Protect(_, e) => lemma_wrap_keeps_calls(max_age, *e, io),
        IrView::MapLookup { input, .. } => lemma_wrap_keeps_calls(max_age, *input, io),
        IrView::Pipe(a, b) => {
            lemma_wrap_keeps_calls(max_age, *a, io);
            lemma_wrap_keeps_calls(max_age, *b, io);
        },
        IrView::Discriminate(_, e) => lemma_wrap_keeps_calls(max_age, *e, io),
        IrView::Entity(entries) => {
            let after = Cache::wrapped(max_age, t)->Entity_0;
            assert forall|i: int| 0 <= i < entries.len() implies reaches_call(
                #[trigger] after[i].1,
                io,
            ) == reaches_call(entries[i].1, io) by {
                lemma_wrap_keeps_calls(max_age, entries[i].1, io);
            }
            if reaches_call(t, io) {
                let i = choose|i: int|
                    0 <= i < entries.len() && reaches_call(#[trigger] entries[i].1, io);
                assert(reaches_call(after[i].1, io));
            }
            if reaches_call(Cache::wrapped(max_age, t), io) {
                let i = choose|i: int| 0 <= i < after.len() && reaches_call(#[trigger] after[i].1, io);
                assert(reaches_call(entries[i].1, io));
            }
        },
        IrView::Deferred { ir, .. } => lemma_wrap_keeps_calls(max_age, *ir, io),
    }
}

/// Wrapping preserves the set of upstream calls.
pub proof fn lemma_wrap_preserves_io_leaves(max_age: u64, t: IrView)
    ensures
        io_leaves(Cache::wrapped(max_age, t)) == io_leaves(t),
{
    assert forall|io: IO|
        io_leaves(Cache::wrapped(max_age, t)).contains(io) == io_leaves(t).contains(io) by {
        lemma_wrap_keeps_calls(max_age, t, io);
    }
    assert(io_leaves(Cache::wrapped(max_age, t)) =~= io_leaves(t));
}

/// After wrapping, no call stands outside a cache.
pub proof fn lemma_wrap_leaves_no_bare_call(max_age: u64, t: IrView)
    ensures
        !has_bare_call(Cache::wrapped(max_age, t)),
    decreases t,
{
    match t {
        IrView::IO(_) | IrView::Cache(_) | IrView::Dynamic(_) | IrView::ContextPath(_)
        | IrView::Service(_) => {},
        IrView::Path(e, _) => lemma_wrap_leaves_no_bare_call(max_age, *e),
        IrView::Protect(_, e) => lemma_wrap_leaves_no_bare_call(max_age, *e),
        IrView::MapLookup { input, .. } => lemma_wrap_leaves_no_bare_call(max_age, *input),
        IrView::Pipe(a, b) => {
            lemma_wrap_leaves_no_bare_call(max_age, *a);
            lemma_wrap_leaves_no_bare_call(max_age, *b);
        },
        IrView::Discriminate(_, e) => lemma_wrap_leaves_no_bare_call(max_age, *e),
        IrView::Entity(entries) => {
            let after = Cache::wrapped(max_age, t)->Entity_0;
            assert forall|i: int| 0 <= i < after.len() implies !has_bare_call(
                #[trigger] after[i].1,
            ) by {
                lemma_wrap_leaves_no_bare_call(max_age, entries[i].1);
            }
        },
        IrView::Deferred { ir, .. } => lemma_wrap_leaves_no_bare_call(max_age, *ir),
    }
}

/// Wrapping twice with one `max_age` is wrapping once.
pub proof fn lemma_wrap_idempotent(max_age: u64, t: IrView)
    ensures
        Cache::wrapped(max_age, Cache::wrapped(max_age, t)) == Cache::wrapped(max_age, t),
    decreases t,
{
    match t {
        IrView::IO(_) | IrView::Cache(_) | IrView::Dynamic(_) | IrView::ContextPath(_)
        | IrView::Service(_) => {},
        IrView::Path(e, _) => lemma_wrap_idempotent(max_age, *e),
        IrView::Protect(_, e) => lemma_wrap_idempotent(max_age, *e),
        IrView::MapLookup { input, .. } => lemma_wrap_idempotent(max_age, *input),
        IrView::Pipe(a, b) => {
            lemma_wrap_idempotent(max_age, *a);
            lemma_wrap_idempotent(max_age, *b);
        },
        IrView::Discriminate(_, e) => lemma_wrap_idempotent(max_age, *e),
        IrView::Entity(entries) => {
            let once = Cache::wrapped(max_age, t)->Entity_0;
            let twice = Cache::wrapped(max_age, Cache::wrapped(max_age, t))->Entity_0;
            assert forall|i: int| 0 <= i < entries.len() implies twice[i] == once[i] by {
                lemma_wrap_idempotent(max_age, entries[i].1);
            }
            assert(twice =~= once);
        },
        IrView::Deferred { ir, .. } => lemma_wrap_idempotent(max_age, *ir),
    }
}

/// A rewrite whose modifier never substitutes a node is the identity.
pub proof fn lemma_modify_identity<F: FnMut(&IR) -> Option<IR>>(f: &F, ir: IR, out: IR)
    requires
        forall|x: &IR, o: Option<IR>| call_ensures(*f, (x,), o) ==> o is None,
        rewrites(f, ir, out),
    ensures
        out@ == ir@,
    decreases ir,
{
    let rebuilt = choose|rebuilt: IR| #[trigger]
        offered(f, rebuilt, out) && match ir {
            IR::Dynamic(_) | IR::IO(_) | IR::ContextPath(_) | IR::Service(_) => rebuilt == ir,
            IR::Cache(c) => exists|x: IR| #[trigger]
                offered(f, IR::IO(*c.io), x) && rebuilt == match x {
                    IR::IO(io) => IR::Cache(Cache { max_age: c.max_age, io: Box::new(io) }),
                    other => other,
                },
            IR::Path(e, path) => rebuilt matches IR::Path(e2, path2) && path2 == path && rewrites(
                f,
                *e,
                *e2,
            ),
            IR::Protect(auth, e) => rebuilt matches IR::Protect(auth2, e2) && auth2 == auth
                && rewrites(f, *e, *e2),
            IR::MapLookup(m) => rebuilt matches IR::MapLookup(m2) && m2.map == m.map && rewrites(
                f,
                *m.input,
                *m2.input,
            ),
            IR::Pipe(a, b) => rebuilt matches IR::Pipe(a2, b2) && rewrites(f, *a, *a2) && rewrites(
                f,
                *b,
                *b2,
            ),
            IR::Discriminate(d, e) => rebuilt matches IR::Discriminate(d2, e2) && d2 == d
                && rewrites(f, *e, *e2),
            IR::Entity(entries) => rebuilt matches IR::Entity(entries2) && entries2.len()
                == entries.len() && forall|i: int|
                0 <= i < entries.len() ==> (#[trigger] entries2[i]).0 == entries[i].0 && rewrites(
                    f,
                    entries[i].1,
                    entries2[i].1,
                ),
            IR::Deferred { id, label, ir: e, path } => rebuilt matches IR::Deferred {
                id: id2,
                label: label2,
                ir: e2,
                path: path2,
            } && id2 == id && label2 == label && path2 == path && rewrites(f, *e, *e2),
        };
    assert(out == rebuilt);
    match ir {
        IR::Dynamic(_) | IR::IO(_) | IR::ContextPath(_) | IR::Service(_) => {},
        IR::Cache(c) => {},
        IR::Path(e, _) => lemma_modify_identity(f, *e, *out->Path_0),
        IR::Protect(_, e) => lemma_modify_identity(f, *e, *out->Protect_1),
        IR::MapLookup(m) => lemma_modify_identity(f, *m.input, *out->MapLookup_0.input),
        IR::Pipe(a, b) => {
            lemma_modify_identity(f, *a, *out->Pipe_0);
            lemma_modify_identity(f, *b, *out->Pipe_1);
        },
        IR::Discriminate(_, e) => lemma_modify_identity(f, *e, *out->Discriminate_1),
        IR::Entity(entries) => {
            let entries2 = out->Entity_0;
            assert forall|i: int| 0 <= i < entries.len() implies out@->Entity_0[i]
                == ir@->Entity_0[i] by {
                lemma_modify_identity(f, entries[i].1, entries2[i].1);
            }
            assert(out@->Entity_0 =~= ir@->Entity_0);
        },
        IR::Deferred { ir: e, .. } => lemma_modify_identity(f, *e, *out->Deferred_ir),
    }
}

} // verus!
