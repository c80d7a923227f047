//! Query shapes: the plan of a query, built by its morphisms and turned into
//! an iterator tree over a store.
use vstd::prelude::*;
use crate::graph::value::{Value, ValueV};
use crate::graph::refs::{Ref, RefV, ContentV};
use crate::graph::quad::{QuadStore, Direction};
use crate::graph::iterator::Shape as IterShape;
use crate::graph::iterator::{Null as IterNull, Error as IterError, copy_strings};
use crate::graph::iterator::and::And;
use crate::graph::iterator::or::Or;
use crate::graph::iterator::save::Save as IterSave;
use crate::graph::iterator::unique::Unique as IterUnique;
use crate::graph::iterator::not::Not;
use crate::graph::iterator::skip::Skip;
use crate::graph::iterator::limit::Limit;
use crate::graph::iterator::sort::Sort as IterSort;
use crate::graph::iterator::fixed::{Fixed as IterFixed, refs_view};
use crate::graph::hasa::HasA;
use crate::graph::linksto::LinksTo;
use crate::query::filter::ValueFilter;
use crate::strutil::string_of;

verus! {

/// The nodes with the given values.
pub struct Lookup(pub Vec<Value>);

/// The given nodes.
pub struct Fixed(pub Vec<Ref>);

/// No node.
pub struct Null();

/// All nodes of the store.
pub struct AllNodes();

/// The nodes in all the given shapes.
pub struct Intersect(pub Vec<Shape>);

/// The nodes at corner `dir` of the given quads.
pub struct NodesFrom {
    pub dir: Direction,
    pub quads: Box<Shape>,
}

/// The quads with one of the given nodes at corner `dir`.
pub struct QuadFilter {
    pub dir: Direction,
    pub values: Option<Box<Shape>>,
}

/// The quads that pass all the filters.
pub struct Quads(pub Vec<QuadFilter>);

/// The nodes of a shape, recorded under tags.
pub struct Save {
    pub tags: Vec<String>,
    pub from: Option<Box<Shape>>,
}

/// The nodes in any of the given shapes.
pub struct Union(pub Vec<Shape>);

/// The nodes of a shape, each once.
pub struct Unique {
    pub from: Box<Shape>,
}

/// A shape that stands for an iterator built already.
pub struct IteratorShape {
    pub it: IterShape,
    pub sent: bool,
}

/// The nodes in all shapes of `sub`, with the tags of the optional shapes
/// where they have them.
pub struct IntersectOpt {
    pub sub: Intersect,
    pub opt: Vec<Shape>,
}

/// The nodes of `from` (all nodes when absent) that are not in `exclude`.
pub struct Except {
    pub exclude: Option<Box<Shape>>,
    pub from: Option<Box<Shape>>,
}

/// A page of the nodes of a shape: `skip` are skipped, at most `limit`
/// are kept (when positive).
pub struct Page {
    pub from: Box<Shape>,
    pub skip: i64,
    pub limit: i64,
}

/// The nodes of a shape in the order of their values.
pub struct Sort {
    pub from: Box<Shape>,
}

/// The nodes of a shape that pass all the filters.
pub struct Filter {
    pub from: Box<Shape>,
    pub filters: Vec<ValueFilter>,
}

/// A query shape.
pub enum Shape {
    Lookup(Lookup),
    Fixed(Fixed),
    Null(Null),
    AllNodes(AllNodes),
    Intersect(Intersect),
    NodesFrom(NodesFrom),
    QuadFilter(QuadFilter),
    Quads(Quads),
    Save(Save),
    Union(Union),
    Unique(Unique),
    IteratorShape(IteratorShape),
    IntersectOpt(IntersectOpt),
    Except(Except),
    Page(Page),
    Sort(Sort),
    Filter(Filter),
}

impl Null {
    pub fn new() -> (r: Shape)
        ensures
            r is Null,
    {
        Shape::Null(Null())
    }
}

impl AllNodes {
    pub fn new() -> (r: Shape)
        ensures
            r is AllNodes,
    {
        Shape::AllNodes(AllNodes())
    }
}

/// The references the store gives the values, in order, leaving out those
/// it does not know.
pub open spec fn resolved_refs<Q: QuadStore>(qs: &Q, vs: Seq<Value>) -> Seq<RefV>
    decreases vs.len(),
{
    if vs.len() == 0 {
        Seq::empty()
    } else {
        let rest = resolved_refs(qs, vs.drop_last());
        match qs.spec_value_of(vs.last()@) {
            Some(r) => rest.push(r),
            None => rest,
        }
    }
}

/// Whether a reference carries a quad.
pub open spec fn has_quad_content(s: Seq<RefV>) -> bool {
    exists|i: int| 0 <= i < s.len() && #[trigger] s[i].content is Quad
}

/// The single reference of a `Fixed` shape with exactly one.
pub open spec fn one_spec(s: Shape) -> Option<RefV> {
    match s {
        Shape::Fixed(f) => if f.0@.len() == 1 { Some(f.0@[0]@) } else { None },
        _ => None,
    }
}

impl Lookup {
    /// The store's references for the values; none when it knows none of
    /// them.
    pub fn resolve<Q: QuadStore>(&self, qs: &Q) -> (r: Option<Shape>)
        ensures
            resolved_refs(qs, self.0@).len() == 0 ==> r is None,
            resolved_refs(qs, self.0@).len() > 0 ==> (r matches Some(Shape::Fixed(f)) && refs_view(f.0@) == resolved_refs(qs, self.0@)),
    {
        let mut vals: Vec<Ref> = Vec::new();
        let mut i: usize = 0;
        while i < self.0.len()
            invariant
                i <= self.0@.len(),
                refs_view(vals@) == resolved_refs(qs, self.0@.take(i as int)),
            decreases self.0@.len() - i,
        {
            proof {
                assert(self.0@.take(i + 1).drop_last() =~= self.0@.take(i as int));
            }
            match qs.value_of(&self.0[i]) {
                Some(r) => {
                    let ghost before = vals@;
                    vals.push(r);
                    proof {
                        assert(refs_view(vals@) =~= refs_view(before).push(vals@[before.len() as int]@));
                    }
                },
                None => {},
            }
            i = i + 1;
        }
        proof {
            assert(self.0@.take(self.0@.len() as int) =~= self.0@);
        }
        if vals.len() == 0 {
            return None;
        }
        Some(Shape::Fixed(Fixed(vals)))
    }

    /// Adds values to look up.
    pub fn add(&mut self, values: Vec<Value>)
        ensures
            final(self).0@ == old(self).0@ + values@,
    {
        let mut values = values;
        self.0.append(&mut values);
    }
}

/// The top of the iterator a shape is built into, over the store `qs`.
pub open spec fn built_top<Q: QuadStore>(qs: &Q, s: Shape, r: IterShape) -> bool {
    match s {
        Shape::Lookup(l) => if resolved_refs(qs, l.0@).len() == 0 {
            r is Null
        } else {
            fixed_built(resolved_refs(qs, l.0@), r)
        },
        Shape::Fixed(f) => fixed_built(refs_view(f.0@), r),
        Shape::Null(_) => r is Null,
        Shape::AllNodes(_) => true,
        Shape::Intersect(i) => if i.0@.len() == 0 {
            r is Null
        } else if i.0@.len() == 1 {
            true
        } else {
            r matches IterShape::And(a) && a.sub@.len() == i.0@.len() && a.opt is None && a.check_list is None
        },
        Shape::NodesFrom(n) => if *n.quads is Null {
            r is Null
        } else {
            r matches IterShape::HasA(h) && h.dir == n.dir
        },
        Shape::QuadFilter(qf) => quad_filter_built(qf, r),
        Shape::Quads(q) => if q.0@.len() == 0 {
            r is Null
        } else if q.0@.len() == 1 {
            quad_filter_built(q.0@[0], r)
        } else {
            r matches IterShape::And(a) && a.sub@.len() == q.0@.len() && a.opt is None && a.check_list is None
        },
        Shape::Save(sv) => match sv.from {
            None => r is Null,
            Some(_) => sv.tags@.len() > 0 ==> (r matches IterShape::Save(x) && x.tags.tags@.map_values(|t: String| t@)
                == sv.tags@.map_values(|t: String| t@)),
        },
        Shape::Union(u) => if u.0@.len() == 0 {
            r is Null
        } else if u.0@.len() == 1 {
            true
        } else {
            r matches IterShape::Or(o) && o.sub@.len() == u.0@.len() && !o.is_short_circuiting
        },
        Shape::Unique(_) => r is Unique,
        Shape::IteratorShape(_) => r is Null,
        Shape::IntersectOpt(io) => if io.sub.0@.len() == 0 && io.opt@.len() == 0 {
            r is Null
        } else if io.opt@.len() == 0 && io.sub.0@.len() <= 1 {
            true
        } else {
            r matches IterShape::And(a) && a.sub@.len() == (if io.sub.0@.len() == 0 { 1 } else { io.sub.0@.len() })
                && (io.opt@.len() > 0 ==> (a.opt matches Some(o) && o@.len() == io.opt@.len()))
        },
        Shape::Except(e) => e.exclude is Some ==> r is Not,
        Shape::Page(p) => if *p.from is Null {
            r is Null
        } else if p.limit > 0 {
            r matches IterShape::Limit(l) && l.limit == p.limit && (p.skip > 0 ==> (*l.it matches IterShape::Skip(k) && k.skip == p.skip))
        } else if p.skip > 0 {
            r matches IterShape::Skip(k) && k.skip == p.skip
        } else {
            true
        },
        Shape::Sort(st) => if *st.from is Null {
            r is Null
        } else {
            r is Sort
        },
        Shape::Filter(_) => true,
    }
}

/// A `Fixed` shape is built into an iterator over its references, or an
/// error when one of them carries a quad.
pub open spec fn fixed_built(refs: Seq<RefV>, r: IterShape) -> bool {
    if has_quad_content(refs) {
        r is Error
    } else {
        r matches IterShape::Fixed(f) && refs_view(f.values@) == refs
    }
}

/// A quad filter without nodes is built into the empty iterator; with a
/// single node, into the store's iterator of the quads with that node; else
/// into the quads linked to the nodes at its corner.
pub open spec fn quad_filter_built(qf: QuadFilter, r: IterShape) -> bool {
    match qf.values {
        None => r is Null,
        Some(v) => one_spec(*v) is None ==> (r matches IterShape::LinksTo(l) && l.dir == qf.dir),
    }
}

/// The iterator over a list of references, or an error when one of them
/// carries a quad.
fn fixed_iterator(refs: &Vec<Ref>) -> (r: IterShape)
    ensures
        fixed_built(refs_view(refs@), r),
{
    let mut i: usize = 0;
    while i < refs.len()
        invariant
            i <= refs@.len(),
            forall|j: int| 0 <= j < i ==> !(#[trigger] refs@[j]@.content is Quad),
        decreases refs@.len() - i,
    {
        if refs[i].has_quad() {
            proof {
                reveal_strlit("quad value in fixed iterator");
                assert(refs_view(refs@)[i as int].content is Quad);
            }
            return IterError::new(string_of("quad value in fixed iterator"));
        }
        i = i + 1;
    }
    IterShape::Fixed(IterFixed::new(crate::graph::iterator::fixed::copy_refs(refs)))
}

/// The single reference of a `Fixed` shape with exactly one.
pub fn one(s: &Shape) -> (r: Option<Ref>)
    ensures
        match one_spec(*s) {
            Some(x) => r matches Some(y) && y@ == x,
            None => r is None,
        },
{
    match s {
        Shape::Fixed(f) => if f.0.len() == 1 {
            Some(f.0[0].copy())
        } else {
            None
        },
        _ => None,
    }
}

/// The iterators of a list of shapes, in order.
pub fn build_all<Q: QuadStore>(v: &Vec<Shape>, qs: &Q) -> (r: Vec<IterShape>)
    ensures
        r@.len() == v@.len(),
    decreases v,
{
    let mut out: Vec<IterShape> = Vec::new();
    let mut i: usize = 0;
    while i < v.len()
        invariant
            i <= v@.len(),
            out@.len() == i,
        decreases v@.len() - i,
    {
        out.push(v[i].build_iterator(qs));
        i = i + 1;
    }
    out
}

/// The iterators of a list of quad filters, in order.
pub fn build_filters<Q: QuadStore>(v: &Vec<QuadFilter>, qs: &Q) -> (r: Vec<IterShape>)
    ensures
        r@.len() == v@.len(),
        v@.len() > 0 ==> quad_filter_built(v@[0], r@[0]),
    decreases v,
{
    let mut out: Vec<IterShape> = Vec::new();
    let mut i: usize = 0;
    while i < v.len()
        invariant
            i <= v@.len(),
            out@.len() == i,
            i > 0 ==> quad_filter_built(v@[0], out@[0]),
        decreases v@.len() - i,
    {
        out.push(v[i].build_iterator(qs));
        i = i + 1;
    }
    out
}

impl QuadFilter {
    /// The quads with one of the nodes of `values` in direction `dir` (no
    /// quads when `values` is absent).
    pub fn new_struct(dir: Direction, values: Option<Shape>) -> (r: QuadFilter)
        ensures
            r.dir == dir,
            match (r.values, values) {
                (Some(a), Some(b)) => *a == b,
                (None, None) => true,
                _ => false,
            },
    {
        QuadFilter {
            dir,
            values: match values {
                Some(v) => Some(Box::new(v)),
                None => None,
            },
        }
    }

    /// See `quad_filter_built`.
    pub fn build_iterator<Q: QuadStore>(&self, qs: &Q) -> (r: IterShape)
        ensures
            quad_filter_built(*self, r),
        decreases self,
    {
        match &self.values {
            None => IterNull::new(),
            Some(v) => match one(v) {
                Some(x) => qs.quad_iterator(&self.dir, &x),
                None => {
                    let sub = v.build_iterator(qs);
                    IterShape::LinksTo(LinksTo::new(sub, self.dir))
                },
            },
        }
    }
}

impl Shape {
    /// The iterator tree of the shape over the store (see `built_top`).
    pub fn build_iterator<Q: QuadStore>(&self, qs: &Q) -> (r: IterShape)
        ensures
            built_top(qs, *self, r),
        decreases self,
    {
        match self {
            Shape::Lookup(l) => match l.resolve(qs) {
                Some(Shape::Fixed(f)) => fixed_iterator(&f.0),
                _ => IterNull::new(),
            },
            Shape::Fixed(f) => fixed_iterator(&f.0),
            Shape::Null(_) => IterNull::new(),
            Shape::AllNodes(_) => qs.nodes_all_iterator(),
            Shape::Intersect(i) => {
                if i.0.len() == 0 {
                    return IterNull::new();
                }
                let mut sub = build_all(&i.0, qs);
                if sub.len() == 1 {
                    return sub.remove(0);
                }
                IterShape::And(And::new(sub))
            },
            Shape::NodesFrom(n) => {
                if n.quads.is_null() {
                    return IterNull::new();
                }
                let sub = n.quads.build_iterator(qs);
                IterShape::HasA(HasA::new(sub, n.dir))
            },
            Shape::QuadFilter(qf) => qf.build_iterator(qs),
            Shape::Quads(q) => {
                if q.0.len() == 0 {
                    return IterNull::new();
                }
                let mut its = build_filters(&q.0, qs);
                if its.len() == 1 {
                    return its.remove(0);
                }
                IterShape::And(And::new(its))
            },
            Shape::Save(sv) => match &sv.from {
                None => IterNull::new(),
                Some(f) => {
                    let it = f.build_iterator(qs);
                    if sv.tags.len() > 0 {
                        let tags = copy_strings(&sv.tags);
                        let x = IterSave::new(it, tags);
                        proof {
                            assert(x.tags.tags@.map_values(|t: String| t@) =~= sv.tags@.map_values(|t: String| t@));
                        }
                        IterShape::Save(x)
                    } else {
                        it
                    }
                },
            },
            Shape::Union(u) => {
                if u.0.len() == 0 {
                    return IterNull::new();
                }
                let mut sub = build_all(&u.0, qs);
                if sub.len() == 1 {
                    return sub.remove(0);
                }
                IterShape::Or(Or::new(sub))
            },
            Shape::Unique(u) => IterShape::Unique(IterUnique::new(u.from.build_iterator(qs))),
            Shape::IteratorShape(_) => IterNull::new(),
            Shape::IntersectOpt(io) => {
                let mut sub: Vec<IterShape> = if io.sub.0.len() == 0 {
                    if io.opt.len() == 0 {
                        return IterNull::new();
                    }
                    let mut v: Vec<IterShape> = Vec::new();
                    v.push(qs.nodes_all_iterator());
                    v
                } else {
                    build_all(&io.sub.0, qs)
                };
                let opt = build_all(&io.opt, qs);
                if sub.len() == 1 && opt.len() == 0 {
                    return sub.remove(0);
                }
                let mut it = And::new(sub);
                let mut k: usize = 0;
                while k < opt.len()
                    invariant
                        k <= opt@.len(),
                        it.sub@.len() == (if io.sub.0@.len() == 0 { 1 } else { io.sub.0@.len() }),
                        k > 0 ==> (it.opt matches Some(o) && o@.len() == k),
                        k == 0 ==> it.opt is None,
                    decreases opt@.len() - k,
                {
                    it.add_optional_iterator(opt[k].copy());
                    k = k + 1;
                }
                IterShape::And(it)
            },
            Shape::Except(e) => {
                let all = match &e.from {
                    Some(f) => f.build_iterator(qs),
                    None => qs.nodes_all_iterator(),
                };
                match &e.exclude {
                    Some(x) => IterShape::Not(Not::new(x.build_iterator(qs), all)),
                    None => all,
                }
            },
            Shape::Page(p) => {
                if p.from.is_null() {
                    return IterNull::new();
                }
                let mut it = p.from.build_iterator(qs);
                if p.skip > 0 {
                    it = IterShape::Skip(Skip::new(it, p.skip));
                }
                if p.limit > 0 {
                    it = IterShape::Limit(Limit::new(it, p.limit));
                }
                it
            },
            Shape::Sort(st) => {
                if st.from.is_null() {
                    return IterNull::new();
                }
                IterShape::Sort(IterSort::new(st.from.build_iterator(qs)))
            },
            Shape::Filter(f) => {
                let mut it = f.from.build_iterator(qs);
                let mut k: usize = 0;
                while k < f.filters.len()
                    invariant
                        k <= f.filters@.len(),
                    decreases f.filters@.len() - k,
                {
                    it = f.filters[k].build_iterator(qs, it);
                    k = k + 1;
                }
                it
            },
        }
    }

    pub fn is_null(&self) -> (r: bool)
        ensures
            r == (*self is Null),
    {
        match self {
            Shape::Null(_) => true,
            _ => false,
        }
    }

    pub fn is_all_nodes(&self) -> (r: bool)
        ensures
            r == (*self is AllNodes),
    {
        match self {
            Shape::AllNodes(_) => true,
            _ => false,
        }
    }
}

/// Copies a list of values.
pub fn copy_values(v: &Vec<Value>) -> (r: Vec<Value>)
    ensures
        r@.len() == v@.len(),
        forall|i: int| 0 <= i < v@.len() ==> (#[trigger] r@[i])@ == v@[i]@,
{
    let mut out: Vec<Value> = Vec::new();
    let mut i: usize = 0;
    while i < v.len()
        invariant
            i <= v@.len(),
            out@.len() == i,
            forall|j: int| 0 <= j < i ==> (#[trigger] out@[j])@ == v@[j]@,
        decreases v@.len() - i,
    {
        out.push(v[i].copy());
        i = i + 1;
    }
    out
}

/// Whether two shapes are of the same kind.
pub open spec fn same_kind(a: Shape, b: Shape) -> bool {
    match (a, b) {
        (Shape::Lookup(_), Shape::Lookup(_)) => true,
        (Shape::Fixed(_), Shape::Fixed(_)) => true,
        (Shape::Null(_), Shape::Null(_)) => true,
        (Shape::AllNodes(_), Shape::AllNodes(_)) => true,
        (Shape::Intersect(_), Shape::Intersect(_)) => true,
        (Shape::NodesFrom(_), Shape::NodesFrom(_)) => true,
        (Shape::QuadFilter(_), Shape::QuadFilter(_)) => true,
        (Shape::Quads(_), Shape::Quads(_)) => true,
        (Shape::Save(_), Shape::Save(_)) => true,
        (Shape::Union(_), Shape::Union(_)) => true,
        (Shape::Unique(_), Shape::Unique(_)) => true,
        (Shape::IteratorShape(_), Shape::IteratorShape(_)) => true,
        (Shape::IntersectOpt(_), Shape::IntersectOpt(_)) => true,
        (Shape::Except(_), Shape::Except(_)) => true,
        (Shape::Page(_), Shape::Page(_)) => true,
        (Shape::Sort(_), Shape::Sort(_)) => true,
        (Shape::Filter(_), Shape::Filter(_)) => true,
        _ => false,
    }
}

/// Copies a list of shapes.
pub fn copy_shapes(v: &Vec<Shape>) -> (r: Vec<Shape>)
    ensures
        r@.len() == v@.len(),
        forall|i: int| 0 <= i < v@.len() ==> same_kind(#[trigger] r@[i], v@[i]),
    decreases v,
{
    let mut out: Vec<Shape> = Vec::new();
    let mut i: usize = 0;
    while i < v.len()
        invariant
            i <= v@.len(),
            out@.len() == i,
            forall|j: int| 0 <= j < i ==> same_kind(#[trigger] out@[j], v@[j]),
        decreases v@.len() - i,
    {
        out.push(v[i].copy());
        i = i + 1;
    }
    out
}

/// Copies a list of quad filters.
pub fn copy_quad_filters(v: &Vec<QuadFilter>) -> (r: Vec<QuadFilter>)
    ensures
        r@.len() == v@.len(),
        forall|i: int| 0 <= i < v@.len() ==> (#[trigger] r@[i]).dir == v@[i].dir,
    decreases v,
{
    let mut out: Vec<QuadFilter> = Vec::new();
    let mut i: usize = 0;
    while i < v.len()
        invariant
            i <= v@.len(),
            out@.len() == i,
            forall|j: int| 0 <= j < i ==> (#[trigger] out@[j]).dir == v@[j].dir,
        decreases v@.len() - i,
    {
        out.push(v[i].copy());
        i = i + 1;
    }
    out
}

/// Copies a list of value filters.
pub fn copy_value_filters(v: &Vec<ValueFilter>) -> (r: Vec<ValueFilter>)
    ensures
        r@.len() == v@.len(),
{
    let mut out: Vec<ValueFilter> = Vec::new();
    let mut i: usize = 0;
    while i < v.len()
        invariant
            i <= v@.len(),
            out@.len() == i,
        decreases v@.len() - i,
    {
        out.push(v[i].copy());
        i = i + 1;
    }
    out
}

impl QuadFilter {
    pub fn copy(&self) -> (r: QuadFilter)
        ensures
            r.dir == self.dir,
            r.values is Some <==> self.values is Some,
        decreases self,
    {
        QuadFilter {
            dir: self.dir,
            values: match &self.values {
                Some(v) => Some(Box::new(v.copy())),
                None => None,
            },
        }
    }
}

impl Shape {
    /// A copy of the shape, with copies of the shapes in it.
    pub fn copy(&self) -> (r: Shape)
        ensures
            same_kind(r, *self),
        decreases self,
    {
        match self {
            Shape::Lookup(l) => Shape::Lookup(Lookup(copy_values(&l.0))),
            Shape::Fixed(f) => Shape::Fixed(Fixed(crate::graph::iterator::fixed::copy_refs(&f.0))),
            Shape::Null(_) => Shape::Null(Null()),
            Shape::AllNodes(_) => Shape::AllNodes(AllNodes()),
            Shape::Intersect(i) => Shape::Intersect(Intersect(copy_shapes(&i.0))),
            Shape::NodesFrom(n) => Shape::NodesFrom(NodesFrom { dir: n.dir, quads: Box::new(n.quads.copy()) }),
            Shape::QuadFilter(qf) => Shape::QuadFilter(qf.copy()),
            Shape::Quads(q) => Shape::Quads(Quads(copy_quad_filters(&q.0))),
            Shape::Save(sv) => Shape::Save(Save {
                tags: copy_strings(&sv.tags),
                from: match &sv.from {
                    Some(f) => Some(Box::new(f.copy())),
                    None => None,
                },
            }),
            Shape::Union(u) => Shape::Union(Union(copy_shapes(&u.0))),
            Shape::Unique(u) => Shape::Unique(Unique { from: Box::new(u.from.copy()) }),
            Shape::IteratorShape(it) => Shape::IteratorShape(IteratorShape { it: it.it.copy(), sent: it.sent }),
            Shape::IntersectOpt(io) => Shape::IntersectOpt(IntersectOpt {
                sub: Intersect(copy_shapes(&io.sub.0)),
                opt: copy_shapes(&io.opt),
            }),
            Shape::Except(e) => Shape::Except(Except {
                exclude: match &e.exclude {
                    Some(x) => Some(Box::new(x.copy())),
                    None => None,
                },
                from: match &e.from {
                    Some(x) => Some(Box::new(x.copy())),
                    None => None,
                },
            }),
            Shape::Page(p) => Shape::Page(Page { from: Box::new(p.from.copy()), skip: p.skip, limit: p.limit }),
            Shape::Sort(st) => Shape::Sort(Sort { from: Box::new(st.from.copy()) }),
            Shape::Filter(f) => Shape::Filter(Filter { from: Box::new(f.from.copy()), filters: copy_value_filters(&f.filters) }),
        }
    }

    /// The rewrite of a lookup into the references the store gives its
    /// values (none when it knows none of them); other shapes are left as
    /// they are.
    pub fn optimize<Q: QuadStore>(&self, qs: &Q) -> (r: Option<Shape>)
        ensures
            match *self {
                Shape::Lookup(l) => if resolved_refs(qs, l.0@).len() == 0 {
                    r is None
                } else {
                    r matches Some(Shape::Fixed(f)) && refs_view(f.0@) == resolved_refs(qs, l.0@)
                },
                _ => r is None,
            },
    {
        match self {
            Shape::Lookup(l) => l.resolve(qs),
            _ => None,
        }
    }
}

/// The iterator tree of a shape over a store, once its lookups are
/// resolved.
pub fn build_iterator<Q: QuadStore>(qs: &Q, shape: Shape) -> (r: IterShape)
    ensures
        built_top(qs, shape, r),
{
    match shape.optimize(qs) {
        Some(s) => {
            proof {
                assert(s is Fixed);
            }
            s.build_iterator(qs)
        },
        None => shape.build_iterator(qs),
    }
}

/// The intersection of two shapes: the second alone when the first is all
/// nodes; the first widened when it is an intersection already.
pub fn intersect_shapes(s1: Shape, s2: Shape) -> (r: Shape)
    ensures
        s1 is AllNodes ==> r == s2,
        s1 matches Shape::Intersect(i1) ==> (r matches Shape::Intersect(i) && match s2 {
            Shape::Intersect(i2) => i.0@ == i1.0@ + i2.0@,
            _ => i.0@ == i1.0@.push(s2),
        }),
        !(s1 is AllNodes) && !(s1 is Intersect) ==> (r matches Shape::Intersect(i) && i.0@ == seq![s1, s2]),
{
    match s1 {
        Shape::AllNodes(_) => s2,
        Shape::Intersect(i1) => {
            let mut v = i1.0;
            match s2 {
                Shape::Intersect(i2) => {
                    let mut w = i2.0;
                    v.append(&mut w);
                },
                other => {
                    v.push(other);
                },
            }
            Shape::Intersect(Intersect(v))
        },
        other => {
            let mut v: Vec<Shape> = Vec::new();
            v.push(other);
            v.push(s2);
            proof {
                assert(v@ =~= seq![s1, s2]);
            }
            Shape::Intersect(Intersect(v))
        },
    }
}

/// The nodes of `main`, each with the tags of `opt` where it has them.
pub fn intersect_optional(main: Shape, opt: Shape) -> (r: Shape)
    ensures
        ({
            let optional = match opt {
                Shape::IntersectOpt(io) => io.sub.0@ + io.opt@,
                _ => seq![opt],
            };
            if optional.len() == 0 {
                r == main
            } else {
                match main {
                    Shape::Intersect(i) => r matches Shape::IntersectOpt(x) && x.sub.0@ == i.0@ && x.opt@ == optional,
                    Shape::IntersectOpt(io) => r matches Shape::IntersectOpt(x) && x.sub.0@ == io.sub.0@ && x.opt@ == io.opt@ + optional,
                    _ => r matches Shape::IntersectOpt(x) && x.sub.0@ == seq![main] && x.opt@ == optional,
                }
            }
        }),
{
    let ghost g_opt = opt;
    let mut optional: Vec<Shape> = match opt {
        Shape::IntersectOpt(io) => {
            let mut v = io.sub.0;
            let mut w = io.opt;
            v.append(&mut w);
            v
        },
        other => {
            let mut v: Vec<Shape> = Vec::new();
            v.push(other);
            proof {
                assert(v@ =~= seq![g_opt]);
            }
            v
        },
    };
    if optional.len() == 0 {
        return main;
    }
    match main {
        Shape::Intersect(i) => Shape::IntersectOpt(IntersectOpt { sub: i, opt: optional }),
        Shape::IntersectOpt(io) => {
            let mut o = io.opt;
            o.append(&mut optional);
            Shape::IntersectOpt(IntersectOpt { sub: io.sub, opt: o })
        },
        other => {
            let ghost g_main = other;
            let mut v: Vec<Shape> = Vec::new();
            v.push(other);
            proof {
                assert(v@ =~= seq![g_main]);
            }
            Shape::IntersectOpt(IntersectOpt { sub: Intersect(v), opt: optional })
        },
    }
}

/// The start and the goal corner of a step along quads: object to subject
/// when reversed, subject to object otherwise.
pub open spec fn start_dir(rev: bool) -> Direction {
    if rev { Direction::Object } else { Direction::Subject }
}

pub open spec fn goal_dir(rev: bool) -> Direction {
    if rev { Direction::Subject } else { Direction::Object }
}

fn start_of(rev: bool) -> (r: Direction)
    ensures
        r == start_dir(rev),
{
    if rev { Direction::Object } else { Direction::Subject }
}

fn goal_of(rev: bool) -> (r: Direction)
    ensures
        r == goal_dir(rev),
{
    if rev { Direction::Subject } else { Direction::Object }
}

/// The directions of a list of quad filters, in order.
pub open spec fn filter_dirs(v: Seq<QuadFilter>) -> Seq<Direction> {
    v.map_values(|f: QuadFilter| f.dir)
}

/// The directions and constraints of a list of quad filters, in order.
pub open spec fn filter_pairs(v: Seq<QuadFilter>) -> Seq<(Direction, Option<Box<Shape>>)> {
    v.map_values(|f: QuadFilter| (f.dir, f.values))
}

/// A filter on `d` by `s`, or none when `keep` is false.
pub open spec fn opt_filter(keep: bool, d: Direction, s: Shape) -> Seq<(Direction, Option<Box<Shape>>)> {
    if keep { seq![(d, Some(Box::new(s)))] } else { Seq::empty() }
}

/// The filter on the label, when a label shape is given and is not all nodes.
pub open spec fn label_filter(labels: Option<Shape>) -> Seq<(Direction, Option<Box<Shape>>)> {
    match labels {
        Some(l) => opt_filter(!(l is AllNodes), Direction::Label, l),
        None => Seq::empty(),
    }
}

/// `via`, recording the predicates under `tags` when there are some.
pub open spec fn tagged_via(via: Shape, tags: Option<Vec<String>>) -> Shape {
    match tags {
        Some(t) => if t@.len() > 0 { Shape::Save(Save { tags: t, from: Some(Box::new(via)) }) } else { via },
        None => via,
    }
}

/// The nodes one step from `from` along quads with a predicate in `via`
/// (and a label in `labels`): forward from subject to object, or backward
/// (`in_`). Each constraint that is all nodes is left out; non-empty tags
/// are recorded on the predicates.
pub fn new_in_out(from: Shape, via: Shape, labels: Option<Shape>, tags: Option<Vec<String>>, in_: bool) -> (r: Shape)
    ensures
        r matches Shape::NodesFrom(n) && n.dir == goal_dir(in_) && (*n.quads matches Shape::Quads(q)
            && filter_dirs(q.0@) == (if from is AllNodes { Seq::<Direction>::empty() } else { seq![start_dir(in_)] })
                + (if via is AllNodes && !(tags matches Some(t) && t@.len() > 0) { Seq::<Direction>::empty() } else { seq![Direction::Predicate] })
                + (match labels { Some(l) => if l is AllNodes { Seq::<Direction>::empty() } else { seq![Direction::Label] }, None => Seq::<Direction>::empty() })
            && filter_pairs(q.0@) == opt_filter(!(from is AllNodes), start_dir(in_), from)
                + opt_filter(!(tagged_via(via, tags) is AllNodes), Direction::Predicate, tagged_via(via, tags))
                + label_filter(labels)),
{
    let ghost g_from = from;
    let ghost g_tags = tags;
    let ghost g_labels = labels;
    let start = start_of(in_);
    let goal = goal_of(in_);
    let ghost g_via = via;
    let via2 = match tags {
        Some(t) => if t.len() > 0 {
            Shape::Save(Save { tags: t, from: Some(Box::new(via)) })
        } else {
            via
        },
        None => via,
    };
    let mut quads: Vec<QuadFilter> = Vec::new();
    let ghost from_all = from is AllNodes;
    if !from.is_all_nodes() {
        quads.push(QuadFilter { dir: start, values: Some(Box::new(from)) });
    }
    let ghost n0 = quads@.len();
    if !via2.is_all_nodes() {
        quads.push(QuadFilter { dir: Direction::Predicate, values: Some(Box::new(via2)) });
    }
    let ghost n1 = quads@.len();
    match labels {
        Some(l) => {
            if !l.is_all_nodes() {
                quads.push(QuadFilter { dir: Direction::Label, values: Some(Box::new(l)) });
            }
        },
        None => {},
    }
    proof {
        assert(filter_dirs(quads@) =~= (if from_all { Seq::<Direction>::empty() } else { seq![start_dir(in_)] })
            + (if g_via is AllNodes && !(tags matches Some(t) && t@.len() > 0) { Seq::<Direction>::empty() } else { seq![Direction::Predicate] })
            + (match labels { Some(l) => if l is AllNodes { Seq::<Direction>::empty() } else { seq![Direction::Label] }, None => Seq::<Direction>::empty() }));
        assert(filter_pairs(quads@) =~= opt_filter(!(g_from is AllNodes), start_dir(in_), g_from)
            + opt_filter(!(tagged_via(g_via, g_tags) is AllNodes), Direction::Predicate, tagged_via(g_via, g_tags))
            + label_filter(g_labels));
    }
    Shape::NodesFrom(NodesFrom { dir: goal, quads: Box::new(Shape::Quads(Quads(quads))) })
}

/// The nodes of `from` that have, along quads with a predicate in `via`
/// (and a label in `labels`), one of `nodes` at the other end: as subject
/// (or as object when reversed). Each constraint that is all nodes is left
/// out; with none left, the quads are unconstrained by nothing and no node
/// is produced.
pub fn has_labels(from: Shape, via: Shape, nodes: Shape, labels: Option<Shape>, rev: bool) -> (r: Shape)
    ensures
        ({
            let dirs = (if nodes is AllNodes { Seq::<Direction>::empty() } else { seq![goal_dir(rev)] })
                + (if via is AllNodes { Seq::<Direction>::empty() } else { seq![Direction::Predicate] })
                + (match labels { Some(l) => if l is AllNodes { Seq::<Direction>::empty() } else { seq![Direction::Label] }, None => Seq::<Direction>::empty() });
            let pairs = opt_filter(!(nodes is AllNodes), goal_dir(rev), nodes)
                + opt_filter(!(via is AllNodes), Direction::Predicate, via)
                + label_filter(labels);
            let step_ok = |x: Shape| x matches Shape::NodesFrom(n) && n.dir == start_dir(rev)
                && (*n.quads matches Shape::Quads(q) && filter_dirs(q.0@) == dirs && filter_pairs(q.0@) == pairs);
            if from is AllNodes {
                step_ok(r)
            } else {
                r matches Shape::Intersect(i) && i.0@.len() >= 1 && step_ok(i.0@.last())
            }
        }),
{
    let start = start_of(rev);
    let goal = goal_of(rev);
    let ghost g_nodes = nodes;
    let ghost g_via = via;
    let ghost g_labels = labels;
    let mut quads: Vec<QuadFilter> = Vec::new();
    if !nodes.is_all_nodes() {
        quads.push(QuadFilter { dir: goal, values: Some(Box::new(nodes)) });
    }
    if !via.is_all_nodes() {
        quads.push(QuadFilter { dir: Direction::Predicate, values: Some(Box::new(via)) });
    }
    match labels {
        Some(l) => {
            if !l.is_all_nodes() {
                quads.push(QuadFilter { dir: Direction::Label, values: Some(Box::new(l)) });
            }
        },
        None => {},
    }
    proof {
        assert(filter_dirs(quads@) =~= (if g_nodes is AllNodes { Seq::<Direction>::empty() } else { seq![goal_dir(rev)] })
            + (if g_via is AllNodes { Seq::<Direction>::empty() } else { seq![Direction::Predicate] })
            + (match g_labels { Some(l) => if l is AllNodes { Seq::<Direction>::empty() } else { seq![Direction::Label] }, None => Seq::<Direction>::empty() }));
        assert(filter_pairs(quads@) =~= opt_filter(!(g_nodes is AllNodes), goal_dir(rev), g_nodes)
            + opt_filter(!(g_via is AllNodes), Direction::Predicate, g_via)
            + label_filter(g_labels));
    }
    let step = Shape::NodesFrom(NodesFrom { dir: start, quads: Box::new(Shape::Quads(Quads(quads))) });
    let ghost g_step = step;
    let r = intersect_shapes(from, step);
    proof {
        if !(from is AllNodes) {
            assert(r matches Shape::Intersect(i) ==> i.0@.last() == g_step);
        }
    }
    r
}

/// The predicates of the quads with a node of `from` as subject (or as
/// object when reversed), each once.
pub fn predicates(from: Shape, rev: bool) -> (r: Shape)
    ensures
        r matches Shape::Unique(u) && (*u.from matches Shape::NodesFrom(n) && n.dir == Direction::Predicate
            && (*n.quads matches Shape::Quads(q) && q.0@.len() == 1 && q.0@[0].dir == start_dir(rev)
                && q.0@[0].values == Some(Box::new(from)))),
{
    let dir = start_of(rev);
    let mut v: Vec<QuadFilter> = Vec::new();
    v.push(QuadFilter { dir, values: Some(Box::new(from)) });
    Shape::Unique(Unique { from: Box::new(Shape::NodesFrom(NodesFrom { dir: Direction::Predicate, quads: Box::new(Shape::Quads(Quads(v))) })) })
}

/// The nodes of `from` that are the subject (or object when reversed) of
/// some quad, with the quad's predicate recorded under `tag`.
pub fn save_predicates(from: Shape, rev: bool, tag: String) -> (r: Shape)
    ensures
        ({
            let step_ok = |x: Shape| x matches Shape::NodesFrom(n) && n.dir == start_dir(rev)
                && (*n.quads matches Shape::Quads(q) && q.0@.len() == 1 && q.0@[0].dir == Direction::Predicate);
            if from is AllNodes {
                step_ok(r)
            } else {
                r matches Shape::Intersect(i) && i.0@.len() >= 1 && step_ok(i.0@.last())
            }
        }),
{
    let mut tags: Vec<String> = Vec::new();
    tags.push(tag);
    let preds = Shape::Save(Save { tags, from: Some(Box::new(AllNodes::new())) });
    let start = start_of(rev);
    let mut v: Vec<QuadFilter> = Vec::new();
    v.push(QuadFilter { dir: Direction::Predicate, values: Some(Box::new(preds)) });
    let step = Shape::NodesFrom(NodesFrom { dir: start, quads: Box::new(Shape::Quads(Quads(v))) });
    let ghost g_step = step;
    let r = intersect_shapes(from, step);
    proof {
        if !(from is AllNodes) {
            assert(r matches Shape::Intersect(i) ==> i.0@.last() == g_step);
        }
    }
    r
}

/// The labels of the quads with a node of `from` as subject or object,
/// each once.
pub fn labels(from: Shape) -> (r: Shape)
    ensures
        r matches Shape::Unique(u) && (*u.from matches Shape::NodesFrom(n) && n.dir == Direction::Label
            && (*n.quads matches Shape::Union(un) && un.0@.len() == 2)),
{
    let from2 = from.copy();
    let mut a: Vec<QuadFilter> = Vec::new();
    a.push(QuadFilter { dir: Direction::Subject, values: Some(Box::new(from)) });
    let mut b: Vec<QuadFilter> = Vec::new();
    b.push(QuadFilter { dir: Direction::Object, values: Some(Box::new(from2)) });
    let mut u: Vec<Shape> = Vec::new();
    u.push(Shape::Quads(Quads(a)));
    u.push(Shape::Quads(Quads(b)));
    Shape::Unique(Unique { from: Box::new(Shape::NodesFrom(NodesFrom { dir: Direction::Label, quads: Box::new(Shape::Union(Union(u))) })) })
}

/// The nodes of `from` with a quad from them along a predicate in `via`,
/// the other end recorded under `tag`; as an optional match when `opt`.
/// A label constraint is added only when it is all nodes.
pub fn save_via_labels(from: Shape, via: Shape, labels: Option<Shape>, tag: String, rev: bool, opt: bool) -> (r: Shape)
    ensures
        opt ==> r is IntersectOpt,
        !opt && !(from is AllNodes) ==> r is Intersect,
{
    let mut tags: Vec<String> = Vec::new();
    tags.push(tag);
    let nodes = Shape::Save(Save { tags, from: Some(Box::new(AllNodes::new())) });
    let start = start_of(rev);
    let goal = goal_of(rev);
    let mut quads: Vec<QuadFilter> = Vec::new();
    quads.push(QuadFilter { dir: goal, values: Some(Box::new(nodes)) });
    quads.push(QuadFilter { dir: Direction::Predicate, values: Some(Box::new(via)) });
    match labels {
        Some(l) => {
            if l.is_all_nodes() {
                quads.push(QuadFilter { dir: Direction::Label, values: Some(Box::new(l)) });
            }
        },
        None => {},
    }
    let save = Shape::NodesFrom(NodesFrom { dir: start, quads: Box::new(Shape::Quads(Quads(quads))) });
    if opt {
        intersect_optional(from, save)
    } else {
        intersect_shapes(from, save)
    }
}

impl Filter {
    /// The nodes of `nodes` that pass all `filters`: `nodes` itself when
    /// there are none; the filters are added to those of a filter shape.
    pub fn new(nodes: Shape, filters: Vec<ValueFilter>) -> (r: Shape)
        ensures
            filters@.len() == 0 ==> r == nodes,
            filters@.len() > 0 ==> (r matches Shape::Filter(f) && match nodes {
                Shape::Filter(g) => f.from == g.from && f.filters@ == g.filters@ + filters@,
                _ => *f.from == nodes && f.filters@ == filters@,
            }),
    {
        if filters.len() == 0 {
            return nodes;
        }
        match nodes {
            Shape::Filter(g) => {
                let mut fs = g.filters;
                let mut more = filters;
                fs.append(&mut more);
                Shape::Filter(Filter { from: g.from, filters: fs })
            },
            other => Shape::Filter(Filter { from: Box::new(other), filters }),
        }
    }
}

impl Quads {
    /// Adds filters that the quads must also pass.
    pub fn interset(&mut self, q: Vec<QuadFilter>)
        ensures
            final(self).0@ == old(self).0@ + q@,
    {
        let mut q = q;
        self.0.append(&mut q);
    }
}

impl IntersectOpt {
    /// Adds shapes the nodes must be in.
    pub fn add(&mut self, arr: Vec<Shape>)
        ensures
            final(self).sub.0@ == old(self).sub.0@ + arr@,
            final(self).opt@ == old(self).opt@,
    {
        let mut arr = arr;
        self.sub.0.append(&mut arr);
    }

    /// Adds optional shapes.
    pub fn add_optional(&mut self, arr: Vec<Shape>)
        ensures
            final(self).opt@ == old(self).opt@ + arr@,
            final(self).sub.0@ == old(self).sub.0@,
    {
        let mut arr = arr;
        self.opt.append(&mut arr);
    }
}

} // verus!
