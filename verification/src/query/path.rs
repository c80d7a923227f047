//! Query paths: a start and a stack of morphisms, turned into a shape by
//! applying the morphisms in order, and reversed by reversing each of them
//! in the opposite order.
use vstd::prelude::*;
use crate::graph::value::Value;
use crate::graph::quad::QuadStore;
use crate::graph::iterator::Shape as IterShape;
use crate::graph::iterator::copy_strings;
use crate::query::shape::{
    Shape, Lookup, AllNodes, Union, Unique, Save, Except, Page, Sort, Filter, new_in_out, has_labels,
    save_via_labels, predicates, save_predicates, labels, copy_values, copy_value_filters, build_iterator, built_top,
};
use crate::query::morphism::{
    Morphism, IsMorphism, InMorphism, OutMorphism, BothMorphism, FollowMorphism, FollowRecursiveMorphism, AndMorphism,
    OrMorphism, FilterMorphism, TagMorphism, ExceptMorphism, UniqueMorphism, HasShapeMorphism, LimitMorphism, SkipMorphism,
    OrderMorphism, SaveMorphism, PredicatesMorphism, SavePredicatesMorphism, LabelsMorphism, LabelContextMorphism, join,
    leading_all, applied_top, copy_opt_tags,
};
use crate::query::filter::ValueFilter;

verus! {

/// What the steps of a path are restricted to: the labels of the quads.
pub struct PathContext {
    pub label_set: Option<Shape>,
}

/// A path: its steps, and the context it starts in.
pub struct Path {
    pub stack: Vec<Morphism>,
    pub base_context: PathContext,
}

/// What a step goes along: any predicate, the given ones, or those a path
/// reaches.
pub enum Via {
    All,
    Values(Vec<Value>),
    Path(Path),
}

/// Copies an optional shape.
pub fn copy_opt_shape(s: &Option<Shape>) -> (r: Option<Shape>)
    ensures
        r is Some <==> s is Some,
{
    match s {
        Some(x) => Some(x.copy()),
        None => None,
    }
}

impl PathContext {
    pub fn copy(&self) -> (r: PathContext)
        ensures
            r.label_set is Some <==> self.label_set is Some,
    {
        PathContext { label_set: copy_opt_shape(&self.label_set) }
    }
}

impl Via {
    /// The shape of what the step goes along: all nodes, a lookup of the
    /// values, or the shape of the path.
    pub fn as_shape(&self) -> (r: Shape)
        ensures
            match self {
                Via::All => r is AllNodes,
                Via::Values(v) => r matches Shape::Lookup(l) && l.0@.len() == v@.len()
                    && forall|j: int| 0 <= j < v@.len() ==> (#[trigger] l.0@[j])@ == v@[j]@,
                Via::Path(_) => true,
            },
        decreases self,
    {
        match self {
            Via::All => AllNodes::new(),
            Via::Path(p) => p.shape_from(AllNodes::new()),
            Via::Values(v) => Shape::Lookup(Lookup(copy_values(v))),
        }
    }

    pub fn copy(&self) -> (r: Via)
        ensures
            match (self, r) {
                (Via::All, Via::All) => true,
                (Via::Values(a), Via::Values(b)) => a@.len() == b@.len()
                    && forall|j: int| 0 <= j < a@.len() ==> (#[trigger] b@[j])@ == a@[j]@,
                (Via::Path(a), Via::Path(b)) => a.stack@.len() == b.stack@.len()
                    && forall|j: int| 0 <= j < a.stack@.len() ==> same_morphism_kind(#[trigger] b.stack@[j], a.stack@[j]),
                _ => false,
            },
        decreases self,
    {
        match self {
            Via::All => Via::All,
            Via::Values(v) => Via::Values(copy_values(v)),
            Via::Path(p) => Via::Path(p.copy()),
        }
    }
}

/// The quads of a step along `via` with the tags `tags` (a copy of
/// `orig`) record the predicates under those tags.
proof fn lemma_in_out_records(r: Shape, from: Shape, via: Shape, labels: Option<Shape>, tags: Option<Vec<String>>,
    orig: Option<Vec<String>>, in_: bool)
    requires
        r matches Shape::NodesFrom(n) && (*n.quads matches Shape::Quads(q)
            && crate::query::shape::filter_pairs(q.0@)
                == crate::query::shape::opt_filter(!(from is AllNodes), crate::query::shape::start_dir(in_), from)
                + crate::query::shape::opt_filter(!(crate::query::shape::tagged_via(via, tags) is AllNodes),
                    crate::graph::quad::Direction::Predicate, crate::query::shape::tagged_via(via, tags))
                + crate::query::shape::label_filter(labels)),
        match (orig, tags) {
            (Some(a), Some(b)) => a@ == b@,
            (None, None) => true,
            _ => false,
        },
    ensures
        r matches Shape::NodesFrom(n) && crate::query::morphism::records_predicates(*n.quads, orig),
{
    let n = r->NodesFrom_0;
    let q = n.quads->Quads_0;
    if orig matches Some(t) && t@.len() > 0 {
        let t2 = tags->0;
        let a = crate::query::shape::opt_filter(!(from is AllNodes), crate::query::shape::start_dir(in_), from);
        let k = a.len() as int;
        let fp = crate::query::shape::filter_pairs(q.0@);
        assert(fp.len() == q.0@.len());
        assert(fp.len() > k);
        assert(fp[k] == (crate::graph::quad::Direction::Predicate, Some(Box::new(crate::query::shape::tagged_via(via, tags)))));
        assert(fp[k] == (q.0@[k].dir, q.0@[k].values));
    }
}

/// A shape built by the steps `steps` ends as the last of them does.
proof fn lemma_shape_from_ends_like(steps: Seq<Morphism>, r: Shape)
    requires
        steps.len() > 0 ==> exists|input: Shape| #[trigger] applied_top(steps.last(), input, r),
    ensures
        crate::query::morphism::ends_like(steps, r),
{
    if steps.len() > 0 {
        let input = choose|input: Shape| #[trigger] applied_top(steps.last(), input, r);
    }
}

/// Copies a list of morphisms.
pub fn copy_morphisms(v: &Vec<Morphism>) -> (r: Vec<Morphism>)
    ensures
        r@.len() == v@.len(),
        forall|i: int| 0 <= i < v@.len() ==> same_morphism_kind(#[trigger] r@[i], v@[i]),
    decreases v,
{
    let mut out: Vec<Morphism> = Vec::new();
    let mut i: usize = 0;
    while i < v.len()
        invariant
            i <= v@.len(),
            out@.len() == i,
            forall|j: int| 0 <= j < i ==> same_morphism_kind(#[trigger] out@[j], v@[j]),
        decreases v@.len() - i,
    {
        out.push(v[i].copy());
        i = i + 1;
    }
    out
}

impl Morphism {
    /// A copy of the morphism.
    pub fn copy(&self) -> (r: Morphism)
        ensures
            same_morphism_kind(r, *self),
        decreases self,
    {
        match self {
            Morphism::Is(x) => Morphism::Is(IsMorphism { nodes: copy_values(&x.nodes) }),
            Morphism::In(x) => Morphism::In(InMorphism { tags: copy_opt_tags(&x.tags), via: x.via.copy() }),
            Morphism::Out(x) => Morphism::Out(OutMorphism { tags: copy_opt_tags(&x.tags), via: x.via.copy() }),
            Morphism::Both(x) => Morphism::Both(BothMorphism { tags: copy_opt_tags(&x.tags), via: x.via.copy() }),
            Morphism::Follow(x) => Morphism::Follow(FollowMorphism { path: x.path.copy() }),
            Morphism::FollowRecursive(x) => Morphism::FollowRecursive(FollowRecursiveMorphism {
                path: x.path.copy(),
                max_depth: x.max_depth,
                depth_tags: copy_strings(&x.depth_tags),
            }),
            Morphism::And(x) => Morphism::And(AndMorphism { path: x.path.copy() }),
            Morphism::Or(x) => Morphism::Or(OrMorphism { path: x.path.copy() }),
            Morphism::Filter(x) => Morphism::Filter(FilterMorphism { filters: copy_value_filters(&x.filters) }),
            Morphism::Tag(x) => Morphism::Tag(TagMorphism { tags: copy_strings(&x.tags) }),
            Morphism::Except(x) => Morphism::Except(ExceptMorphism { path: x.path.copy() }),
            Morphism::Unique(_) => Morphism::Unique(UniqueMorphism()),
            Morphism::HasShape(x) => Morphism::HasShape(HasShapeMorphism { via: x.via.copy(), rev: x.rev, nodes: x.nodes.copy() }),
            Morphism::Limit(x) => Morphism::Limit(LimitMorphism { limit: x.limit }),
            Morphism::Skip(x) => Morphism::Skip(SkipMorphism { offset: x.offset }),
            Morphism::Order(_) => Morphism::Order(OrderMorphism()),
            Morphism::Save(x) => Morphism::Save(SaveMorphism { via: x.via.copy(), tag: x.tag.clone(), rev: x.rev, opt: x.opt }),
            Morphism::Predicates(x) => Morphism::Predicates(PredicatesMorphism { rev: x.rev }),
            Morphism::SavePredicates(x) => Morphism::SavePredicates(SavePredicatesMorphism { tag: x.tag.clone(), rev: x.rev }),
            Morphism::Labels(_) => Morphism::Labels(LabelsMorphism()),
            Morphism::LabelContext(x) => Morphism::LabelContext(LabelContextMorphism {
                tags: copy_strings(&x.tags),
                via: x.via.copy(),
                path: copy_opt_shape(&x.path),
            }),
        }
    }

    /// Whether the morphism records tags.
    pub fn is_tag(&self) -> (r: bool)
        ensures
            r == (*self is Tag),
    {
        match self {
            Morphism::Tag(_) => true,
            _ => false,
        }
    }

    /// The tags the morphism records or names.
    pub fn tags(&self) -> (r: Option<Vec<String>>)
        ensures
            match *self {
                Morphism::Tag(t) => r matches Some(v) && v@ == t.tags@,
                Morphism::In(x) => same_tags(r, x.tags),
                Morphism::Out(x) => same_tags(r, x.tags),
                Morphism::Both(x) => same_tags(r, x.tags),
                _ => r is None,
            },
    {
        match self {
            Morphism::Tag(t) => Some(copy_strings(&t.tags)),
            Morphism::In(x) => copy_opt_tags(&x.tags),
            Morphism::Out(x) => copy_opt_tags(&x.tags),
            Morphism::Both(x) => copy_opt_tags(&x.tags),
            _ => None,
        }
    }

    /// The shape of the nodes reached from `shape` by the morphism, and the
    /// context for the steps after it when it changes.
    pub fn apply(&self, shape: Shape, ctx: &PathContext) -> (r: (Shape, Option<PathContext>))
        ensures
            applied_top(*self, shape, r.0),
            r.1 is Some <==> *self is LabelContext,
        decreases self,
    {
        match self {
            Morphism::Is(x) => {
                if x.nodes.len() == 0 {
                    return (shape, None);
                }
                let s = Shape::Lookup(Lookup(copy_values(&x.nodes)));
                if shape.is_all_nodes() {
                    return (s, None);
                }
                let ghost g = shape;
                let mut v: Vec<Shape> = Vec::new();
                v.push(s);
                v.push(shape);
                proof {
                    assert(leading_all(v@) == 0);
                    assert(v@.skip(0) =~= v@);
                }
                (join(v), None)
            },
            Morphism::In(x) => {
                let ghost from = shape;
                let v = x.via.as_shape();
                let l = copy_opt_shape(&ctx.label_set);
                let t = copy_opt_tags(&x.tags);
                let ghost gv = v;
                let ghost gl = l;
                let ghost gt = t;
                let r = new_in_out(shape, v, l, t, true);
                proof {
                    lemma_in_out_records(r, from, gv, gl, gt, x.tags, true);
                }
                (r, None)
            },
            Morphism::Out(x) => {
                let ghost from = shape;
                let v = x.via.as_shape();
                let l = copy_opt_shape(&ctx.label_set);
                let t = copy_opt_tags(&x.tags);
                let ghost gv = v;
                let ghost gl = l;
                let ghost gt = t;
                let r = new_in_out(shape, v, l, t, false);
                proof {
                    lemma_in_out_records(r, from, gv, gl, gt, x.tags, false);
                }
                (r, None)
            },
            Morphism::Both(x) => {
                let other = shape.copy();
                let a = new_in_out(shape, x.via.as_shape(), copy_opt_shape(&ctx.label_set), copy_opt_tags(&x.tags), true);
                let b = new_in_out(other, x.via.as_shape(), copy_opt_shape(&ctx.label_set), copy_opt_tags(&x.tags), false);
                let mut u: Vec<Shape> = Vec::new();
                u.push(a);
                u.push(b);
                (Shape::Union(Union(u)), None)
            },
            Morphism::Follow(x) => {
                let r = x.path.shape_from(shape);
                proof {
                    lemma_shape_from_ends_like(x.path.stack@, r);
                }
                (r, None)
            },
            Morphism::FollowRecursive(x) => {
                let r = x.path.shape_from(shape);
                proof {
                    lemma_shape_from_ends_like(x.path.stack@, r);
                }
                (r, None)
            },
            Morphism::And(x) => {
                let ghost g = shape;
                let p = x.path.shape_from(AllNodes::new());
                let mut v: Vec<Shape> = Vec::new();
                v.push(shape);
                v.push(p);
                proof {
                    if !(g is AllNodes) {
                        assert(leading_all(v@) == 0);
                        assert(v@.skip(0) =~= v@);
                    }
                }
                (join(v), None)
            },
            Morphism::Or(x) => {
                let p = x.path.shape_from(AllNodes::new());
                let mut v: Vec<Shape> = Vec::new();
                v.push(shape);
                v.push(p);
                (Shape::Union(Union(v)), None)
            },
            Morphism::Filter(x) => (Filter::new(shape, copy_value_filters(&x.filters)), None),
            Morphism::Tag(x) => (Shape::Save(Save { tags: copy_strings(&x.tags), from: Some(Box::new(shape)) }), None),
            Morphism::Except(x) => {
                let ghost g = shape;
                let ex = Shape::Except(Except {
                    from: Some(Box::new(AllNodes::new())),
                    exclude: Some(Box::new(x.path.shape_from(AllNodes::new()))),
                });
                let mut v: Vec<Shape> = Vec::new();
                v.push(shape);
                v.push(ex);
                proof {
                    if !(g is AllNodes) {
                        assert(leading_all(v@) == 0);
                        assert(v@.skip(0) =~= v@);
                    }
                }
                (join(v), None)
            },
            Morphism::Unique(_) => (Shape::Unique(Unique { from: Box::new(shape) }), None),
            Morphism::HasShape(x) => (has_labels(shape, x.via.as_shape(), x.nodes.copy(), copy_opt_shape(&ctx.label_set), x.rev), None),
            Morphism::Limit(x) => {
                if x.limit <= 0 {
                    return (shape, None);
                }
                (Shape::Page(Page { from: Box::new(shape), limit: x.limit, skip: 0 }), None)
            },
            Morphism::Skip(x) => {
                if x.offset == 0 {
                    return (shape, None);
                }
                (Shape::Page(Page { from: Box::new(shape), limit: 0, skip: x.offset }), None)
            },
            Morphism::Order(_) => (Shape::Sort(Sort { from: Box::new(shape) }), None),
            Morphism::Save(x) => (save_via_labels(shape, x.via.as_shape(), copy_opt_shape(&ctx.label_set), x.tag.clone(), x.rev, x.opt), None),
            Morphism::Predicates(x) => (predicates(shape, x.rev), None),
            Morphism::SavePredicates(x) => (save_predicates(shape, x.rev, x.tag.clone()), None),
            Morphism::Labels(_) => (labels(shape), None),
            Morphism::LabelContext(x) => (shape, Some(PathContext { label_set: copy_opt_shape(&x.path) })),
        }
    }

    /// The morphism that undoes this one, and the context for the
    /// reversed steps after it when it changes. In and out are swapped,
    /// followed paths are reversed, and a label context restores the
    /// context it was reached with; the other morphisms stay as they are.
    pub fn reversal(&self, ctx: &mut PathContext) -> (r: (Morphism, Option<PathContext>))
        ensures
            *self is In ==> r.0 is Out,
            *self is Out ==> r.0 is In,
            *self is Follow ==> r.0 is Follow,
            *self is FollowRecursive ==> r.0 is FollowRecursive,
            !(*self is In) && !(*self is Out) ==> same_morphism_kind(r.0, *self),
            reversed_kind(r.0, *self),
            *self matches Morphism::In(x) ==> (r.0 matches Morphism::Out(y) && same_tags(y.tags, x.tags)),
            *self matches Morphism::Out(x) ==> (r.0 matches Morphism::In(y) && same_tags(y.tags, x.tags)),
            *self matches Morphism::Follow(x) ==> (r.0 matches Morphism::Follow(y)
                && y.path.stack@.len() == x.path.stack@.len() && kinds_reversed(y.path.stack@, x.path.stack@)),
            *self matches Morphism::FollowRecursive(x) ==> (r.0 matches Morphism::FollowRecursive(y)
                && y.path.stack@.len() == x.path.stack@.len() && kinds_reversed(y.path.stack@, x.path.stack@)
                && y.max_depth == x.max_depth && y.depth_tags@ == x.depth_tags@),
            *self is LabelContext ==> r.1 is Some && (final(ctx).label_set is Some <==> self->LabelContext_0.path is Some),
            !(*self is LabelContext) ==> r.1 is None && *final(ctx) == *old(ctx),
        decreases self,
    {
        match self {
            Morphism::In(x) => (Morphism::Out(OutMorphism { tags: copy_opt_tags(&x.tags), via: x.via.copy() }), None),
            Morphism::Out(x) => (Morphism::In(InMorphism { tags: copy_opt_tags(&x.tags), via: x.via.copy() }), None),
            Morphism::Follow(x) => (Morphism::Follow(FollowMorphism { path: x.path.reverse() }), None),
            Morphism::FollowRecursive(x) => (Morphism::FollowRecursive(FollowRecursiveMorphism {
                path: x.path.reverse(),
                max_depth: x.max_depth,
                depth_tags: copy_strings(&x.depth_tags),
            }), None),
            Morphism::LabelContext(x) => {
                let out = ctx.copy();
                ctx.label_set = copy_opt_shape(&x.path);
                (self.copy(), Some(out))
            },
            _ => (self.copy(), None),
        }
    }
}

/// Whether two optional tag lists hold the same tags.
pub open spec fn same_tags(a: Option<Vec<String>>, b: Option<Vec<String>>) -> bool {
    match (a, b) {
        (Some(x), Some(y)) => x@ == y@,
        (None, None) => true,
        _ => false,
    }
}

/// Whether `a` is of the kind that reverses a morphism of the kind of `b`:
/// in for out, out for in, and the same kind otherwise.
pub open spec fn reversed_kind(a: Morphism, b: Morphism) -> bool {
    if b is In {
        a is Out
    } else if b is Out {
        a is In
    } else {
        same_morphism_kind(a, b)
    }
}

/// Whether the step `m` records nodes under `tag`.
pub open spec fn records_tag(m: Morphism, tag: Seq<char>) -> bool {
    m matches Morphism::Tag(t) && exists|j: int| 0 <= j < t.tags@.len() && (#[trigger] t.tags@[j])@ == tag
}

/// Whether the steps of `a` are, by kind, those of `b` reversed, last first.
pub open spec fn kinds_reversed(a: Seq<Morphism>, b: Seq<Morphism>) -> bool {
    &&& a.len() == b.len()
    &&& forall|i: int| 0 <= i < a.len() ==> reversed_kind(#[trigger] a[i], b[b.len() - 1 - i])
}

/// Reversing a path twice gives back a path with steps of the same kinds,
/// in the same order.
pub proof fn lemma_reverse_twice_kinds(p: Seq<Morphism>, q: Seq<Morphism>, r: Seq<Morphism>)
    requires
        kinds_reversed(q, p),
        kinds_reversed(r, q),
    ensures
        r.len() == p.len(),
        forall|i: int| 0 <= i < p.len() ==> same_morphism_kind(#[trigger] r[i], p[i]),
{
    assert forall|i: int| 0 <= i < p.len() implies same_morphism_kind(#[trigger] r[i], p[i]) by {
        let j = q.len() - 1 - i;
        assert(reversed_kind(r[i], q[j]));
        assert(reversed_kind(q[j], p[p.len() - 1 - j]));
        assert(p.len() - 1 - j == i);
    }
}

/// Whether two morphisms are of the same kind.
pub open spec fn same_morphism_kind(a: Morphism, b: Morphism) -> bool {
    match (a, b) {
        (Morphism::Is(_), Morphism::Is(_)) => true,
        (Morphism::In(_), Morphism::In(_)) => true,
        (Morphism::Out(_), Morphism::Out(_)) => true,
        (Morphism::Both(_), Morphism::Both(_)) => true,
        (Morphism::Follow(_), Morphism::Follow(_)) => true,
        (Morphism::FollowRecursive(_), Morphism::FollowRecursive(_)) => true,
        (Morphism::And(_), Morphism::And(_)) => true,
        (Morphism::Or(_), Morphism::Or(_)) => true,
        (Morphism::Filter(_), Morphism::Filter(_)) => true,
        (Morphism::Tag(_), Morphism::Tag(_)) => true,
        (Morphism::Except(_), Morphism::Except(_)) => true,
        (Morphism::Unique(_), Morphism::Unique(_)) => true,
        (Morphism::HasShape(_), Morphism::HasShape(_)) => true,
        (Morphism::Limit(_), Morphism::Limit(_)) => true,
        (Morphism::Skip(_), Morphism::Skip(_)) => true,
        (Morphism::Order(_), Morphism::Order(_)) => true,
        (Morphism::Save(_), Morphism::Save(_)) => true,
        (Morphism::Predicates(_), Morphism::Predicates(_)) => true,
        (Morphism::SavePredicates(_), Morphism::SavePredicates(_)) => true,
        (Morphism::Labels(_), Morphism::Labels(_)) => true,
        (Morphism::LabelContext(_), Morphism::LabelContext(_)) => true,
        _ => false,
    }
}

impl Path {
    /// A path that starts at the nodes with the given values.
    pub fn start_morphism(nodes: Vec<Value>) -> (r: Path)
        ensures
            r.stack@.len() == 1,
            r.stack@[0] == Morphism::Is(IsMorphism { nodes }),
            r.base_context.label_set is None,
    {
        Path::start_path(nodes)
    }

    /// A path that starts at the nodes with the given values.
    pub fn start_path(nodes: Vec<Value>) -> (r: Path)
        ensures
            r.stack@.len() == 1,
            r.stack@[0] == Morphism::Is(IsMorphism { nodes }),
            r.base_context.label_set is None,
    {
        let mut v: Vec<Morphism> = Vec::new();
        v.push(Morphism::Is(IsMorphism { nodes }));
        Path::new(v)
    }

    pub fn new(stack: Vec<Morphism>) -> (r: Path)
        ensures
            r.stack@ == stack@,
            r.base_context.label_set is None,
    {
        Path { stack, base_context: PathContext { label_set: None } }
    }

    pub fn copy(&self) -> (r: Path)
        ensures
            r.stack@.len() == self.stack@.len(),
            forall|i: int| 0 <= i < self.stack@.len() ==> same_morphism_kind(#[trigger] r.stack@[i], self.stack@[i]),
        decreases self,
    {
        Path { stack: copy_morphisms(&self.stack), base_context: self.base_context.copy() }
    }

    /// Keeps the nodes with the given values.
    pub fn is(&mut self, nodes: Vec<Value>)
        ensures
            final(self).stack@ == old(self).stack@.push(Morphism::Is(IsMorphism { nodes })),
            final(self).base_context == old(self).base_context,
    {
        self.stack.push(Morphism::Is(IsMorphism { nodes }));
    }

    /// Goes from objects to subjects along `via`, recording the predicates
    /// under the tags.
    pub fn in_with_tags(&mut self, tags: Vec<String>, via: Via)
        ensures
            final(self).stack@ == old(self).stack@.push(Morphism::In(InMorphism { tags: Some(tags), via })),
            final(self).base_context == old(self).base_context,
    {
        self.stack.push(Morphism::In(InMorphism { tags: Some(tags), via }));
    }

    /// Goes from subjects to objects along `via`.
    pub fn out_with_tags(&mut self, tags: Vec<String>, via: Via)
        ensures
            final(self).stack@ == old(self).stack@.push(Morphism::Out(OutMorphism { tags: Some(tags), via })),
            final(self).base_context == old(self).base_context,
    {
        self.stack.push(Morphism::Out(OutMorphism { tags: Some(tags), via }));
    }

    /// Goes both ways along `via`.
    pub fn both_with_tags(&mut self, tags: Vec<String>, via: Via)
        ensures
            final(self).stack@ == old(self).stack@.push(Morphism::Both(BothMorphism { tags: Some(tags), via })),
            final(self).base_context == old(self).base_context,
    {
        self.stack.push(Morphism::Both(BothMorphism { tags: Some(tags), via }));
    }

    /// Follows a path.
    pub fn follow(&mut self, path: Path)
        ensures
            final(self).stack@ == old(self).stack@.push(Morphism::Follow(FollowMorphism { path })),
            final(self).base_context == old(self).base_context,
    {
        self.stack.push(Morphism::Follow(FollowMorphism { path }));
    }

    /// Follows a path backwards.
    pub fn follow_reverse(&mut self, path: Path)
        ensures
            final(self).stack@.len() == old(self).stack@.len() + 1,
            final(self).stack@.drop_last() == old(self).stack@,
            final(self).stack@.last() is Follow,
            final(self).stack@.last() matches Morphism::Follow(m) && kinds_reversed(m.path.stack@, path.stack@),
            final(self).base_context == old(self).base_context,
    {
        let r = path.reverse();
        self.stack.push(Morphism::Follow(FollowMorphism { path: r }));
        proof {
            assert(self.stack@.drop_last() =~= old(self).stack@);
        }
    }

    /// Follows the path (or the predicates) given by `via` again and again.
    pub fn follow_recursive(&mut self, via: Via, max_depth: i32, tags: Vec<String>)
        requires
            !(via is All),
        ensures
            final(self).stack@.len() == old(self).stack@.len() + 1,
            final(self).stack@.drop_last() == old(self).stack@,
            final(self).stack@.last() matches Morphism::FollowRecursive(f) && f.max_depth == max_depth && f.depth_tags == tags,
            final(self).base_context == old(self).base_context,
            (via matches Via::Path(p) ==> (final(self).stack@.last() matches Morphism::FollowRecursive(f) && f.path == p)),
            (via matches Via::Values(v) ==> (final(self).stack@.last() matches Morphism::FollowRecursive(f)
                && f.path.stack@ == seq![Morphism::Is(IsMorphism { nodes: v })]
                && f.path.base_context.label_set is None)),
    {
        let path = match via {
            Via::Values(v) => Path::start_morphism(v),
            Via::Path(p) => p,
            Via::All => Path::new(Vec::new()),
        };
        self.stack.push(Morphism::FollowRecursive(FollowRecursiveMorphism { path, max_depth, depth_tags: tags }));
        proof {
            assert(self.stack@.drop_last() =~= old(self).stack@);
        }
    }

    /// Keeps the nodes also reached by a path.
    pub fn and(&mut self, path: Path)
        ensures
            final(self).stack@ == old(self).stack@.push(Morphism::And(AndMorphism { path })),
            final(self).base_context == old(self).base_context,
    {
        self.stack.push(Morphism::And(AndMorphism { path }));
    }

    /// Adds the nodes reached by a path.
    pub fn or(&mut self, path: Path)
        ensures
            final(self).stack@ == old(self).stack@.push(Morphism::Or(OrMorphism { path })),
            final(self).base_context == old(self).base_context,
    {
        self.stack.push(Morphism::Or(OrMorphism { path }));
    }

    /// Keeps the nodes whose values pass the filters.
    pub fn filters(&mut self, filters: Vec<ValueFilter>)
        ensures
            final(self).stack@ == old(self).stack@.push(Morphism::Filter(FilterMorphism { filters })),
            final(self).base_context == old(self).base_context,
    {
        self.stack.push(Morphism::Filter(FilterMorphism { filters }));
    }

    /// Records the nodes under tags.
    pub fn tag(&mut self, tags: Vec<String>)
        ensures
            final(self).stack@ == old(self).stack@.push(Morphism::Tag(TagMorphism { tags })),
            final(self).base_context == old(self).base_context,
    {
        self.stack.push(Morphism::Tag(TagMorphism { tags }));
    }

    /// Drops the nodes reached by a path.
    pub fn except(&mut self, path: Path)
        ensures
            final(self).stack@ == old(self).stack@.push(Morphism::Except(ExceptMorphism { path })),
            final(self).base_context == old(self).base_context,
    {
        self.stack.push(Morphism::Except(ExceptMorphism { path }));
    }

    /// Keeps each node once.
    pub fn unique(&mut self)
        ensures
            final(self).stack@ == old(self).stack@.push(Morphism::Unique(UniqueMorphism())),
            final(self).base_context == old(self).base_context,
    {
        self.stack.push(Morphism::Unique(UniqueMorphism()));
    }

    /// Keeps the nodes with a quad along `via` to one of the values.
    pub fn has(&mut self, via: Via, rev: bool, nodes: Vec<Value>)
        ensures
            final(self).stack@.len() == old(self).stack@.len() + 1,
            final(self).stack@.drop_last() == old(self).stack@,
            final(self).stack@.last() matches Morphism::HasShape(h) && h.rev == rev && h.via == via
                && (nodes@.len() == 0 ==> h.nodes is AllNodes)
                && (nodes@.len() > 0 ==> (h.nodes matches Shape::Lookup(l) && l.0@ == nodes@)),
            final(self).base_context == old(self).base_context,
    {
        self.stack.push(HasShapeMorphism::new_has_morphism(via, rev, nodes));
        proof {
            assert(self.stack@.drop_last() =~= old(self).stack@);
        }
    }

    /// Keeps the nodes with a quad along `via` to a node that passes the
    /// filters.
    pub fn has_filter(&mut self, via: Via, rev: bool, nodes: Vec<ValueFilter>)
        ensures
            final(self).stack@.len() == old(self).stack@.len() + 1,
            final(self).stack@.drop_last() == old(self).stack@,
            final(self).stack@.last() matches Morphism::HasShape(h) && h.rev == rev && h.via == via
                && (nodes@.len() == 0 ==> h.nodes is AllNodes)
                && (nodes@.len() > 0 ==> (h.nodes matches Shape::Filter(f) && *f.from is AllNodes && f.filters@ == nodes@)),
            final(self).base_context == old(self).base_context,
    {
        self.stack.push(HasShapeMorphism::new_has_filter_morphism(via, rev, nodes));
        proof {
            assert(self.stack@.drop_last() =~= old(self).stack@);
        }
    }

    /// Skips `offset` nodes.
    pub fn skip(&mut self, offset: i64)
        ensures
            final(self).stack@ == old(self).stack@.push(Morphism::Skip(SkipMorphism { offset })),
            final(self).base_context == old(self).base_context,
    {
        self.stack.push(Morphism::Skip(SkipMorphism { offset }));
    }

    /// Keeps at most `limit` nodes.
    pub fn limit(&mut self, limit: i64)
        ensures
            final(self).stack@ == old(self).stack@.push(Morphism::Limit(LimitMorphism { limit })),
            final(self).base_context == old(self).base_context,
    {
        self.stack.push(Morphism::Limit(LimitMorphism { limit }));
    }

    /// Orders the nodes by their values.
    pub fn order(&mut self)
        ensures
            final(self).stack@ == old(self).stack@.push(Morphism::Order(OrderMorphism())),
            final(self).base_context == old(self).base_context,
    {
        self.stack.push(Morphism::Order(OrderMorphism()));
    }

    /// Records, under `tag`, the other end of a quad along `via`.
    pub fn save(&mut self, via: Via, tag: String, rev: bool, opt: bool)
        ensures
            final(self).stack@ == old(self).stack@.push(Morphism::Save(SaveMorphism { via, tag, rev, opt })),
            final(self).base_context == old(self).base_context,
    {
        self.stack.push(Morphism::Save(SaveMorphism { via, tag, rev, opt }));
    }

    /// Goes to the predicates of the quads of the nodes.
    pub fn predicates(&mut self, rev: bool)
        ensures
            final(self).stack@ == old(self).stack@.push(Morphism::Predicates(PredicatesMorphism { rev })),
            final(self).base_context == old(self).base_context,
    {
        self.stack.push(Morphism::Predicates(PredicatesMorphism { rev }));
    }

    /// Records the predicates of the quads of the nodes under `tag`.
    pub fn save_predicates(&mut self, tag: String, rev: bool)
        ensures
            final(self).stack@ == old(self).stack@.push(Morphism::SavePredicates(SavePredicatesMorphism { tag, rev })),
            final(self).base_context == old(self).base_context,
    {
        self.stack.push(Morphism::SavePredicates(SavePredicatesMorphism { tag, rev }));
    }

    /// Goes to the labels of the quads of the nodes.
    pub fn labels(&mut self)
        ensures
            final(self).stack@ == old(self).stack@.push(Morphism::Labels(LabelsMorphism())),
            final(self).base_context == old(self).base_context,
    {
        self.stack.push(Morphism::Labels(LabelsMorphism()));
    }

    /// Restricts the following steps to quads with a label in `via` (to no
    /// label restriction when `via` is all).
    pub fn label_context_with_tags(&mut self, via: Via, tags: Vec<String>)
        ensures
            final(self).stack@.len() == old(self).stack@.len() + 1,
            final(self).stack@.drop_last() == old(self).stack@,
            final(self).stack@.last() matches Morphism::LabelContext(l) && (l.path is Some <==> !(via is All)),
            final(self).base_context == old(self).base_context,
    {
        let path = match via {
            Via::All => None,
            _ => Some(via.as_shape()),
        };
        let ghost g = via;
        self.stack.push(Morphism::LabelContext(LabelContextMorphism { tags, via, path }));
        proof {
            assert(self.stack@.drop_last() =~= old(self).stack@);
        }
    }

    /// The path back to the nodes tagged `tag`: the steps after the last
    /// step that records `tag` are dropped, and the path is narrowed to the
    /// nodes reached by them in reverse. When no step records `tag`, the
    /// whole path is returned reversed and this one is left as it is.
    pub fn back(&mut self, tag: String) -> (r: Option<Path>)
        ensures
            r is Some ==> final(self).stack@ == old(self).stack@,
            r matches Some(p) ==> p.stack@.len() == old(self).stack@.len() && kinds_reversed(p.stack@, old(self).stack@),
            r is None ==> final(self).stack@.len() <= old(self).stack@.len() + 1 && final(self).stack@.last() is And,
            r is None <==> exists|k: int| 0 <= k < old(self).stack@.len() && records_tag(#[trigger] old(self).stack@[k], tag@),
            r is None ==> exists|k: int| 0 <= k < old(self).stack@.len() && records_tag(#[trigger] old(self).stack@[k], tag@)
                && (forall|l: int| k < l < old(self).stack@.len() ==> !records_tag(#[trigger] old(self).stack@[l], tag@))
                && final(self).stack@.len() == k + 2
                && final(self).stack@.take(k + 1) == old(self).stack@.take(k + 1),
    {
        let mut new_path = Path::new(Vec::new());
        let mut i: usize = self.stack.len();
        while i > 0
            invariant
                i <= self.stack@.len(),
                self.stack@ == old(self).stack@,
                self.base_context == old(self).base_context,
                new_path.stack@.len() == old(self).stack@.len() - i,
                forall|l: int| i <= l < old(self).stack@.len() ==> !records_tag(#[trigger] old(self).stack@[l], tag@),
            decreases i,
        {
            let k = i - 1;
            if self.stack[k].is_tag() {
                match self.stack[k].tags() {
                    Some(t) => {
                        let mut j: usize = 0;
                        while j < t.len()
                            invariant
                                j <= t@.len(),
                                k < self.stack@.len(),
                                self.stack@ == old(self).stack@,
                                self.base_context == old(self).base_context,
                                self.stack@[k as int] matches Morphism::Tag(tm) && tm.tags@ == t@,
                                forall|jj: int| 0 <= jj < j ==> (#[trigger] t@[jj])@ != tag@,
                                forall|l: int| k < l < old(self).stack@.len() ==> !records_tag(#[trigger] old(self).stack@[l], tag@),
                                new_path.stack@.len() == old(self).stack@.len() - (k + 1),
                            decreases t@.len() - j,
                        {
                            if crate::strutil::str_eq(&t[j], &tag) {
                                let n = self.stack.len();
                                assert(k + 1 <= n);
                                proof {
                                    assert(records_tag(old(self).stack@[k as int], tag@));
                                }
                                self.stack.truncate(k + 1);
                                self.and(new_path);
                                return None;
                            }
                            j = j + 1;
                        }
                    },
                    None => {},
                }
            }
            proof {
                if records_tag(old(self).stack@[k as int], tag@) {
                    let tm = old(self).stack@[k as int]->Tag_0;
                    let jj = choose|jj: int| 0 <= jj < tm.tags@.len() && (#[trigger] tm.tags@[jj])@ == tag@;
                }
            }
            let rev = self.stack[k].reversal(&mut new_path.base_context);
            new_path.stack.push(rev.0);
            i = k;
        }
        Some(self.reverse())
    }

    /// The path that undoes this one: the reversals of its steps, last
    /// first.
    pub fn reverse(&self) -> (r: Path)
        ensures
            r.stack@.len() == self.stack@.len(),
            kinds_reversed(r.stack@, self.stack@),
        decreases self,
    {
        let mut new_path = Path::new(Vec::new());
        let mut ctx = PathContext { label_set: None };
        let mut i: usize = self.stack.len();
        let ghost n = self.stack@.len() as int;
        while i > 0
            invariant
                i <= self.stack@.len(),
                n == self.stack@.len(),
                new_path.stack@.len() == self.stack@.len() - i,
                forall|j: int| 0 <= j < new_path.stack@.len() ==> reversed_kind(#[trigger] new_path.stack@[j], self.stack@[n - 1 - j]),
            decreases i,
        {
            let k = i - 1;
            let rev = self.stack[k].reversal(&mut ctx);
            new_path.stack.push(rev.0);
            proof {
                assert(n - 1 - (n - i) == k);
            }
            i = k;
        }
        new_path
    }

    /// The shape of the nodes the path reaches from all nodes.
    pub fn shape(&self) -> (r: Shape)
        ensures
            self.stack@.len() == 0 ==> r is AllNodes,
            self.stack@.len() > 0 ==> exists|input: Shape| #[trigger] applied_top(self.stack@.last(), input, r),
    {
        self.shape_from(AllNodes::new())
    }

    /// The shape of the nodes the path reaches from `from`: its morphisms
    /// applied in order, each in the context the ones before it left.
    pub fn shape_from(&self, from: Shape) -> (r: Shape)
        ensures
            self.stack@.len() == 0 ==> r == from,
            self.stack@.len() > 0 ==> exists|input: Shape| #[trigger] applied_top(self.stack@.last(), input, r),
        decreases self,
    {
        let mut s = from;
        let mut ctx = self.base_context.copy();
        let mut i: usize = 0;
        while i < self.stack.len()
            invariant
                i <= self.stack@.len(),
                i == 0 ==> s == from,
                i > 0 ==> exists|input: Shape| #[trigger] applied_top(self.stack@[i - 1], input, s),
            decreases self.stack@.len() - i,
        {
            let ghost input = s;
            let r = self.stack[i].apply(s, &ctx);
            s = r.0;
            match r.1 {
                Some(c) => {
                    ctx = c;
                },
                None => {},
            }
            i = i + 1;
            proof {
                assert(applied_top(self.stack@[i - 1], input, s));
            }
        }
        proof {
            if self.stack@.len() > 0 {
                let input = choose|input: Shape| #[trigger] applied_top(self.stack@[self.stack@.len() - 1], input, s);
                assert(applied_top(self.stack@.last(), input, s));
            }
        }
        s
    }

    /// The iterator tree of the nodes the path reaches, over a store.
    pub fn build_iterator_on<Q: QuadStore>(&self, qs: &Q) -> (r: IterShape)
        ensures
            exists|s: Shape| #[trigger] built_top(qs, s, r)
                && (if self.stack@.len() == 0 { s is AllNodes } else { exists|input: Shape| #[trigger] applied_top(self.stack@.last(), input, s) }),
    {
        let s = self.shape();
        let ghost gs = s;
        let r = build_iterator(qs, s);
        proof {
            if self.stack@.len() > 0 {
                assert(built_top(qs, gs, r));
            } else {
                assert(built_top(qs, gs, r) && gs is AllNodes);
            }
        }
        r
    }
}

} // verus!
