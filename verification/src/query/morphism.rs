//! The steps of a query path. Each morphism turns the shape of the nodes
//! reached so far into the shape of the nodes reached after it.
use vstd::prelude::*;
use crate::graph::value::Value;
use crate::graph::iterator::copy_strings;
use crate::query::shape::{
    Shape, Lookup, AllNodes, Null, Intersect, Union, Unique, Save, Except, Page, Sort, Filter,
    new_in_out, has_labels, save_via_labels, predicates, save_predicates, labels, copy_values, goal_dir,
};
use crate::query::filter::ValueFilter;
use crate::query::path::{Path, PathContext, Via, copy_opt_shape};
use crate::query::shape::copy_value_filters;

verus! {

/// The intersection of the shapes, leaving out those in front that are all
/// nodes; no node when nothing is left.
pub fn join(its: Vec<Shape>) -> (r: Shape)
    ensures
        ({
            let k = leading_all(its@);
            if k == its@.len() {
                r is Null
            } else {
                r matches Shape::Intersect(i) && i.0@ == its@.skip(k as int)
            }
        }),
{
    let mut its = its;
    let ghost orig = its@;
    let mut k: usize = 0;
    while k < its.len() && its[k].is_all_nodes()
        invariant
            k <= its@.len(),
            its@ == orig,
            forall|j: int| 0 <= j < k ==> #[trigger] its@[j] is AllNodes,
        decreases its@.len() - k,
    {
        k = k + 1;
    }
    proof {
        lemma_leading_all(orig, k as int);
    }
    if k == its.len() {
        return Null::new();
    }
    let mut rest: Vec<Shape> = Vec::new();
    let mut j: usize = 0;
    while j < k
        invariant
            j <= k < orig.len(),
            its@ == orig.skip(j as int),
        decreases k - j,
    {
        its.remove(0);
        proof {
            assert(its@ =~= orig.skip(j + 1));
        }
        j = j + 1;
    }
    Shape::Intersect(Intersect(its))
}

/// The number of shapes in front that are all nodes.
pub open spec fn leading_all(s: Seq<Shape>) -> nat
    decreases s.len(),
{
    if s.len() > 0 && s[0] is AllNodes {
        1 + leading_all(s.drop_first())
    } else {
        0
    }
}

proof fn lemma_leading_all(s: Seq<Shape>, k: int)
    requires
        0 <= k <= s.len(),
        forall|j: int| 0 <= j < k ==> #[trigger] s[j] is AllNodes,
        k == s.len() || !(s[k] is AllNodes),
    ensures
        leading_all(s) == k,
    decreases k,
{
    if k > 0 {
        let t = s.drop_first();
        assert forall|j: int| 0 <= j < k - 1 implies #[trigger] t[j] is AllNodes by {
            assert(t[j] == s[j + 1]);
        }
        if k < s.len() {
            assert(t[k - 1] == s[k]);
        }
        lemma_leading_all(t, k - 1);
    }
}

/// Keeps the nodes with the given values.
pub struct IsMorphism {
    pub nodes: Vec<Value>,
}

/// Goes from objects to subjects along quads with a predicate in `via`.
pub struct InMorphism {
    pub tags: Option<Vec<String>>,
    pub via: Via,
}

/// Goes from subjects to objects along quads with a predicate in `via`.
pub struct OutMorphism {
    pub tags: Option<Vec<String>>,
    pub via: Via,
}

/// Goes both ways along quads with a predicate in `via`.
pub struct BothMorphism {
    pub tags: Option<Vec<String>>,
    pub via: Via,
}

/// Follows a path.
pub struct FollowMorphism {
    pub path: Path,
}

/// Follows a path again and again, up to a depth.
pub struct FollowRecursiveMorphism {
    pub path: Path,
    pub max_depth: i32,
    pub depth_tags: Vec<String>,
}

/// Keeps the nodes also reached by a path.
pub struct AndMorphism {
    pub path: Path,
}

/// Adds the nodes reached by a path.
pub struct OrMorphism {
    pub path: Path,
}

/// Keeps the nodes whose values pass the filters.
pub struct FilterMorphism {
    pub filters: Vec<ValueFilter>,
}

/// Records the nodes under tags.
pub struct TagMorphism {
    pub tags: Vec<String>,
}

/// Drops the nodes reached by a path.
pub struct ExceptMorphism {
    pub path: Path,
}

/// Keeps each node once.
pub struct UniqueMorphism();

/// Keeps the nodes with a quad along `via` to one of `nodes`.
pub struct HasShapeMorphism {
    pub via: Via,
    pub rev: bool,
    pub nodes: Shape,
}

/// Keeps at most `limit` nodes.
pub struct LimitMorphism {
    pub limit: i64,
}

/// Skips `offset` nodes.
pub struct SkipMorphism {
    pub offset: i64,
}

/// Orders the nodes by their values.
pub struct OrderMorphism();

/// Records, under `tag`, the other end of a quad along `via`.
pub struct SaveMorphism {
    pub via: Via,
    pub tag: String,
    pub rev: bool,
    pub opt: bool,
}

/// Goes to the predicates of the quads of the nodes.
pub struct PredicatesMorphism {
    pub rev: bool,
}

/// Records the predicates of the quads of the nodes under `tag`.
pub struct SavePredicatesMorphism {
    pub tag: String,
    pub rev: bool,
}

/// Goes to the labels of the quads of the nodes.
pub struct LabelsMorphism();

/// Restricts the following steps to quads with a label in `via`.
pub struct LabelContextMorphism {
    pub tags: Vec<String>,
    pub via: Via,
    pub path: Option<Shape>,
}

/// A step of a path.
pub enum Morphism {
    Is(IsMorphism),
    In(InMorphism),
    Out(OutMorphism),
    Both(BothMorphism),
    Follow(FollowMorphism),
    FollowRecursive(FollowRecursiveMorphism),
    And(AndMorphism),
    Or(OrMorphism),
    Filter(FilterMorphism),
    Tag(TagMorphism),
    Except(ExceptMorphism),
    Unique(UniqueMorphism),
    HasShape(HasShapeMorphism),
    Limit(LimitMorphism),
    Skip(SkipMorphism),
    Order(OrderMorphism),
    Save(SaveMorphism),
    Predicates(PredicatesMorphism),
    SavePredicates(SavePredicatesMorphism),
    Labels(LabelsMorphism),
    LabelContext(LabelContextMorphism),
}

/// Copies optional tags.
pub fn copy_opt_tags(t: &Option<Vec<String>>) -> (r: Option<Vec<String>>)
    ensures
        match (t, r) {
            (Some(a), Some(b)) => a@ == b@,
            (None, None) => true,
            _ => false,
        },
{
    match t {
        Some(v) => Some(copy_strings(v)),
        None => None,
    }
}

impl HasShapeMorphism {
    /// Keeps the nodes with a quad along `via` to one of `nodes` (to any
    /// node when there are none).
    pub fn new_has_morphism(via: Via, rev: bool, nodes: Vec<Value>) -> (r: Morphism)
        ensures
            r matches Morphism::HasShape(h) && h.rev == rev && h.via == via && (nodes@.len() == 0 ==> h.nodes is AllNodes)
                && (nodes@.len() > 0 ==> (h.nodes matches Shape::Lookup(l) && l.0@ == nodes@)),
    {
        let node = if nodes.len() == 0 {
            AllNodes::new()
        } else {
            Shape::Lookup(Lookup(nodes))
        };
        Morphism::HasShape(HasShapeMorphism { via, rev, nodes: node })
    }

    /// Keeps the nodes with a quad along `via` to a node that passes the
    /// filters.
    pub fn new_has_filter_morphism(via: Via, rev: bool, filters: Vec<ValueFilter>) -> (r: Morphism)
        ensures
            r matches Morphism::HasShape(h) && h.rev == rev && h.via == via
                && (filters@.len() == 0 ==> h.nodes is AllNodes)
                && (filters@.len() > 0 ==> (h.nodes matches Shape::Filter(f) && *f.from is AllNodes && f.filters@ == filters@)),
    {
        Morphism::HasShape(HasShapeMorphism { via, rev, nodes: Filter::new(AllNodes::new(), filters) })
    }
}

/// Whether the quads `q` record their predicates under `tags`, when there
/// are some: one of their filters is on the predicate, by a shape that
/// saves its nodes under those tags.
pub open spec fn records_predicates(q: Shape, tags: Option<Vec<String>>) -> bool {
    tags matches Some(t) ==> (t@.len() > 0 ==> (q matches Shape::Quads(qs) && exists|k: int| 0 <= k < qs.0@.len()
        && (#[trigger] qs.0@[k]).dir == crate::graph::quad::Direction::Predicate
        && (qs.0@[k].values matches Some(v) && (*v matches Shape::Save(sv) && sv.tags@ == t@))))
}

/// Whether `r` is, at the top, what a step of the kind of the last step
/// of `steps` makes: nodes reached backward for `in`, forward for `out`.
pub open spec fn ends_like(steps: Seq<Morphism>, r: Shape) -> bool {
    steps.len() > 0 ==> (steps.last() is In ==> (r matches Shape::NodesFrom(n) && n.dir == goal_dir(true)))
        && (steps.last() is Out ==> (r matches Shape::NodesFrom(n) && n.dir == goal_dir(false)))
}

/// A step `in` (or `out`) given tags records the predicates it goes along
/// under those tags.
pub proof fn lemma_step_records_tags(m: Morphism, input: Shape, r: Shape)
    requires
        applied_top(m, input, r),
        m is In || m is Out,
    ensures
        r matches Shape::NodesFrom(n) && match m {
            Morphism::In(x) => n.dir == goal_dir(true) && (x.tags matches Some(t) ==> (t@.len() > 0 ==> (*n.quads matches Shape::Quads(qs)
                && exists|k: int| 0 <= k < qs.0@.len() && (#[trigger] qs.0@[k]).dir == crate::graph::quad::Direction::Predicate
                    && (qs.0@[k].values matches Some(v) && (*v matches Shape::Save(sv) && sv.tags@ == t@))))),
            Morphism::Out(x) => n.dir == goal_dir(false) && (x.tags matches Some(t) ==> (t@.len() > 0 ==> (*n.quads matches Shape::Quads(qs)
                && exists|k: int| 0 <= k < qs.0@.len() && (#[trigger] qs.0@[k]).dir == crate::graph::quad::Direction::Predicate
                    && (qs.0@[k].values matches Some(v) && (*v matches Shape::Save(sv) && sv.tags@ == t@))))),
            _ => true,
        },
{
}

/// Following a path, once or again and again, ends as the last step of
/// the path does: following `out` goes forward, following `in` backward.
pub proof fn lemma_follow_ends_like_path(m: Morphism, input: Shape, r: Shape)
    requires
        applied_top(m, input, r),
    ensures
        m matches Morphism::FollowRecursive(x) ==> (x.path.stack@.len() > 0 ==>
            (x.path.stack@.last() is In ==> (r matches Shape::NodesFrom(n) && n.dir == goal_dir(true)))
            && (x.path.stack@.last() is Out ==> (r matches Shape::NodesFrom(n) && n.dir == goal_dir(false)))),
        m matches Morphism::Follow(x) ==> (x.path.stack@.len() > 0 ==>
            (x.path.stack@.last() is In ==> (r matches Shape::NodesFrom(n) && n.dir == goal_dir(true)))
            && (x.path.stack@.last() is Out ==> (r matches Shape::NodesFrom(n) && n.dir == goal_dir(false)))),
{
}

/// The shape a morphism makes of `input`, at the top.
pub open spec fn applied_top(m: Morphism, input: Shape, r: Shape) -> bool {
    match m {
        Morphism::Is(x) => if x.nodes@.len() == 0 {
            r == input
        } else if input is AllNodes {
            r matches Shape::Lookup(l) && l.0@.len() == x.nodes@.len()
                && forall|j: int| 0 <= j < x.nodes@.len() ==> (#[trigger] l.0@[j])@ == x.nodes@[j]@
        } else {
            r matches Shape::Intersect(i) && i.0@.len() == 2 && i.0@[1] == input
                && (i.0@[0] matches Shape::Lookup(l) && l.0@.len() == x.nodes@.len()
                && forall|j: int| 0 <= j < x.nodes@.len() ==> (#[trigger] l.0@[j])@ == x.nodes@[j]@)
        },
        Morphism::In(x) => r matches Shape::NodesFrom(n) && n.dir == goal_dir(true) && records_predicates(*n.quads, x.tags),
        Morphism::Out(x) => r matches Shape::NodesFrom(n) && n.dir == goal_dir(false) && records_predicates(*n.quads, x.tags),
        Morphism::Follow(x) => ends_like(x.path.stack@, r),
        Morphism::FollowRecursive(x) => ends_like(x.path.stack@, r),
        Morphism::Both(_) => r matches Shape::Union(u) && u.0@.len() == 2 && (u.0@[0] matches Shape::NodesFrom(a)
            && a.dir == goal_dir(true)) && (u.0@[1] matches Shape::NodesFrom(b) && b.dir == goal_dir(false)),
        Morphism::And(_) => !(input is AllNodes) ==> (r matches Shape::Intersect(i) && i.0@.len() == 2 && i.0@[0] == input),
        Morphism::Or(_) => r matches Shape::Union(u) && u.0@.len() == 2 && u.0@[0] == input,
        Morphism::Filter(f) => f.filters@.len() == 0 ==> r == input,
        Morphism::Tag(t) => r matches Shape::Save(s) && s.tags@ == t.tags@ && s.from == Some(Box::new(input)),
        Morphism::Except(_) => !(input is AllNodes) ==> (r matches Shape::Intersect(i) && i.0@.len() == 2 && i.0@[0] == input
            && i.0@[1] is Except),
        Morphism::Unique(_) => r == Shape::Unique(Unique { from: Box::new(input) }),
        Morphism::HasShape(_) => if input is AllNodes { r is NodesFrom } else { r is Intersect },
        Morphism::Limit(l) => if l.limit <= 0 {
            r == input
        } else {
            r == Shape::Page(Page { from: Box::new(input), skip: 0, limit: l.limit })
        },
        Morphism::Skip(k) => if k.offset == 0 {
            r == input
        } else {
            r == Shape::Page(Page { from: Box::new(input), skip: k.offset, limit: 0 })
        },
        Morphism::Order(_) => r == Shape::Sort(Sort { from: Box::new(input) }),
        Morphism::Save(s) => if s.opt { r is IntersectOpt } else { !(input is AllNodes) ==> r is Intersect },
        Morphism::Predicates(_) => r is Unique,
        Morphism::SavePredicates(_) => if input is AllNodes { r is NodesFrom } else { r is Intersect },
        Morphism::Labels(_) => r is Unique,
        Morphism::LabelContext(_) => r == input,
        _ => true,
    }
}

} // verus!
