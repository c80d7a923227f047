//! Iterators over a quad store. A `Shape` describes a set of references; it
//! makes a `Scanner`, which lists them, and an `Index`, which checks them one
//! at a time. Both remember the tags that each result was reached through.
use vstd::prelude::*;
use crate::graph::refs::{Ref, RefV, Size, spec_pre_fetched, ref_key};
use crate::graph::quad::QuadStore;
use crate::strutil::copy_string;
use crate::graph::iterator::materialize::MATERIALIZE_LIMIT;
use crate::graph::iterator::costs::{limit_costs, skip_costs, not_costs, unique_costs};

pub mod tags;
pub mod costs;
pub mod optimize;
pub mod fixed;
pub mod and;
pub mod save;
pub mod limit;
pub mod resolver;
pub mod value_filter;
pub mod sort;
pub mod materialize;
pub mod count;
pub mod unique;
pub mod not;
pub mod skip;
pub mod or;
pub mod iterate;
pub mod recursive;

use crate::graph::iterator::tags::TagMap;
use crate::graph::iterator::fixed::{Fixed, FixedNext, FixedContains};
use crate::graph::iterator::and::{And, AndNext, AndContains};
use crate::graph::iterator::save::{Save, SaveNext, SaveContains};
use crate::graph::iterator::limit::{Limit, LimitNext, LimitContains};
use crate::graph::memstore::all_iterator::{MemStoreAllIterator, MemStoreAllIteratorNext, MemStoreAllIteratorContains};
use crate::graph::memstore::iterator::{MemStoreIterator, MemStoreIteratorNext, MemStoreIteratorContains};
use crate::graph::iterator::resolver::{Resolver, ResolverNext, ResolverContains};
use crate::graph::iterator::value_filter::{ValueFilter, ValueFilterNext, ValueFilterContains};
use crate::graph::linksto::{LinksTo, LinksToNext, LinksToContains};
use crate::graph::hasa::{HasA, HasANext, HasAContains};
use crate::graph::iterator::sort::{Sort, SortNext};
use crate::graph::iterator::materialize::{Materialize, MaterializeNext, MaterializeContains};
use crate::graph::iterator::count::{Count, CountNext, CountContains};
use crate::graph::iterator::unique::{Unique, UniqueNext, UniqueContains};
use crate::graph::iterator::not::{Not, NotNext, NotContains};
use crate::graph::iterator::skip::{Skip, SkipNext, SkipContains};
use crate::graph::iterator::or::{Or, OrNext, OrContains};

verus! {

/// Whether `r` is the scanner that `s` lists its results with: a scanner of
/// the same kind, which for a fixed list starts before its first value, and
/// which for a shape over other shapes runs over their scanners (and
/// indexes), not started.
pub open spec fn scans_as(s: Shape, r: Scanner) -> bool
    decreases s, 0nat,
{
    match s {
        Shape::Null(_) => r is Null,
        Shape::Error(e) => r matches Scanner::Error(x) && x.err@ == e.err@,
        Shape::Fixed(f) => r matches Scanner::Fixed(n) && crate::graph::iterator::fixed::refs_view(n.values@)
            == crate::graph::iterator::fixed::refs_view(f.values@) && n.ind == 0 && n.result is None,
        Shape::And(a) => if a.sub@.len() == 0 { r is Null } else { r is And },
        Shape::Save(sv) => r matches Scanner::Save(n) && scans_as(*sv.it, *n.it) && n.tags.tags@ == sv.tags.tags@,
        Shape::Limit(l) => r matches Scanner::Limit(n) && scans_as(*l.it, *n.it) && n.limit == l.limit && n.count == 0,
        Shape::MemStoreAll(_) => r is MemStoreAll,
        Shape::MemStore(_) => r is MemStore,
        Shape::Resolver(_) => r is Resolver,
        Shape::ValueFilter(vf) => r matches Scanner::ValueFilter(n) && scans_as(*vf.sub, *n.sub) && n.result is None,
        Shape::LinksTo(_) => r is LinksTo,
        Shape::HasA(_) => r is HasA,
        Shape::Sort(st) => r matches Scanner::Sort(n) && scans_as(*st.it, *n.it) && n.ordered is None,
        Shape::Materialize(_) => r is Materialize,
        Shape::Count(_) => r is Count,
        Shape::Unique(u) => r matches Scanner::Unique(n) && scans_as(*u.it, *n.it) && n.seen@.len() == 0 && n.result is None,
        Shape::Not(nt) => r matches Scanner::Not(n) && checks_as(*nt.primary, *n.primary_it) && scans_as(*nt.all_it, *n.all_it),
        Shape::Skip(k) => r matches Scanner::Skip(n) && scans_as(*k.it, *n.it) && n.skip == k.skip && n.skipped == 0,
        Shape::Or(o) => r matches Scanner::Or(n) && n.sub@.len() == o.sub@.len() && n.cur_ind is None
            && n.short_circuit == o.is_short_circuiting
            && forall|i: int| 0 <= i < o.sub@.len() ==> scans_as(#[trigger] o.sub@[i], n.sub@[i]),
    }
}

/// Whether `r` is the index that `s` checks membership with: an index of
/// the same kind (a sort checks with the index of what it sorts), which
/// for a fixed list holds its values and their keys.
pub open spec fn checks_as(s: Shape, r: Index) -> bool
    decreases s, 0nat,
{
    match s {
        Shape::Null(_) => r is Null,
        Shape::Error(e) => r matches Index::Error(x) && x.err@ == e.err@,
        Shape::Fixed(f) => r matches Index::Fixed(n) && crate::graph::iterator::fixed::refs_view(n.values@)
            == crate::graph::iterator::fixed::refs_view(f.values@) && n.result is None
            && n.keys@.map_values(|k: crate::graph::value::Value| k@)
                == crate::graph::iterator::fixed::defined_keys(crate::graph::iterator::fixed::refs_view(f.values@)),
        Shape::And(a) => if a.sub@.len() == 0 { r is Null } else { r is And },
        Shape::Save(sv) => r matches Index::Save(n) && checks_as(*sv.it, *n.it) && n.tags.tags@ == sv.tags.tags@,
        Shape::Limit(l) => r matches Index::Limit(n) && checks_as(*l.it, *n.it) && n.limit == l.limit && n.count == 0,
        Shape::MemStoreAll(_) => r is MemStoreAll,
        Shape::MemStore(_) => r is MemStore,
        Shape::Resolver(_) => r is Resolver,
        Shape::ValueFilter(vf) => r matches Index::ValueFilter(n) && checks_as(*vf.sub, *n.sub),
        Shape::LinksTo(_) => r is LinksTo,
        Shape::HasA(_) => r is HasA,
        Shape::Sort(_) => true,
        Shape::Materialize(_) => r is Materialize,
        Shape::Count(_) => r is Count,
        Shape::Unique(u) => r matches Index::Unique(n) && checks_as(*u.it, *n.it),
        Shape::Not(nt) => r matches Index::Not(n) && checks_as(*nt.primary, *n.primary_it) && n.result is None && n.err is None,
        Shape::Skip(k) => r matches Index::Skip(n) && checks_as(*k.it, *n.it) && n.skip == k.skip && n.skipped == 0,
        Shape::Or(o) => r matches Index::Or(n) && n.sub@.len() == o.sub@.len() && n.cur_ind is None
            && forall|i: int| 0 <= i < o.sub@.len() ==> checks_as(#[trigger] o.sub@[i], n.sub@[i]),
    }
}

/// The costs of a shape when they do not depend on the store: those of
/// the empty and failed iterators, of fixed lists and resolvers, and of
/// the iterators over one such shape (limits, skips, uniques, saves,
/// complements, counts, materializations, sorts and value filters), each
/// by its formula; `None` for the others.
pub open spec fn known_costs(s: Shape) -> Option<Costs>
    decreases s,
{
    match s {
        Shape::Null(_) => Some(Costs::spec_new()),
        Shape::Error(_) => Some(Costs::spec_new()),
        Shape::Fixed(f) => Some(Costs {
            contains_cost: 1,
            next_cost: 1,
            size: Size { value: crate::graph::refs::spec_len_as_i64(f.values@.len()), exact: true },
        }),
        Shape::Resolver(rv) => Some(Costs {
            contains_cost: 1,
            next_cost: 1,
            size: Size { value: crate::graph::refs::spec_len_as_i64(rv.order@.len()), exact: true },
        }),
        Shape::Save(sv) => known_costs(*sv.it),
        Shape::Limit(l) => match known_costs(*l.it) {
            Some(c) => Some(crate::graph::iterator::costs::limit_costs_spec(c, l.limit)),
            None => None,
        },
        Shape::Skip(k) => match known_costs(*k.it) {
            Some(c) => Some(crate::graph::iterator::costs::skip_costs_spec(c, k.skip)),
            None => None,
        },
        Shape::Unique(u) => match known_costs(*u.it) {
            Some(c) => Some(crate::graph::iterator::costs::unique_costs_spec(c)),
            None => None,
        },
        Shape::Not(n) => match (known_costs(*n.primary), known_costs(*n.all_it)) {
            (Some(p), Some(a)) => Some(crate::graph::iterator::costs::not_costs_spec(p, a)),
            _ => None,
        },
        Shape::Count(c) => match known_costs(*c.it) {
            Some(x) => Some(crate::graph::iterator::costs::count_costs_spec(Some(x))),
            None => None,
        },
        Shape::Materialize(m) => match known_costs(*m.sub) {
            Some(x) => Some(crate::graph::iterator::costs::materialize_costs_spec(x, m.expected_size)),
            None => None,
        },
        Shape::Sort(st) => match known_costs(*st.it) {
            Some(x) => Some(crate::graph::iterator::costs::sort_costs_spec(x)),
            None => None,
        },
        Shape::ValueFilter(vf) => match known_costs(*vf.sub) {
            Some(x) => Some(crate::graph::iterator::costs::filter_costs_spec(x)),
            None => None,
        },
        _ => None,
    }
}

/// The costs of every shape of `s`, when all of them are known.
pub open spec fn all_known(s: Seq<Shape>) -> bool {
    forall|j: int| 0 <= j < s.len() ==> (#[trigger] known_costs(s[j])) is Some
}

/// Whether `sc` is what a step of `next` that found no further result
/// leaves: the scanner has run out.
pub open spec fn ended(sc: Scanner, qb: nat) -> bool {
    exists|p: Scanner| #[trigger] p.next_step(sc, false, qb)
}

/// Whether `ix` is what a check of `v` that failed leaves.
pub open spec fn declined(ix: Index, v: RefV, qb: nat) -> bool {
    exists|p: Index| #[trigger] p.contains_step(ix, v, false, qb)
}

/// Whether `ix` is what a check of `v` that succeeded leaves.
pub open spec fn accepted(ix: Index, v: RefV, qb: nat) -> bool {
    exists|p: Index| #[trigger] p.contains_step(ix, v, true, qb)
}

/// Whether `sc` is what a step of `next` that found no further result
/// leaves, from a scanner of height at most `h`.
pub open spec fn ended_below(sc: Scanner, qb: nat, h: nat) -> bool
    decreases h, 1nat,
{
    exists|p: Scanner| #[trigger] p.height() <= h && p.next_step(sc, false, qb)
}

/// Whether `ix` is what a failed check of `v` leaves, from an index of
/// height at most `h`.
pub open spec fn declined_below(ix: Index, v: RefV, qb: nat, h: nat) -> bool
    decreases h, 1nat,
{
    exists|p: Index| #[trigger] p.height() <= h && p.contains_step(ix, v, false, qb)
}

/// Whether `ix` is what a successful check of `v` leaves, from an index of
/// height at most `h`.
pub open spec fn accepted_below(ix: Index, v: RefV, qb: nat, h: nat) -> bool
    decreases h, 1nat,
{
    exists|p: Index| #[trigger] p.height() <= h && p.contains_step(ix, v, true, qb)
}

/// What ran out from a scanner of bounded height ran out.
pub proof fn lemma_ended_below(sc: Scanner, qb: nat, h: nat)
    requires
        ended_below(sc, qb, h),
    ensures
        ended(sc, qb),
{
    let p = choose|p: Scanner| #[trigger] p.height() <= h && p.next_step(sc, false, qb);
    assert(p.next_step(sc, false, qb));
}

/// Whether `b` is, when `a` is a fixed list, a fixed list of the same
/// references.
pub open spec fn same_fixed(a: Shape, b: Shape) -> bool {
    a matches Shape::Fixed(f) ==> (b matches Shape::Fixed(g)
        && crate::graph::iterator::fixed::refs_view(g.values@) == crate::graph::iterator::fixed::refs_view(f.values@))
}

/// The sub-scanner whose tags a scanner records as its own: that of a
/// limit, a skip, a de-duplication, a value filter, a has-a or a links-to
/// scanner.
pub open spec fn tags_through(sc: Scanner) -> Option<Scanner> {
    match sc {
        Scanner::Limit(l) => Some(*l.it),
        Scanner::Skip(k) => Some(*k.it),
        Scanner::Unique(u) => Some(*u.it),
        Scanner::ValueFilter(v) => Some(*v.sub),
        Scanner::HasA(h) => Some(*h.primary),
        Scanner::LinksTo(l) => Some(*l.primary),
        _ => None,
    }
}

/// A scanner that passes tags through records what its sub-scanner
/// records: the tags under which a saving sub-scanner saves its result, and
/// nothing at all over an empty or fixed list.
pub proof fn lemma_tags_pass_through(sc: Scanner, before: Map<Seq<char>, RefV>, after: Map<Seq<char>, RefV>)
    requires
        sc.tags_step(before, after),
        tags_through(sc) is Some,
    ensures
        tags_through(sc)->0.tags_step(before, after),
        tags_through(sc)->0 matches Scanner::Save(s)
            ==> crate::graph::iterator::save::saved_under(after, &s.tags, s.it.spec_result()),
        tags_through(sc)->0.is_plain() ==> after == before,
{
}

/// A fixed list that has run out is at its end.
pub proof fn lemma_ended_fixed(sc: Scanner, qb: nat)
    requires
        ended(sc, qb),
        sc is Fixed,
    ensures
        sc->Fixed_0.ind == sc->Fixed_0.values@.len(),
{
    let p = choose|p: Scanner| #[trigger] p.next_step(sc, false, qb);
}

/// A fixed list declines exactly the references whose key it lacks, and
/// accepts exactly those whose key it has.
pub proof fn lemma_checked_fixed(ix: Index, v: RefV, qb: nat)
    requires
        ix is Fixed,
    ensures
        declined(ix, v, qb) ==> !exists|i: int| 0 <= i < ix->Fixed_0.keys@.len() && ref_key(v) == Some(#[trigger] ix->Fixed_0.keys@[i]@),
        accepted(ix, v, qb) ==> exists|i: int| 0 <= i < ix->Fixed_0.keys@.len() && ref_key(v) == Some(#[trigger] ix->Fixed_0.keys@[i]@),
{
    if declined(ix, v, qb) {
        let p = choose|p: Index| #[trigger] p.contains_step(ix, v, false, qb);
    }
    if accepted(ix, v, qb) {
        let p = choose|p: Index| #[trigger] p.contains_step(ix, v, true, qb);
    }
}

/// The error text of the first index of `s` from position `i` on that
/// reports one.
pub open spec fn index_seq_err(s: Seq<Index>, i: int) -> Option<Seq<char>>
    decreases s, s.len() - i,
{
    if i < 0 || i >= s.len() {
        None
    } else if s[i].spec_err() is Some {
        s[i].spec_err()
    } else {
        index_seq_err(s, i + 1)
    }
}

/// The text of an optional error.
pub open spec fn opt_text(o: Option<String>) -> Option<Seq<char>> {
    match o {
        Some(s) => Some(s@),
        None => None,
    }
}

/// The view of an optional reference.
pub open spec fn opt_ref_view(o: Option<Ref>) -> Option<RefV> {
    match o {
        Some(r) => Some(r@),
        None => None,
    }
}

pub open spec fn max_nat(a: nat, b: nat) -> nat {
    if a >= b { a } else { b }
}

/// Copies a list of strings.
pub fn copy_strings(v: &Vec<String>) -> (r: Vec<String>)
    ensures
        r@ == v@,
{
    let mut r: Vec<String> = Vec::new();
    let mut i: usize = 0;
    while i < v.len()
        invariant
            i <= v.len(),
            r@ == v@.take(i as int),
        decreases v.len() - i,
    {
        r.push(v[i].clone());
        proof {
            assert(r@ =~= v@.take(i + 1));
        }
        i = i + 1;
    }
    proof {
        assert(v@.take(v.len() as int) =~= v@);
    }
    r
}

/// The tags a result is saved under: names that take the result itself,
/// and fixed names that take fixed references.
pub struct Tags {
    pub tags: Vec<String>,
    pub fixed_tags: TagMap,
}

impl Tags {
    pub fn new(tags: Vec<String>) -> (r: Tags)
        ensures
            r.tags@ == tags@,
            r.fixed_tags@ == Map::<Seq<char>, crate::graph::refs::RefV>::empty(),
    {
        Tags { tags, fixed_tags: TagMap::new() }
    }

    pub fn add_tags(&mut self, tags: &Vec<String>)
        ensures
            final(self).tags@ == old(self).tags@ + tags@,
            final(self).fixed_tags@ == old(self).fixed_tags@,
    {
        let mut i: usize = 0;
        while i < tags.len()
            invariant
                i <= tags.len(),
                self.tags@ == old(self).tags@ + tags@.take(i as int),
                self.fixed_tags@ == old(self).fixed_tags@,
            decreases tags.len() - i,
        {
            self.tags.push(tags[i].clone());
            proof {
                assert(self.tags@ =~= old(self).tags@ + tags@.take(i + 1));
            }
            i = i + 1;
        }
        proof {
            assert(tags@.take(tags.len() as int) =~= tags@);
        }
    }

    pub fn add_fixed_tag(&mut self, tag: String, value: &Ref)
        ensures
            final(self).tags@ == old(self).tags@,
            final(self).fixed_tags@ == old(self).fixed_tags@.insert(tag@, value@),
    {
        self.fixed_tags.insert(tag, value.copy());
    }

    /// Adds the tags and fixed tags of `st`; its fixed tags win.
    pub fn copy_from(&mut self, st: &Tags)
        ensures
            final(self).tags@ == old(self).tags@ + st.tags@,
            final(self).fixed_tags@ == old(self).fixed_tags@.union_prefer_right(st.fixed_tags@),
    {
        self.add_tags(&st.tags);
        self.fixed_tags.extend(&st.fixed_tags);
    }

    pub fn copy(&self) -> (r: Tags)
        ensures
            r.tags@ == self.tags@,
            r.fixed_tags@ == self.fixed_tags@,
    {
        Tags { tags: copy_strings(&self.tags), fixed_tags: self.fixed_tags.copy() }
    }
}

/// Cost estimates of an iterator: of one `contains`, of one `next`, and the
/// number of results.
#[derive(Debug, Clone, Copy, PartialEq, Eq, Structural)]
pub struct Costs {
    pub contains_cost: i64,
    pub next_cost: i64,
    pub size: Size,
}

impl Costs {
    pub open spec fn spec_new() -> Costs {
        Costs { contains_cost: 0, next_cost: 0, size: Size { value: 0, exact: true } }
    }

    /// All costs zero, size exactly zero.
    pub fn new() -> (r: Costs)
        ensures
            r == Costs::spec_new(),
    {
        Costs { contains_cost: 0, next_cost: 0, size: Size::new() }
    }
}

/// The empty iterator.
#[derive(Debug, Clone, Copy, PartialEq, Eq, Structural)]
pub struct Null {}

impl Null {
    pub fn new() -> (r: Shape)
        ensures
            r is Null,
    {
        Shape::Null(Null {})
    }
}

/// An iterator that has failed: it yields nothing and reports its error.
pub struct Error {
    pub err: String,
}

impl Error {
    pub fn new(err: String) -> (r: Shape)
        ensures
            r matches Shape::Error(e) && e.err@ == err@,
    {
        Shape::Error(Error { err })
    }

    pub fn copy(&self) -> (r: Error)
        ensures
            r.err@ == self.err@,
    {
        Error { err: self.err.clone() }
    }
}

/// An iterator tree.
pub enum Shape {
    Null(Null),
    Error(Error),
    Fixed(Fixed),
    And(And),
    Save(Save),
    Limit(Limit),
    MemStoreAll(MemStoreAllIterator),
    MemStore(MemStoreIterator),
    Resolver(Resolver),
    ValueFilter(ValueFilter),
    LinksTo(LinksTo),
    HasA(HasA),
    Sort(Sort),
    Materialize(Materialize),
    Count(Count),
    Unique(Unique),
    Not(Not),
    Skip(Skip),
    Or(Or),
}

/// A listing of the results of a shape.
pub enum Scanner {
    Null(Null),
    Error(Error),
    Fixed(FixedNext),
    And(AndNext),
    Save(SaveNext),
    Limit(LimitNext),
    MemStoreAll(MemStoreAllIteratorNext),
    MemStore(MemStoreIteratorNext),
    Resolver(ResolverNext),
    ValueFilter(ValueFilterNext),
    LinksTo(LinksToNext),
    HasA(HasANext),
    Sort(SortNext),
    Materialize(MaterializeNext),
    Count(CountNext),
    Unique(UniqueNext),
    Not(NotNext),
    Skip(SkipNext),
    Or(OrNext),
}

/// A membership check against the results of a shape.
pub enum Index {
    Null(Null),
    Error(Error),
    Fixed(FixedContains),
    And(AndContains),
    Save(SaveContains),
    Limit(LimitContains),
    MemStoreAll(MemStoreAllIteratorContains),
    MemStore(MemStoreIteratorContains),
    Resolver(ResolverContains),
    ValueFilter(ValueFilterContains),
    LinksTo(LinksToContains),
    HasA(HasAContains),
    Materialize(MaterializeContains),
    Count(CountContains),
    Unique(UniqueContains),
    Not(NotContains),
    Skip(SkipContains),
    Or(OrContains),
}

/// The largest height in `s` from position `i` on.
pub open spec fn shape_seq_height(s: Seq<Shape>, i: int) -> nat
    decreases s, s.len() - i,
{
    if 0 <= i < s.len() {
        max_nat(s[i].height(), shape_seq_height(s, i + 1))
    } else {
        0
    }
}

pub proof fn lemma_shape_seq_height(s: Seq<Shape>, i: int, j: int)
    requires
        0 <= i <= j < s.len(),
    ensures
        s[j].height() <= shape_seq_height(s, i),
    decreases j - i,
{
    if i < j {
        lemma_shape_seq_height(s, i + 1, j);
    }
}

impl Shape {
    /// An upper bound on the height of the scanners and indexes it makes.
    pub open spec fn height(&self) -> nat
        decreases self, 0nat,
    {
        match self {
            Shape::Null(_) => 1,
            Shape::Error(_) => 1,
            Shape::Fixed(_) => 1,
            Shape::And(a) => 2 + max_nat(
                shape_seq_height(a.sub@, 0),
                max_nat(
                    match a.check_list { Some(v) => shape_seq_height(v@, 0), None => 0 },
                    match a.opt { Some(v) => shape_seq_height(v@, 0), None => 0 },
                ),
            ),
            Shape::Save(s) => 1 + s.it.height(),
            Shape::Limit(l) => 1 + l.it.height(),
            Shape::MemStoreAll(_) => 1,
            Shape::MemStore(_) => 1,
            Shape::Resolver(_) => 1,
            Shape::ValueFilter(vf) => 1 + vf.sub.height(),
            Shape::LinksTo(lt) => 1 + max_nat(lt.primary.height(), 1),
            Shape::HasA(h) => 1 + max_nat(h.primary.height(), 1),
            Shape::Sort(st) => 1 + st.it.height(),
            Shape::Materialize(m) => 2 + m.sub.height(),
            Shape::Count(c) => 2 + c.it.height(),
            Shape::Unique(u) => 1 + u.it.height(),
            Shape::Not(n) => 1 + max_nat(n.primary.height(), n.all_it.height()),
            Shape::Skip(k) => 1 + k.it.height(),
            Shape::Or(o) => 1 + shape_seq_height(o.sub@, 0),
        }
    }

    /// An upper bound on the path bound of its indexes, for a store whose
    /// quad iterators yield at most `qb` quads.
    pub open spec fn max_path(&self, qb: nat) -> nat
        decreases self, 0nat,
    {
        match self {
            Shape::Null(_) => 0,
            Shape::Error(_) => 0,
            Shape::Fixed(_) => 0,
            Shape::And(a) => shape_seq_max_path(a.sub@, 0, qb)
                + match a.check_list { Some(v) => shape_seq_max_path(v@, 0, qb), None => 0 }
                + match a.opt { Some(v) => shape_seq_max_path(v@, 0, qb), None => 0 },
            Shape::Save(sv) => sv.it.max_path(qb),
            Shape::Limit(lm) => lm.it.max_path(qb),
            Shape::Or(o) => shape_seq_max_path(o.sub@, 0, qb),
            Shape::Skip(k) => k.it.max_path(qb),
            Shape::Not(_) => 0,
            Shape::Unique(_) => 0,
            Shape::Count(_) => 0,
            Shape::Materialize(m) => max_nat(m.sub.max_path(qb), (MATERIALIZE_LIMIT + 1) as nat),
            Shape::Sort(st) => st.it.max_path(qb),
            Shape::HasA(h) => (qb + 1) * (h.primary.max_path(qb) + 1),
            Shape::LinksTo(lt) => lt.primary.max_path(qb),
            Shape::ValueFilter(vf) => vf.sub.max_path(qb),
            Shape::Resolver(_) => 0,
            Shape::MemStore(_) => 0,
            Shape::MemStoreAll(_) => 0,
        }
    }

    /// An upper bound on the number of results of its scanners, for a store
    /// whose quad iterators yield at most `qb` quads.
    pub open spec fn max_rank(&self, qb: nat) -> nat
        decreases self, 0nat,
    {
        match self {
            Shape::Null(_) => 0,
            Shape::Error(_) => 0,
            Shape::Fixed(f) => f.values@.len(),
            Shape::And(a) => if a.sub@.len() == 0 { 0 } else { a.sub@[0].max_rank(qb) },
            Shape::Save(s) => s.it.max_rank(qb),
            Shape::Limit(l) => l.it.max_rank(qb),
            Shape::MemStoreAll(ma) => crate::graph::memstore::all_iterator::id_span(ma.maxid),
            Shape::MemStore(ms) => ms.quad_ids@.len(),
            Shape::Resolver(rv) => rv.order@.len() + 1,
            Shape::ValueFilter(vf) => vf.sub.max_rank(qb),
            Shape::LinksTo(lt) => (lt.primary.max_rank(qb) + 1) * (qb + 1),
            Shape::HasA(h) => h.primary.max_rank(qb),
            Shape::Sort(st) => st.it.max_rank(qb) + 1,
            Shape::Materialize(m) => m.sub.max_rank(qb) + 1,
            Shape::Count(c) => 1,
            Shape::Unique(u) => u.it.max_rank(qb),
            Shape::Not(n) => n.all_it.max_rank(qb),
            Shape::Skip(k) => k.it.max_rank(qb),
            Shape::Or(o) => shape_seq_max_rank(o.sub@, 0, qb),
        }
    }

    /// A scanner that lists the results.
    pub fn iterate<Q: QuadStore>(&self, qs: &Q) -> (r: Scanner)
        ensures
            scans_as(*self, r),
            r.wf(qs.quad_bound()),
            r.height() <= self.height(),
            r.rank() <= self.max_rank(qs.quad_bound()),
        decreases self, 0nat,
    {
        match self {
            Shape::Null(_) => Scanner::Null(Null {}),
            Shape::Error(e) => Scanner::Error(e.copy()),
            Shape::Fixed(f) => Scanner::Fixed(f.iterate()),
            Shape::And(a) => a.iterate(qs),
            Shape::Save(s) => Scanner::Save(s.iterate(qs)),
            Shape::Limit(l) => Scanner::Limit(l.iterate(qs)),
            Shape::MemStoreAll(ma) => Scanner::MemStoreAll(ma.iterate()),
            Shape::MemStore(ms) => Scanner::MemStore(ms.iterate()),
            Shape::Resolver(rv) => Scanner::Resolver(rv.iterate()),
            Shape::ValueFilter(vf) => Scanner::ValueFilter(vf.iterate(qs)),
            Shape::LinksTo(lt) => Scanner::LinksTo(lt.iterate(qs)),
            Shape::HasA(h) => Scanner::HasA(h.iterate(qs)),
            Shape::Sort(st) => Scanner::Sort(st.iterate(qs)),
            Shape::Materialize(m) => Scanner::Materialize(m.iterate(qs)),
            Shape::Count(c) => Scanner::Count(c.iterate(qs)),
            Shape::Unique(u) => Scanner::Unique(u.iterate(qs)),
            Shape::Not(n) => Scanner::Not(n.iterate(qs)),
            Shape::Skip(k) => Scanner::Skip(k.iterate(qs)),
            Shape::Or(o) => Scanner::Or(o.iterate(qs)),
        }
    }

    /// An index that checks membership in the results.
    pub fn lookup<Q: QuadStore>(&self, qs: &Q) -> (r: Index)
        ensures
            checks_as(*self, r),
            r.wf(qs.quad_bound()),
            r.height() <= self.height(),
            r.path_bound() <= self.max_path(qs.quad_bound()),
        decreases self, 0nat,
    {
        match self {
            Shape::Null(_) => Index::Null(Null {}),
            Shape::Error(e) => Index::Error(e.copy()),
            Shape::Fixed(f) => Index::Fixed(f.lookup()),
            Shape::And(a) => a.lookup(qs),
            Shape::Save(s) => Index::Save(s.lookup(qs)),
            Shape::Limit(l) => Index::Limit(l.lookup(qs)),
            Shape::MemStoreAll(ma) => Index::MemStoreAll(ma.lookup()),
            Shape::MemStore(ms) => Index::MemStore(ms.lookup()),
            Shape::Resolver(rv) => Index::Resolver(rv.lookup()),
            Shape::ValueFilter(vf) => Index::ValueFilter(vf.lookup(qs)),
            Shape::LinksTo(lt) => Index::LinksTo(lt.lookup(qs)),
            Shape::HasA(h) => Index::HasA(h.lookup(qs)),
            Shape::Sort(st) => st.it.lookup(qs),
            Shape::Materialize(m) => Index::Materialize(m.lookup(qs)),
            Shape::Count(c) => Index::Count(c.lookup(qs)),
            Shape::Unique(u) => Index::Unique(u.lookup(qs)),
            Shape::Not(n) => Index::Not(n.lookup(qs)),
            Shape::Skip(k) => Index::Skip(k.lookup(qs)),
            Shape::Or(o) => Index::Or(o.lookup(qs)),
        }
    }

    /// The cost estimates of the shape.
    pub fn stats<Q: QuadStore>(&self, qs: &Q) -> (r: Result<Costs, String>)
        ensures
            self is Null || self is Error ==> r == Ok::<Costs, String>(Costs::spec_new()),
            known_costs(*self) matches Some(c) ==> r == Ok::<Costs, String>(c),
        decreases self, 3nat,
    {
        match self {
            Shape::Null(_) => Ok(Costs::new()),
            Shape::Error(_) => Ok(Costs::new()),
            Shape::Fixed(f) => Ok(f.stats()),
            Shape::And(a) => a.stats(qs),
            Shape::Save(s) => s.it.stats(qs),
            Shape::Limit(l) => {
                let c = l.it.stats(qs)?;
                Ok(limit_costs(c, l.limit))
            },
            Shape::Or(o) => o.stats(qs),
            Shape::Skip(k) => {
                let c = k.it.stats(qs)?;
                Ok(skip_costs(c, k.skip))
            },
            Shape::Not(n) => {
                let p = n.primary.stats(qs)?;
                let a = n.all_it.stats(qs)?;
                Ok(not_costs(p, a))
            },
            Shape::Unique(u) => {
                let c = u.it.stats(qs)?;
                Ok(unique_costs(c))
            },
            Shape::Count(c) => c.stats(qs),
            Shape::Materialize(m) => m.stats(qs),
            Shape::Sort(st) => st.stats(qs),
            Shape::HasA(h) => h.stats(qs),
            Shape::LinksTo(lt) => lt.stats(qs),
            Shape::ValueFilter(vf) => vf.stats(qs),
            Shape::Resolver(rv) => Ok(rv.stats()),
            Shape::MemStore(ms) => Ok(ms.stats()),
            Shape::MemStoreAll(ma) => Ok(ma.stats(qs)),
        }
    }

    /// A copy of the shape, of the same height.
    /// Which kind of shape this is.
    pub open spec fn kind(&self) -> nat {
        match self {
            Shape::Null(_) => 0,
            Shape::Error(_) => 1,
            Shape::Fixed(_) => 2,
            Shape::And(_) => 3,
            Shape::Save(_) => 4,
            Shape::Limit(_) => 5,
            Shape::MemStoreAll(_) => 6,
            Shape::MemStore(_) => 7,
            Shape::Resolver(_) => 8,
            Shape::ValueFilter(_) => 9,
            Shape::LinksTo(_) => 10,
            Shape::HasA(_) => 11,
            Shape::Sort(_) => 12,
            Shape::Materialize(_) => 13,
            Shape::Count(_) => 14,
            Shape::Unique(_) => 15,
            Shape::Not(_) => 16,
            Shape::Skip(_) => 17,
            Shape::Or(_) => 18,
        }
    }

    pub fn copy(&self) -> (r: Shape)
        ensures
            same_fixed(*self, r),
            r.height() == self.height(),
            r.kind() == self.kind(),
            crate::graph::iterator::optimize::optimizes_to_null(*self) ==> crate::graph::iterator::optimize::optimizes_to_null(r),
            forall|qb: nat| #[trigger] r.max_rank(qb) == self.max_rank(qb),
            forall|qb: nat| #[trigger] r.max_path(qb) == self.max_path(qb),
        decreases self, 0nat,
    {
        let r = match self {
            Shape::Null(_) => Shape::Null(Null {}),
            Shape::Error(e) => Shape::Error(e.copy()),
            Shape::Fixed(f) => Shape::Fixed(f.copy()),
            Shape::And(a) => {
                let sub = copy_shapes(&a.sub);
                let check_list = copy_opt_shapes(&a.check_list);
                let opt = copy_opt_shapes(&a.opt);
                Shape::And(And { sub, check_list, opt })
            },
            Shape::Save(sv) => Shape::Save(Save { it: Box::new(sv.it.copy()), tags: sv.tags.copy() }),
            Shape::Limit(l) => Shape::Limit(Limit { limit: l.limit, it: Box::new(l.it.copy()) }),
            Shape::Or(o) => Shape::Or(Or { is_short_circuiting: o.is_short_circuiting, sub: copy_shapes(&o.sub) }),
            Shape::Skip(k) => Shape::Skip(Skip { skip: k.skip, it: Box::new(k.it.copy()) }),
            Shape::Not(n) => Shape::Not(Not { primary: Box::new(n.primary.copy()), all_it: Box::new(n.all_it.copy()) }),
            Shape::Unique(u) => Shape::Unique(Unique { it: Box::new(u.it.copy()) }),
            Shape::Count(c) => Shape::Count(Count { it: Box::new(c.it.copy()), use_namer: c.use_namer }),
            Shape::Materialize(m) => Shape::Materialize(Materialize { sub: Box::new(m.sub.copy()), expected_size: m.expected_size }),
            Shape::Sort(st) => Shape::Sort(Sort { it: Box::new(st.it.copy()) }),
            Shape::HasA(h) => Shape::HasA(HasA { primary: Box::new(h.primary.copy()), dir: h.dir }),
            Shape::LinksTo(lt) => Shape::LinksTo(LinksTo { primary: Box::new(lt.primary.copy()), dir: lt.dir }),
            Shape::ValueFilter(vf) => Shape::ValueFilter(ValueFilter { sub: Box::new(vf.sub.copy()), filter: vf.filter.copy() }),
            Shape::Resolver(rv) => Shape::Resolver(Resolver { order: crate::graph::iterator::resolver::copy_values(&rv.order) }),
            Shape::MemStore(ms) => Shape::MemStore(MemStoreIterator { quad_ids: ms.quad_ids.clone(), d: ms.d }),
            Shape::MemStoreAll(ma) => Shape::MemStoreAll(MemStoreAllIterator { maxid: ma.maxid, nodes: ma.nodes }),
        };
        proof {
            assert forall|qb: nat| #[trigger] r.max_rank(qb) == self.max_rank(qb) by {
                lemma_max_rank_unfold(r, qb);
                lemma_max_rank_unfold(*self, qb);
                match (r, self) {
                    (Shape::And(a), Shape::And(b)) => {
                        if a.sub@.len() > 0 {
                            assert(a.sub@[0].max_rank(qb) == b.sub@[0].max_rank(qb));
                        }
                    },
                    (Shape::Save(a), Shape::Save(b)) => { assert(a.it.max_rank(qb) == b.it.max_rank(qb)); },
                    (Shape::Limit(a), Shape::Limit(b)) => { assert(a.it.max_rank(qb) == b.it.max_rank(qb)); },
                    (Shape::Skip(a), Shape::Skip(b)) => { assert(a.it.max_rank(qb) == b.it.max_rank(qb)); },
                    (Shape::Unique(a), Shape::Unique(b)) => { assert(a.it.max_rank(qb) == b.it.max_rank(qb)); },
                    (Shape::Not(a), Shape::Not(b)) => { assert(a.all_it.max_rank(qb) == b.all_it.max_rank(qb)); },
                    (Shape::Materialize(a), Shape::Materialize(b)) => { assert(a.sub.max_rank(qb) == b.sub.max_rank(qb)); },
                    (Shape::Sort(a), Shape::Sort(b)) => { assert(a.it.max_rank(qb) == b.it.max_rank(qb)); },
                    (Shape::HasA(a), Shape::HasA(b)) => { assert(a.primary.max_rank(qb) == b.primary.max_rank(qb)); },
                    (Shape::LinksTo(a), Shape::LinksTo(b)) => { assert(a.primary.max_rank(qb) == b.primary.max_rank(qb)); },
                    (Shape::ValueFilter(a), Shape::ValueFilter(b)) => { assert(a.sub.max_rank(qb) == b.sub.max_rank(qb)); },
                    (Shape::Resolver(a), Shape::Resolver(b)) => {
                        assert(crate::graph::iterator::unique::values_view(a.order@).len() == a.order@.len());
                        assert(crate::graph::iterator::unique::values_view(b.order@).len() == b.order@.len());
                    },
                    (Shape::Or(a), Shape::Or(b)) => { assert(shape_seq_max_rank(a.sub@, 0, qb) == shape_seq_max_rank(b.sub@, 0, qb)); },
                    _ => {},
                }
            }
            assert forall|qb: nat| #[trigger] r.max_path(qb) == self.max_path(qb) by {
                lemma_max_path_unfold(r, qb);
                lemma_max_path_unfold(*self, qb);
                match (r, self) {
                    (Shape::And(a), Shape::And(b)) => {
                        assert(shape_seq_max_path(a.sub@, 0, qb) == shape_seq_max_path(b.sub@, 0, qb));
                        match (a.check_list, b.check_list) {
                            (Some(x), Some(y)) => { assert(shape_seq_max_path(x@, 0, qb) == shape_seq_max_path(y@, 0, qb)); },
                            _ => {},
                        }
                        match (a.opt, b.opt) {
                            (Some(x), Some(y)) => { assert(shape_seq_max_path(x@, 0, qb) == shape_seq_max_path(y@, 0, qb)); },
                            _ => {},
                        }
                    },
                    (Shape::Save(a), Shape::Save(b)) => { assert(a.it.max_path(qb) == b.it.max_path(qb)); },
                    (Shape::Limit(a), Shape::Limit(b)) => { assert(a.it.max_path(qb) == b.it.max_path(qb)); },
                    (Shape::Skip(a), Shape::Skip(b)) => { assert(a.it.max_path(qb) == b.it.max_path(qb)); },
                    (Shape::Or(a), Shape::Or(b)) => { assert(shape_seq_max_path(a.sub@, 0, qb) == shape_seq_max_path(b.sub@, 0, qb)); },
                    (Shape::Materialize(a), Shape::Materialize(b)) => { assert(a.sub.max_path(qb) == b.sub.max_path(qb)); },
                    (Shape::Sort(a), Shape::Sort(b)) => { assert(a.it.max_path(qb) == b.it.max_path(qb)); },
                    (Shape::HasA(a), Shape::HasA(b)) => { assert(a.primary.max_path(qb) == b.primary.max_path(qb)); },
                    (Shape::LinksTo(a), Shape::LinksTo(b)) => { assert(a.primary.max_path(qb) == b.primary.max_path(qb)); },
                    (Shape::ValueFilter(a), Shape::ValueFilter(b)) => { assert(a.sub.max_path(qb) == b.sub.max_path(qb)); },
                    _ => {},
                }
            }
        }
        r
    }

    /// Whether this is the empty iterator.
    pub fn is_null(&self) -> (r: bool)
        ensures
            r == (self is Null),
    {
        match self {
            Shape::Null(_) => true,
            _ => false,
        }
    }
}

/// The largest height of the indexes in `s` from position `i` on.
pub open spec fn index_seq_height(s: Seq<Index>, i: int) -> nat
    decreases s, s.len() - i,
{
    if 0 <= i < s.len() {
        max_nat(s[i].height(), index_seq_height(s, i + 1))
    } else {
        0
    }
}

/// Whether all indexes in `s` are well formed.
pub open spec fn index_seq_wf(s: Seq<Index>, qb: nat) -> bool {
    forall|i: int| 0 <= i < s.len() ==> (#[trigger] s[i]).wf(qb)
}

/// The sum of the path ranks of the indexes in `s` from position `i` on.
pub open spec fn index_seq_path_rank(s: Seq<Index>, i: int) -> nat
    decreases s, s.len() - i,
{
    if 0 <= i < s.len() {
        s[i].path_rank() + index_seq_path_rank(s, i + 1)
    } else {
        0
    }
}

pub proof fn lemma_index_seq_height(s: Seq<Index>, i: int, j: int)
    requires
        0 <= i <= j < s.len(),
    ensures
        s[j].height() <= index_seq_height(s, i),
    decreases j - i,
{
    if i < j {
        lemma_index_seq_height(s, i + 1, j);
    }
}

/// If every index of `s` is no higher than `b`, neither is their maximum.
pub proof fn lemma_index_seq_height_bound(s: Seq<Index>, i: int, b: nat)
    requires
        forall|j: int| 0 <= j < s.len() ==> (#[trigger] s[j]).height() <= b,
    ensures
        index_seq_height(s, i) <= b,
    decreases s.len() - i,
{
    if 0 <= i < s.len() {
        lemma_index_seq_height_bound(s, i + 1, b);
    }
}

/// Pointwise no higher means no higher at the maximum.
pub proof fn lemma_index_seq_height_pointwise(a: Seq<Index>, b: Seq<Index>, i: int)
    requires
        a.len() == b.len(),
        forall|j: int| 0 <= j < a.len() ==> (#[trigger] a[j]).height() <= b[j].height(),
    ensures
        index_seq_height(a, i) <= index_seq_height(b, i),
    decreases a.len() - i,
{
    if 0 <= i < a.len() {
        lemma_index_seq_height_pointwise(a, b, i + 1);
    }
}

/// Pointwise no larger path ranks give no larger sums, and a strictly smaller
/// one at some position from `i` on gives a strictly smaller sum.
pub proof fn lemma_index_seq_path_rank_pointwise(a: Seq<Index>, b: Seq<Index>, i: int, k: int)
    requires
        a.len() == b.len(),
        forall|j: int| 0 <= j < a.len() ==> (#[trigger] a[j]).path_rank() <= b[j].path_rank(),
    ensures
        index_seq_path_rank(a, i) <= index_seq_path_rank(b, i),
        0 <= i <= k < a.len() && a[k].path_rank() < b[k].path_rank() ==> index_seq_path_rank(a, i)
            < index_seq_path_rank(b, i),
    decreases a.len() - i,
{
    if 0 <= i < a.len() {
        lemma_index_seq_path_rank_pointwise(a, b, i + 1, k);
    }
}

/// Every index in a sequence is no higher than their maximum.
pub proof fn lemma_index_seq_all_below(s: Seq<Index>)
    ensures
        forall|j: int| 0 <= j < s.len() ==> (#[trigger] s[j]).height() <= index_seq_height(s, 0),
{
    assert forall|j: int| 0 <= j < s.len() implies (#[trigger] s[j]).height() <= index_seq_height(s, 0) by {
        lemma_index_seq_height(s, 0, j);
    }
}

/// The sum of the largest numbers of results of the shapes in `s` from
/// position `i` on.
pub open spec fn shape_seq_max_rank(s: Seq<Shape>, i: int, qb: nat) -> nat
    decreases s, s.len() - i,
{
    if 0 <= i < s.len() {
        s[i].max_rank(qb) + shape_seq_max_rank(s, i + 1, qb)
    } else {
        0
    }
}

/// The largest height of the scanners in `s` from position `i` on.
pub open spec fn scanner_seq_height(s: Seq<Scanner>, i: int) -> nat
    decreases s, s.len() - i,
{
    if 0 <= i < s.len() {
        max_nat(s[i].height(), scanner_seq_height(s, i + 1))
    } else {
        0
    }
}

/// Whether all scanners in `s` are well formed.
pub open spec fn scanner_seq_wf(s: Seq<Scanner>, qb: nat) -> bool {
    forall|i: int| 0 <= i < s.len() ==> (#[trigger] s[i]).wf(qb)
}

/// The sum of the ranks of the scanners in `s` from position `i` on.
pub open spec fn scanner_seq_rank(s: Seq<Scanner>, i: int) -> nat
    decreases s, s.len() - i,
{
    if 0 <= i < s.len() {
        s[i].rank() + scanner_seq_rank(s, i + 1)
    } else {
        0
    }
}

/// The sum of the path ranks of the scanners in `s` from position `i` on.
pub open spec fn scanner_seq_path_rank(s: Seq<Scanner>, i: int) -> nat
    decreases s, s.len() - i,
{
    if 0 <= i < s.len() {
        s[i].path_rank() + scanner_seq_path_rank(s, i + 1)
    } else {
        0
    }
}

/// Every scanner in a sequence is no higher than their maximum.
pub proof fn lemma_scanner_seq_all_below(s: Seq<Scanner>)
    ensures
        forall|j: int| 0 <= j < s.len() ==> (#[trigger] s[j]).height() <= scanner_seq_height(s, 0),
{
    assert forall|j: int| 0 <= j < s.len() implies (#[trigger] s[j]).height() <= scanner_seq_height(s, 0) by {
        lemma_scanner_seq_height(s, 0, j);
    }
}

pub proof fn lemma_scanner_seq_height(s: Seq<Scanner>, i: int, j: int)
    requires
        0 <= i <= j < s.len(),
    ensures
        s[j].height() <= scanner_seq_height(s, i),
    decreases j - i,
{
    if i < j {
        lemma_scanner_seq_height(s, i + 1, j);
    }
}

/// Pointwise no higher means no higher at the maximum.
pub proof fn lemma_scanner_seq_height_pointwise(a: Seq<Scanner>, b: Seq<Scanner>, i: int)
    requires
        a.len() == b.len(),
        forall|j: int| 0 <= j < a.len() ==> (#[trigger] a[j]).height() <= b[j].height(),
    ensures
        scanner_seq_height(a, i) <= scanner_seq_height(b, i),
    decreases a.len() - i,
{
    if 0 <= i < a.len() {
        lemma_scanner_seq_height_pointwise(a, b, i + 1);
    }
}

/// If every scanner of `s` is no higher than `b`, neither is their maximum.
pub proof fn lemma_scanner_seq_height_bound(s: Seq<Scanner>, i: int, b: nat)
    requires
        forall|j: int| 0 <= j < s.len() ==> (#[trigger] s[j]).height() <= b,
    ensures
        scanner_seq_height(s, i) <= b,
    decreases s.len() - i,
{
    if 0 <= i < s.len() {
        lemma_scanner_seq_height_bound(s, i + 1, b);
    }
}

/// Pointwise no larger ranks give no larger sums, and a strictly smaller
/// one at some position from `i` on gives a strictly smaller sum.
pub proof fn lemma_scanner_seq_rank_pointwise(a: Seq<Scanner>, b: Seq<Scanner>, i: int, k: int)
    requires
        a.len() == b.len(),
        forall|j: int| 0 <= j < a.len() ==> (#[trigger] a[j]).rank() <= b[j].rank(),
    ensures
        scanner_seq_rank(a, i) <= scanner_seq_rank(b, i),
        0 <= i <= k < a.len() && a[k].rank() < b[k].rank() ==> scanner_seq_rank(a, i) < scanner_seq_rank(b, i),
    decreases a.len() - i,
{
    if 0 <= i < a.len() {
        lemma_scanner_seq_rank_pointwise(a, b, i + 1, k);
    }
}

/// The same for path ranks.
pub proof fn lemma_scanner_seq_path_rank_pointwise(a: Seq<Scanner>, b: Seq<Scanner>, i: int, k: int)
    requires
        a.len() == b.len(),
        forall|j: int| 0 <= j < a.len() ==> (#[trigger] a[j]).path_rank() <= b[j].path_rank(),
    ensures
        scanner_seq_path_rank(a, i) <= scanner_seq_path_rank(b, i),
        0 <= i <= k < a.len() && a[k].path_rank() < b[k].path_rank() ==> scanner_seq_path_rank(a, i)
            < scanner_seq_path_rank(b, i),
    decreases a.len() - i,
{
    if 0 <= i < a.len() {
        lemma_scanner_seq_path_rank_pointwise(a, b, i + 1, k);
    }
}

/// Sums of ranks no larger than the sums of the matching largest numbers of results.
pub proof fn lemma_scanner_seq_rank_below(a: Seq<Scanner>, b: Seq<Shape>, i: int, qb: nat)
    requires
        a.len() == b.len(),
        forall|j: int| 0 <= j < a.len() ==> (#[trigger] a[j]).rank() <= b[j].max_rank(qb),
    ensures
        scanner_seq_rank(a, i) <= shape_seq_max_rank(b, i, qb),
    decreases a.len() - i,
{
    if 0 <= i < a.len() {
        lemma_scanner_seq_rank_below(a, b, i + 1, qb);
    }
}

/// The sum from a later position is no larger.
pub proof fn lemma_scanner_seq_rank_mono(s: Seq<Scanner>, i: int, j: int)
    requires
        0 <= i <= j,
    ensures
        scanner_seq_rank(s, j) <= scanner_seq_rank(s, i),
    decreases j - i,
{
    if i < j {
        lemma_scanner_seq_rank_mono(s, i + 1, j);
    }
}

/// The definition of `max_rank`, for one bound.
pub proof fn lemma_max_rank_unfold(s: Shape, qb: nat)
    ensures
        s.max_rank(qb) == (match s {
            Shape::Null(_) => 0,
            Shape::Error(_) => 0,
            Shape::Fixed(f) => f.values@.len(),
            Shape::And(a) => if a.sub@.len() == 0 { 0 } else { a.sub@[0].max_rank(qb) },
            Shape::Save(s) => s.it.max_rank(qb),
            Shape::Limit(lm) => lm.it.max_rank(qb),
            Shape::Unique(u) => u.it.max_rank(qb),
            Shape::Not(n) => n.all_it.max_rank(qb),
            Shape::Skip(k) => k.it.max_rank(qb),
            Shape::Or(o) => shape_seq_max_rank(o.sub@, 0, qb),
            Shape::Count(_) => 1nat,
            Shape::Materialize(m) => m.sub.max_rank(qb) + 1,
            Shape::Sort(st) => st.it.max_rank(qb) + 1,
            Shape::HasA(h) => h.primary.max_rank(qb),
            Shape::LinksTo(lt) => (lt.primary.max_rank(qb) + 1) * (qb + 1),
            Shape::ValueFilter(vf) => vf.sub.max_rank(qb),
            Shape::Resolver(rv) => rv.order@.len() + 1,
            Shape::MemStore(ms) => ms.quad_ids@.len(),
            Shape::MemStoreAll(ma) => crate::graph::memstore::all_iterator::id_span(ma.maxid),
        }),
{
}

/// The definition of `max_path`, for one bound.
pub proof fn lemma_max_path_unfold(s: Shape, qb: nat)
    ensures
        s.max_path(qb) == (match s {
            Shape::And(a) => shape_seq_max_path(a.sub@, 0, qb)
                + match a.check_list { Some(v) => shape_seq_max_path(v@, 0, qb), None => 0 }
                + match a.opt { Some(v) => shape_seq_max_path(v@, 0, qb), None => 0 },
            Shape::Save(sv) => sv.it.max_path(qb),
            Shape::Limit(lm) => lm.it.max_path(qb),
            Shape::Or(o) => shape_seq_max_path(o.sub@, 0, qb),
            Shape::Skip(k) => k.it.max_path(qb),
            Shape::Materialize(m) => max_nat(m.sub.max_path(qb), (MATERIALIZE_LIMIT + 1) as nat),
            Shape::Sort(st) => st.it.max_path(qb),
            Shape::HasA(h) => (qb + 1) * (h.primary.max_path(qb) + 1),
            Shape::LinksTo(lt) => lt.primary.max_path(qb),
            Shape::ValueFilter(vf) => vf.sub.max_path(qb),
            _ => 0nat,
        }),
{
}

/// Sequences of shapes with the same heights and bounds, position by
/// position, have the same maximum height and the same sum of bounds.
pub proof fn lemma_shape_seq_same(a: Seq<Shape>, b: Seq<Shape>, i: int)
    requires
        a.len() == b.len(),
        forall|j: int| 0 <= j < a.len() ==> (#[trigger] a[j]).height() == b[j].height(),
        forall|j: int, qb: nat| #![trigger a[j].max_rank(qb)] 0 <= j < a.len() ==> a[j].max_rank(qb) == b[j].max_rank(qb),
        forall|j: int, qb: nat| #![trigger a[j].max_path(qb)] 0 <= j < a.len() ==> a[j].max_path(qb) == b[j].max_path(qb),
    ensures
        shape_seq_height(a, i) == shape_seq_height(b, i),
        forall|qb: nat| #[trigger] shape_seq_max_rank(a, i, qb) == shape_seq_max_rank(b, i, qb),
        forall|qb: nat| #[trigger] shape_seq_max_path(a, i, qb) == shape_seq_max_path(b, i, qb),
    decreases a.len() - i,
{
    if 0 <= i < a.len() {
        lemma_shape_seq_same(a, b, i + 1);
        assert forall|qb: nat| #[trigger] shape_seq_max_rank(a, i, qb) == shape_seq_max_rank(b, i, qb) by {
            assert(shape_seq_max_rank(a, i, qb) == a[i].max_rank(qb) + shape_seq_max_rank(a, i + 1, qb));
            assert(shape_seq_max_rank(b, i, qb) == b[i].max_rank(qb) + shape_seq_max_rank(b, i + 1, qb));
            assert(a[i].max_rank(qb) == b[i].max_rank(qb));
            assert(shape_seq_max_rank(a, i + 1, qb) == shape_seq_max_rank(b, i + 1, qb));
        }
        assert forall|qb: nat| #[trigger] shape_seq_max_path(a, i, qb) == shape_seq_max_path(b, i, qb) by {
            assert(shape_seq_max_path(a, i, qb) == a[i].max_path(qb) + shape_seq_max_path(a, i + 1, qb));
            assert(shape_seq_max_path(b, i, qb) == b[i].max_path(qb) + shape_seq_max_path(b, i + 1, qb));
            assert(a[i].max_path(qb) == b[i].max_path(qb));
            assert(shape_seq_max_path(a, i + 1, qb) == shape_seq_max_path(b, i + 1, qb));
        }
    } else {
        assert forall|qb: nat| #[trigger] shape_seq_max_path(a, i, qb) == shape_seq_max_path(b, i, qb) by {
            assert(shape_seq_max_path(a, i, qb) == 0);
            assert(shape_seq_max_path(b, i, qb) == 0);
        }
        assert forall|qb: nat| #[trigger] shape_seq_max_rank(a, i, qb) == shape_seq_max_rank(b, i, qb) by {
            assert(shape_seq_max_rank(a, i, qb) == 0);
            assert(shape_seq_max_rank(b, i, qb) == 0);
        }
    }
}

/// Copies every shape of `s`.
pub fn copy_shapes(s: &Vec<Shape>) -> (r: Vec<Shape>)
    ensures
        r@.len() == s@.len(),
        forall|j: int| 0 <= j < r@.len() ==> same_fixed(s@[j], #[trigger] r@[j]),
        forall|j: int| 0 <= j < r@.len() ==> (#[trigger] r@[j]).kind() == s@[j].kind(),
        forall|j: int| 0 <= j < r@.len() && crate::graph::iterator::optimize::optimizes_to_null(s@[j]) ==> crate::graph::iterator::optimize::optimizes_to_null(#[trigger] r@[j]),
        forall|j: int| 0 <= j < r@.len() ==> (#[trigger] r@[j]).height() == s@[j].height(),
        forall|j: int, qb: nat| #![trigger r@[j].max_rank(qb)] 0 <= j < r@.len() ==> r@[j].max_rank(qb) == s@[j].max_rank(qb),
        forall|j: int, qb: nat| #![trigger r@[j].max_path(qb)] 0 <= j < r@.len() ==> r@[j].max_path(qb) == s@[j].max_path(qb),
        shape_seq_height(r@, 0) == shape_seq_height(s@, 0),
        forall|qb: nat| #[trigger] shape_seq_max_rank(r@, 0, qb) == shape_seq_max_rank(s@, 0, qb),
        forall|qb: nat| #[trigger] shape_seq_max_path(r@, 0, qb) == shape_seq_max_path(s@, 0, qb),
    decreases s, 0nat,
{
    let mut r: Vec<Shape> = Vec::new();
    let mut i: usize = 0;
    while i < s.len()
        invariant
            i <= s@.len(),
            r@.len() == i,
            forall|j: int| 0 <= j < r@.len() ==> (#[trigger] r@[j]).height() == s@[j].height(),
            forall|j: int| 0 <= j < r@.len() ==> (#[trigger] r@[j]).kind() == s@[j].kind(),
            forall|j: int| 0 <= j < r@.len() ==> same_fixed(s@[j], #[trigger] r@[j]),
            forall|j: int| 0 <= j < r@.len() && crate::graph::iterator::optimize::optimizes_to_null(s@[j]) ==> crate::graph::iterator::optimize::optimizes_to_null(#[trigger] r@[j]),
            forall|j: int, qb: nat| #![trigger r@[j].max_rank(qb)] 0 <= j < r@.len() ==> r@[j].max_rank(qb) == s@[j].max_rank(qb),
            forall|j: int, qb: nat| #![trigger r@[j].max_path(qb)] 0 <= j < r@.len() ==> r@[j].max_path(qb) == s@[j].max_path(qb),
        decreases s@.len() - i,
    {
        let c = s[i].copy();
        r.push(c);
        proof {
            assert forall|j: int, qb: nat| #![trigger r@[j].max_rank(qb)] 0 <= j < r@.len() implies r@[j].max_rank(qb) == s@[j].max_rank(qb) by {
                if j == i {
                    assert(c.max_rank(qb) == s@[j].max_rank(qb));
                }
            }
            assert forall|j: int, qb: nat| #![trigger r@[j].max_path(qb)] 0 <= j < r@.len() implies r@[j].max_path(qb) == s@[j].max_path(qb) by {
                if j == i {
                    assert(c.max_path(qb) == s@[j].max_path(qb));
                }
            }
        }
        i = i + 1;
    }
    proof {
        lemma_shape_seq_same(r@, s@, 0);
    }
    r
}

/// Copies an optional list of shapes.
pub fn copy_opt_shapes(s: &Option<Vec<Shape>>) -> (r: Option<Vec<Shape>>)
    ensures
        r is Some == s is Some,
        r matches Some(v) ==> (s matches Some(w) && shape_seq_height(v@, 0) == shape_seq_height(w@, 0)
            && v@.len() == w@.len()),
        r matches Some(v) ==> (s matches Some(w) && forall|j: int, qb: nat| #![trigger v@[j].max_rank(qb)] 0 <= j < v@.len() ==> v@[j].max_rank(qb) == w@[j].max_rank(qb)),
        r matches Some(v) ==> (s matches Some(w) && forall|qb: nat| #[trigger] shape_seq_max_path(v@, 0, qb) == shape_seq_max_path(w@, 0, qb)),
    decreases s, 0nat,
{
    match s {
        Some(v) => Some(copy_shapes(v)),
        None => None,
    }
}

/// The sum of the path bounds of the shapes in `s` from position `i` on.
pub open spec fn shape_seq_max_path(s: Seq<Shape>, i: int, qb: nat) -> nat
    decreases s, s.len() - i,
{
    if 0 <= i < s.len() {
        s[i].max_path(qb) + shape_seq_max_path(s, i + 1, qb)
    } else {
        0
    }
}

/// The sum of the path bounds of the indexes in `s` from position `i` on.
pub open spec fn index_seq_path_bound(s: Seq<Index>, i: int) -> nat
    decreases s, s.len() - i,
{
    if 0 <= i < s.len() {
        s[i].path_bound() + index_seq_path_bound(s, i + 1)
    } else {
        0
    }
}

/// A well-formed index has no more paths ahead than its bound.
pub proof fn lemma_index_path_bounded(ix: Index, qb: nat)
    requires
        ix.wf(qb),
    ensures
        ix.path_rank() <= ix.path_bound(),
    decreases ix, 0nat,
{
    match ix {
        Index::And(a) => {
            lemma_index_seq_path_bounded(a.sub@, 0, qb);
            lemma_index_seq_path_bounded(a.opt@, 0, qb);
        },
        Index::Or(o) => {
            lemma_index_seq_path_bounded(o.sub@, 0, qb);
        },
        Index::Save(sv) => {
            lemma_index_path_bounded(*sv.it, qb);
        },
        Index::Limit(lm) => {
            lemma_index_path_bounded(*lm.it, qb);
        },
        Index::Skip(k) => {
            lemma_index_path_bounded(*k.it, qb);
        },
        Index::Materialize(m) => {
            match m.sub {
                Some(sb) => {
                    lemma_index_path_bounded(*sb, qb);
                },
                None => {},
            }
        },
        Index::LinksTo(lt) => {
            lemma_index_path_bounded(*lt.primary, qb);
        },
        Index::ValueFilter(vf) => {
            lemma_index_path_bounded(*vf.sub, qb);
        },
        Index::HasA(h) => {
            lemma_index_path_bounded(*h.primary, qb);
            let rr = match h.results { Some(rs) => rs.rank(), None => 0 };
            let p = h.primary.path_bound();
            let pp = h.primary.path_rank();
            assert(rr * (p + 1) + pp <= (qb + 1) * (p + 1)) by (nonlinear_arith)
                requires
                    rr <= qb,
                    pp <= p,
            ;
        },
        _ => {},
    }
}

/// The same for a sequence of well-formed indexes.
pub proof fn lemma_index_seq_path_bounded(s: Seq<Index>, i: int, qb: nat)
    requires
        forall|j: int| 0 <= j < s.len() ==> (#[trigger] s[j]).wf(qb),
    ensures
        index_seq_path_rank(s, i) <= index_seq_path_bound(s, i),
    decreases s, s.len() - i,
{
    if 0 <= i < s.len() {
        lemma_index_path_bounded(s[i], qb);
        lemma_index_seq_path_bounded(s, i + 1, qb);
    }
}

/// Pointwise equal path bounds give equal sums.
pub proof fn lemma_index_seq_path_bound_same(a: Seq<Index>, b: Seq<Index>, i: int)
    requires
        a.len() == b.len(),
        forall|j: int| 0 <= j < a.len() ==> (#[trigger] a[j]).path_bound() == b[j].path_bound(),
    ensures
        index_seq_path_bound(a, i) == index_seq_path_bound(b, i),
    decreases a.len() - i,
{
    if 0 <= i < a.len() {
        lemma_index_seq_path_bound_same(a, b, i + 1);
    }
}

/// Path bounds no larger than the matching shapes' bounds (the shapes taken
/// from position `off` on) give a sum no larger.
pub proof fn lemma_index_seq_path_bound_below(r: Seq<Index>, s: Seq<Shape>, i: int, off: int, qb: nat)
    requires
        0 <= off,
        r.len() + off == s.len(),
        forall|j: int| 0 <= j < r.len() ==> (#[trigger] r[j]).path_bound() <= s[j + off].max_path(qb),
    ensures
        index_seq_path_bound(r, i) <= shape_seq_max_path(s, i + off, qb),
    decreases r.len() - i,
{
    if 0 <= i < r.len() {
        lemma_index_seq_path_bound_below(r, s, i + 1, off, qb);
    } else if i >= r.len() {
        assert(index_seq_path_bound(r, i) == 0);
    }
}

impl Scanner {
    pub open spec fn height(&self) -> nat
        decreases self, 0nat,
    {
        match self {
            Scanner::Null(_) => 1,
            Scanner::Error(_) => 1,
            Scanner::Fixed(_) => 1,
            Scanner::And(a) => 1 + max_nat(a.primary.height(), a.secondary.height()),
            Scanner::Save(s) => 1 + s.it.height(),
            Scanner::Limit(l) => 1 + l.it.height(),
            Scanner::MemStoreAll(_) => 1,
            Scanner::MemStore(_) => 1,
            Scanner::Resolver(_) => 1,
            Scanner::ValueFilter(vf) => 1 + vf.sub.height(),
            Scanner::LinksTo(lt) => 1 + max_nat(lt.primary.height(), max_nat(1, lt.next_it.height())),
            Scanner::HasA(h) => 1 + h.primary.height(),
            Scanner::Sort(st) => 1 + st.it.height(),
            Scanner::Materialize(m) => 1 + max_nat(m.sub.height(), m.next.height()),
            Scanner::Count(c) => 1 + c.it.height(),
            Scanner::Unique(u) => 1 + u.it.height(),
            Scanner::Not(n) => 1 + max_nat(n.primary_it.height(), n.all_it.height()),
            Scanner::Skip(k) => 1 + k.it.height(),
            Scanner::Or(o) => 1 + scanner_seq_height(o.sub@, 0),
        }
    }

    /// The invariant of the scanner, for a store whose quad iterators yield
    /// at most `qb` quads.
    pub open spec fn wf(&self, qb: nat) -> bool
        decreases self, 0nat,
    {
        match self {
            Scanner::Null(_) => true,
            Scanner::Error(_) => true,
            Scanner::Fixed(f) => f.ind <= f.values@.len(),
            Scanner::And(a) => a.primary.wf(qb) && a.secondary.wf(qb),
            Scanner::Save(s) => s.it.wf(qb),
            Scanner::Limit(l) => l.it.wf(qb) && 0 <= l.count && (l.limit > 0 ==> l.count <= l.limit),
            Scanner::MemStoreAll(ma) => (ma.cur matches Some(c) ==> 1 <= c <= ma.maxid),
            Scanner::MemStore(ms) => ms.pos <= ms.quad_ids@.len(),
            Scanner::Resolver(rv) => (rv.cached ==> rv.index <= rv.values@.len()) && (!rv.cached ==> rv.index == 0),
            Scanner::ValueFilter(vf) => vf.sub.wf(qb),
            Scanner::LinksTo(lt) => lt.primary.wf(qb) && lt.next_it.wf(qb) && lt.next_it.rank() <= qb && lt.next_it.height() <= 1 && lt.qb@ == qb,
            Scanner::HasA(h) => h.primary.wf(qb),
            Scanner::Sort(st) => st.it.wf(qb)
                && (st.ordered matches Some(o) ==> crate::graph::iterator::sort::keys_sorted(crate::graph::iterator::sort::sort_keys(o@)))
                && (st.ordered matches Some(o) ==> (st.index < o@.len() ==> st.path_index <= o@[st.index as int].paths@.len())),
            Scanner::Materialize(m) => {
                &&& m.next.wf(qb)
                &&& m.next.height() <= m.sub.height()
                &&& m.keys@.len() == m.values@.len()
                &&& forall|i: int| 0 <= i < m.values@.len() ==> (#[trigger] m.values@[i])@.len() > 0
                &&& m.index matches Some(i) ==> i <= m.values@.len()
                &&& m.index matches Some(i) ==> (i < m.values@.len() ==> m.sub_index < m.values@[i as int]@.len())
                &&& m.sub.max_rank(qb) <= m.bound@
                &&& !m.has_run ==> m.next.rank() <= m.bound@ && m.values@.len() == 0 && m.index is None
                &&& m.aborted ==> m.has_run
                &&& m.values@.len() <= m.bound@
                &&& forall|i: int| 0 <= i < m.values@.len() ==> (#[trigger] m.values@[i])@.len() <= MATERIALIZE_LIMIT + 1
            },
            Scanner::Count(_) => true,
            Scanner::Unique(u) => u.it.wf(qb),
            Scanner::Not(n) => n.primary_it.wf(qb) && n.all_it.wf(qb),
            Scanner::Skip(k) => k.it.wf(qb) && 0 <= k.skipped && (k.skipped <= k.skip || k.skipped == 0),
            Scanner::Or(o) => (forall|i: int| 0 <= i < o.sub@.len() ==> (#[trigger] o.sub@[i]).wf(qb))
                && (o.cur_ind matches Some(c) ==> c <= o.sub@.len()),
        }
    }

    /// An upper bound on the number of further results of `next`.
    pub open spec fn rank(&self) -> nat
        decreases self, 0nat,
    {
        match self {
            Scanner::Null(_) => 0,
            Scanner::Error(_) => 0,
            Scanner::Fixed(f) => (f.values@.len() - f.ind) as nat,
            Scanner::And(a) => a.primary.rank(),
            Scanner::Save(s) => s.it.rank(),
            Scanner::Limit(l) => l.it.rank(),
            Scanner::MemStoreAll(ma) => if ma.done { 0 } else { match ma.cur { None => crate::graph::memstore::all_iterator::id_span(ma.maxid), Some(c) => (ma.maxid - c) as nat } },
            Scanner::MemStore(ms) => (ms.quad_ids@.len() - ms.pos) as nat,
            Scanner::Resolver(rv) => if rv.cached { (rv.values@.len() - rv.index) as nat } else { rv.order@.len() + 1 },
            Scanner::ValueFilter(vf) => vf.sub.rank(),
            Scanner::LinksTo(lt) => lt.primary.rank() * (lt.qb@ + 1) + lt.next_it.rank(),
            Scanner::HasA(h) => h.primary.rank(),
            Scanner::Sort(st) => match st.ordered {
                None => st.it.rank() + 1,
                Some(o) => if st.index <= o@.len() { (o@.len() - st.index) as nat } else { 0 },
            },
            Scanner::Materialize(m) => if !m.has_run { m.bound@ + 1 } else if m.aborted { m.next.rank() } else {
                match m.index {
                    None => m.values@.len(),
                    Some(i) => if i + 1 <= m.values@.len() { (m.values@.len() - i - 1) as nat } else { 0 },
                }
            },
            Scanner::Count(c) => if c.done { 0 } else { 1 },
            Scanner::Unique(u) => u.it.rank(),
            Scanner::Not(n) => n.all_it.rank(),
            Scanner::Skip(k) => k.it.rank(),
            Scanner::Or(o) => scanner_seq_rank(o.sub@, crate::graph::iterator::or::or_start(o.cur_ind)),
        }
    }

    /// An upper bound on the number of further results of `next_path`.
    pub open spec fn path_rank(&self) -> nat
        decreases self, 0nat,
    {
        match self {
            Scanner::Null(_) => 0,
            Scanner::Error(_) => 0,
            Scanner::Fixed(_) => 0,
            Scanner::And(a) => a.primary.path_rank() + a.secondary.path_rank(),
            Scanner::Save(s) => s.it.path_rank(),
            Scanner::Limit(l) => l.it.path_rank(),
            Scanner::MemStoreAll(_) => 0,
            Scanner::MemStore(_) => 0,
            Scanner::Resolver(_) => 0,
            Scanner::ValueFilter(vf) => vf.sub.path_rank(),
            Scanner::LinksTo(lt) => lt.primary.path_rank(),
            Scanner::HasA(h) => h.primary.path_rank(),
            Scanner::Sort(st) => match st.ordered {
                Some(o) => if st.index < o@.len() {
                    (o@[st.index as int].paths@.len() - st.path_index) as nat
                } else {
                    0
                },
                None => 0,
            },
            Scanner::Materialize(m) => if !m.has_run { 0 } else if m.aborted { m.next.path_rank() } else {
                match m.index {
                    Some(i) => if i < m.values@.len() && m.sub_index + 1 <= m.values@[i as int]@.len() {
                        (m.values@[i as int]@.len() - m.sub_index - 1) as nat
                    } else {
                        0
                    },
                    None => 0,
                }
            },
            Scanner::Count(_) => 0,
            Scanner::Unique(u) => 0,
            Scanner::Not(n) => 0,
            Scanner::Skip(k) => k.it.path_rank(),
            Scanner::Or(o) => scanner_seq_path_rank(o.sub@, 0),
        }
    }

    /// Which kind of scanner this is; a step never changes it.
    pub open spec fn kind(&self) -> nat {
        match self {
            Scanner::Null(_) => 0,
            Scanner::Error(_) => 1,
            Scanner::Fixed(_) => 2,
            Scanner::And(_) => 3,
            Scanner::Save(_) => 4,
            Scanner::Limit(_) => 5,
            Scanner::MemStoreAll(_) => 6,
            Scanner::MemStore(_) => 7,
            Scanner::Resolver(_) => 8,
            Scanner::ValueFilter(_) => 9,
            Scanner::LinksTo(_) => 10,
            Scanner::HasA(_) => 11,
            Scanner::Sort(_) => 12,
            Scanner::Materialize(_) => 13,
            Scanner::Count(_) => 14,
            Scanner::Unique(_) => 15,
            Scanner::Not(_) => 16,
            Scanner::Skip(_) => 17,
            Scanner::Or(_) => 18,
        }
    }

    /// What a step of `next` from `self` to `after`, answering `r`, keeps
    /// and does: the invariant and height stay, the rank falls on success,
    /// the empty and failed scanners stay put, and a fixed list moves to its
    /// next value.
    pub open spec fn next_step(self, after: Scanner, r: bool, qb: nat) -> bool
        decreases self.height(), 0nat,
    {
        &&& after.kind() == self.kind()
        &&& after.wf(qb)
        &&& after.height() <= self.height()
        &&& r ==> after.rank() < self.rank()
        &&& !r ==> after.rank() <= self.rank()
        &&& self is Null ==> !r && after == self
        &&& self is Error ==> !r && after == self
        &&& self matches Scanner::Fixed(f) ==> (r <==> f.ind < f.values@.len())
            && (r ==> after.spec_result() == Some(f.values@[f.ind as int]@))
            && (after matches Scanner::Fixed(g) && g.values == f.values && g.ind == (if r { f.ind + 1 } else { f.ind as int }))
        &&& self matches Scanner::And(a) ==> (after matches Scanner::And(b)
            && (r ==> b.result is Some && opt_ref_view(b.result) == b.primary.spec_result()
                && accepted_below(*b.secondary, b.result->0@, qb, a.secondary.height()))
            && (!r ==> b.result == a.result && ended_below(*b.primary, qb, a.primary.height())))
        &&& self matches Scanner::Save(s) ==> (after matches Scanner::Save(t)
            && t.tags == s.tags && s.it.next_step(*t.it, r, qb))
        &&& self matches Scanner::Limit(l) ==> (after matches Scanner::Limit(m)
            && m.limit == l.limit
            && (crate::graph::iterator::limit::limit_reached(l.limit, l.count) ==> !r && m.count == l.count)
            && (l.limit > 0 ==> m.count == l.count + if r { 1int } else { 0int })
            && (!crate::graph::iterator::limit::limit_reached(l.limit, l.count) ==> l.it.next_step(*m.it, r, qb)))
        &&& self matches Scanner::Skip(k) ==> (after matches Scanner::Skip(t)
            && t.skip == k.skip
            && (r ==> t.skipped == (if k.skip > 0 { k.skip } else { 0 }))
            && (k.skipped >= k.skip ==> k.it.next_step(*t.it, r, qb)))
        &&& self matches Scanner::HasA(h) ==> (after matches Scanner::HasA(g)
            && g.dir == h.dir && h.primary.next_step(*g.primary, r, qb)
            && (r ==> g.result is Some) && (!r ==> g.result == h.result))
        &&& self matches Scanner::Unique(u) ==> (after matches Scanner::Unique(w)
            && (r ==> (w.result matches Some(v) && ref_key(v@) matches Some(k)
                && !crate::graph::iterator::unique::values_view(u.seen@).contains(k)
                && crate::graph::iterator::unique::values_view(w.seen@) == crate::graph::iterator::unique::values_view(u.seen@).push(k)
                && opt_ref_view(w.result) == w.it.spec_result()))
            && (!r ==> w.seen@ == u.seen@ && (w.err is Some == w.it.spec_failed())
                && ended_below(*w.it, qb, u.it.height())))
        &&& self matches Scanner::ValueFilter(v) ==> (after matches Scanner::ValueFilter(w)
            && w.filter == v.filter
            && (r ==> w.result is Some && opt_ref_view(w.result) == w.sub.spec_result())
            && (!r ==> w.result == v.result && ended_below(*w.sub, qb, v.sub.height())))
        &&& self matches Scanner::Not(n) ==> (after matches Scanner::Not(m)
            && (r ==> m.result is Some && opt_ref_view(m.result) == m.all_it.spec_result()
                && declined_below(*m.primary_it, m.result->0@, qb, n.primary_it.height()))
            && (!r ==> m.result == n.result && ended_below(*m.all_it, qb, n.all_it.height())))
        &&& self matches Scanner::Or(o) ==> (after matches Scanner::Or(p)
            && p.sub@.len() == o.sub@.len() && p.short_circuit == o.short_circuit
            && (r ==> (p.cur_ind matches Some(c) && c < p.sub@.len()
                && opt_ref_view(p.result) == p.sub@[c as int].spec_result()))
            && (o.sub@.len() > 0 ==> p.cur_ind is Some)
            && (p.cur_ind matches Some(n) ==> forall|j: int| 0 <= j < o.sub@.len()
                && (j < crate::graph::iterator::or::or_start(o.cur_ind) || j > n) ==> #[trigger] p.sub@[j] == o.sub@[j])
            && (p.cur_ind matches Some(n) ==> forall|j: int| crate::graph::iterator::or::or_start(o.cur_ind) <= j < n
                && j < o.sub@.len() && o.sub@[j].height() < self.height()
                ==> o.sub@[j].next_step(#[trigger] p.sub@[j], false, qb))
            && (p.cur_ind matches Some(n) ==> (n < o.sub@.len() && o.sub@[n as int].height() < self.height()
                ==> o.sub@[n as int].next_step(p.sub@[n as int], r, qb))))
        &&& self matches Scanner::MemStore(m) ==> (after matches Scanner::MemStore(n)
            && n.quad_ids == m.quad_ids
            && r == (m.pos < m.quad_ids@.len())
            && (r ==> n.pos == m.pos + 1 && n.cur == Some(m.quad_ids@[m.pos as int]))
            && (!r ==> n.cur is None && n.pos == m.pos))
        &&& self matches Scanner::MemStoreAll(m) ==> (after matches Scanner::MemStoreAll(n)
            && n.maxid == m.maxid && n.nodes == m.nodes
            && (m.done ==> !r && n == m)
            && (r ==> n.cur is Some) && (!r ==> n.done))
        &&& self matches Scanner::LinksTo(l) ==> (after matches Scanner::LinksTo(m)
            && m.dir == l.dir
            && (r ==> opt_ref_view(m.result) == m.next_it.spec_result())
            && (!r ==> m.result == l.result && (m.err is Some || ended_below(*m.primary, qb, l.primary.height()))))
        &&& self matches Scanner::Resolver(v) ==> (after matches Scanner::Resolver(w)
            && (r ==> (w.result matches Some(x) && x@ == w.values@[w.index - 1]@))
            && (!r && w.err is None ==> w.result is None)
            && (v.cached ==> w.values == v.values && w.cached && w.err == v.err
                && (r <==> v.index < v.values@.len())
                && w.index == (if r { v.index + 1 } else { v.index as int }))
            && (!v.cached && w.err is Some ==> !r && w.result == v.result && !w.cached)
            && (!v.cached && w.err is None ==> w.cached && w.values@.len() == v.order@.len()
                && (r <==> v.order@.len() > 0) && (r ==> w.index == 1)))
        &&& self matches Scanner::Count(c) ==> (after matches Scanner::Count(d)
            && d.it == c.it
            && (c.done ==> !r && d.result == c.result)
            && (r ==> d.done && (d.result matches Some(v) && v@ is Number))
            && (!c.done ==> r == d.done)
            && (!c.done && !r ==> d.err is Some))
        &&& self matches Scanner::Sort(t) ==> (after matches Scanner::Sort(u)
            && (r ==> (u.ordered matches Some(o) && u.index >= 1
                && (u.result matches Some(x) && x.id@ == o@[u.index - 1].result.id@)))
            && (!r ==> u.result == t.result)
            && (t.err is Some ==> !r && u == t)
            && (t.err is None && t.ordered is None ==> u.ordered is Some || u.err is Some)
            && (t.err is None ==> (t.ordered matches Some(o) ==> (r <==> t.index < o@.len())
                && u.ordered == t.ordered
                && (r ==> u.index == t.index + 1 && u.path_index == 0))))
        &&& self matches Scanner::Materialize(m) ==> (after matches Scanner::Materialize(n)
            && n.has_run
            && (m.has_run && m.err is Some ==> !r && n == m)
            && (m.has_run && m.err is None && !m.aborted
                ==> (r <==> crate::graph::iterator::materialize::MaterializeNext::next_key_index(m.index) < m.values@.len())
                && n.keys == m.keys && n.values == m.values && n.aborted == m.aborted
                && (r ==> n.index == Some(crate::graph::iterator::materialize::MaterializeNext::next_key_index(m.index) as usize)))
            && (m.has_run && m.err is None && m.aborted ==> m.next.next_step(*n.next, r, qb)
                && n.err is Some == n.next.spec_failed() && opt_text(n.err) == n.next.spec_err())
            && (!m.has_run && !n.aborted ==> ended_below(*n.next, qb, m.next.height())
                && (r <==> n.err is None && n.values@.len() > 0)))
    }

    /// What a step of `next_path` from `self` to `after`, answering `r`,
    /// keeps and does: the scanners without paths stay put and answer false.
    pub open spec fn path_step(self, after: Scanner, r: bool, qb: nat) -> bool
        decreases self.height(), 0nat,
    {
        &&& after.kind() == self.kind()
        &&& after.wf(qb)
        &&& after.height() <= self.height()
        &&& after.rank() <= self.rank()
        &&& r ==> after.path_rank() < self.path_rank()
        &&& !r ==> after.path_rank() <= self.path_rank()
        &&& (self is Null || self is Error || self is Fixed || self is Count || self is Not || self is Resolver
            || self is MemStore || self is MemStoreAll || self is Unique) ==> !r && after == self
        &&& self matches Scanner::Save(s) ==> (after matches Scanner::Save(t)
            && s.it.path_step(*t.it, r, qb))
        &&& self matches Scanner::ValueFilter(v) ==> (after matches Scanner::ValueFilter(w)
            && v.sub.path_step(*w.sub, r, qb))
        &&& self matches Scanner::Limit(l) ==> (after matches Scanner::Limit(m)
            && m.limit == l.limit
            && (crate::graph::iterator::limit::limit_reached(l.limit, l.count) ==> !r && m.count == l.count)
            && (l.limit > 0 ==> m.count == l.count + if r { 1int } else { 0int })
            && (!crate::graph::iterator::limit::limit_reached(l.limit, l.count) ==> l.it.path_step(*m.it, r, qb)))
        &&& self matches Scanner::Skip(k) ==> (after matches Scanner::Skip(t)
            && t.skip == k.skip && (k.skipped >= k.skip ==> k.it.path_step(*t.it, r, qb)))
        &&& self matches Scanner::HasA(h) ==> (after matches Scanner::HasA(g)
            && g.result == h.result && h.primary.path_step(*g.primary, r, qb))
        &&& self matches Scanner::LinksTo(l) ==> (after matches Scanner::LinksTo(m)
            && m.next_it == l.next_it && m.result == l.result && l.primary.path_step(*m.primary, r, qb))
        &&& self matches Scanner::And(a) ==> (after matches Scanner::And(b)
            && ((a.primary.path_step(*b.primary, true, qb) && r && b.secondary == a.secondary)
                || (a.primary.path_step(*b.primary, false, qb)
                    && (b.primary.spec_failed() ==> !r && b.secondary == a.secondary)
                    && (!b.primary.spec_failed() ==> a.secondary.path_step(*b.secondary, r, qb)))))
        &&& self matches Scanner::Or(o) ==> (after matches Scanner::Or(p)
            && p.cur_ind == o.cur_ind && p.sub@.len() == o.sub@.len()
            && (!(o.cur_ind matches Some(c) && c < o.sub@.len()) ==> !r && after == self)
            && (o.cur_ind matches Some(c) ==> (c < o.sub@.len()
                ==> (o.sub@[c as int].height() < self.height() ==> o.sub@[c as int].path_step(p.sub@[c as int], r, qb))
                && forall|j: int| 0 <= j < o.sub@.len() && j != c ==> #[trigger] p.sub@[j] == o.sub@[j])))
        &&& self matches Scanner::Sort(t) ==> (after matches Scanner::Sort(u)
            && (!r ==> u == t) && u.ordered == t.ordered && u.index == t.index
            && (t.ordered is None ==> !r)
            && (t.ordered matches Some(o) ==> (r <==> t.index < o@.len()
                && t.path_index < o@[t.index as int].paths@.len())))
        &&& self matches Scanner::Materialize(m) ==> (after matches Scanner::Materialize(n)
            && n.aborted == m.aborted && n.has_run == m.has_run
            && (!m.has_run || m.err is Some ==> !r && n == m)
            && (m.has_run && m.err is None && m.aborted ==> m.next.path_step(*n.next, r, qb))
            && (m.has_run && m.err is None && !m.aborted ==> (r <==> (m.index matches Some(i)
                && i < m.values@.len() && m.sub_index + 1 < m.values@[i as int]@.len()))
                && (r ==> n.sub_index == m.sub_index + 1 && n.index == m.index)
                && (!r ==> n == m)))
    }

    /// Moves to the next result; false when there is none.
    #[verifier::spinoff_prover]
    pub fn next<Q: QuadStore>(&mut self, qs: &Q) -> (r: bool)
        requires
            old(self).wf(qs.quad_bound()),
        ensures
            old(self).next_step(*final(self), r, qs.quad_bound()),
        decreases old(self).height(), 1nat,
    {
        match self {
            Scanner::Null(_) => false,
            Scanner::Error(_) => false,
            Scanner::Fixed(f) => f.next(),
            Scanner::And(a) => a.next(qs),
            Scanner::Save(s) => s.next(qs),
            Scanner::Limit(l) => l.next(qs),
            Scanner::MemStoreAll(ma) => ma.next(qs),
            Scanner::MemStore(ms) => ms.next(),
            Scanner::Resolver(rv) => rv.next(qs),
            Scanner::ValueFilter(vf) => vf.next(qs),
            Scanner::LinksTo(lt) => lt.next(qs),
            Scanner::HasA(h) => h.next(qs),
            Scanner::Sort(st) => st.next(qs),
            Scanner::Materialize(m) => m.next(qs),
            Scanner::Count(c) => c.next(qs),
            Scanner::Unique(u) => u.next(qs),
            Scanner::Not(n) => n.next(qs),
            Scanner::Skip(k) => k.next(qs),
            Scanner::Or(o) => o.next(qs),
        }
    }

    /// Moves to another path to the current result; false when there is none.
    #[verifier::spinoff_prover]
    pub fn next_path<Q: QuadStore>(&mut self, qs: &Q) -> (r: bool)
        requires
            old(self).wf(qs.quad_bound()),
        ensures
            old(self).path_step(*final(self), r, qs.quad_bound()),
        decreases old(self).height(), 1nat,
    {
        match self {
            Scanner::Null(_) => false,
            Scanner::Error(_) => false,
            Scanner::Fixed(_) => false,
            Scanner::And(a) => a.next_path(qs),
            Scanner::Save(s) => s.next_path(qs),
            Scanner::Limit(l) => l.next_path(qs),
            Scanner::MemStoreAll(ma) => ma.next_path(),
            Scanner::MemStore(ms) => ms.next_path(),
            Scanner::Resolver(rv) => rv.next_path(qs),
            Scanner::ValueFilter(vf) => vf.next_path(qs),
            Scanner::LinksTo(lt) => lt.next_path(qs),
            Scanner::HasA(h) => h.next_path(qs),
            Scanner::Sort(st) => st.next_path(qs),
            Scanner::Materialize(m) => m.next_path(qs),
            Scanner::Count(c) => c.next_path(qs),
            Scanner::Unique(u) => u.next_path(qs),
            Scanner::Not(n) => n.next_path(qs),
            Scanner::Skip(k) => k.next_path(qs),
            Scanner::Or(o) => o.next_path(qs),
        }
    }

    /// The result the scanner is at: the one its last step moved to.
    pub open spec fn spec_result(&self) -> Option<RefV>
        decreases self,
    {
        match self {
            Scanner::Null(_) => None,
            Scanner::Error(_) => None,
            Scanner::Fixed(f) => opt_ref_view(f.result),
            Scanner::And(a) => opt_ref_view(a.result),
            Scanner::Save(s) => s.it.spec_result(),
            Scanner::Limit(l) => l.it.spec_result(),
            Scanner::MemStoreAll(ma) => match ma.cur {
                Some(i) => Some(crate::graph::memstore::iterator::id_ref(i)),
                None => None,
            },
            Scanner::MemStore(ms) => match ms.cur {
                Some(i) => Some(crate::graph::memstore::iterator::id_ref(i)),
                None => None,
            },
            Scanner::Resolver(rv) => opt_ref_view(rv.result),
            Scanner::ValueFilter(vf) => opt_ref_view(vf.result),
            Scanner::LinksTo(lt) => opt_ref_view(lt.result),
            Scanner::HasA(h) => opt_ref_view(h.result),
            Scanner::Sort(st) => match st.result {
                Some(x) => Some(x.id@),
                None => None,
            },
            Scanner::Materialize(m) => if m.aborted {
                m.next.spec_result()
            } else {
                match m.index {
                    Some(i) => if i < m.values@.len() && m.sub_index < m.values@[i as int]@.len() {
                        Some(m.values@[i as int]@[m.sub_index as int].id@)
                    } else {
                        None
                    },
                    None => None,
                }
            },
            Scanner::Count(c) => match c.result {
                Some(v) => Some(spec_pre_fetched(v@)),
                None => None,
            },
            Scanner::Unique(u) => opt_ref_view(u.result),
            Scanner::Not(n) => opt_ref_view(n.result),
            Scanner::Skip(k) => k.it.spec_result(),
            Scanner::Or(o) => opt_ref_view(o.result),
        }
    }

    /// Whether the scanner is the empty one or lists a fixed list.
    pub open spec fn is_plain(&self) -> bool {
        self is Null || self is Fixed
    }

    /// Whether the scanner is one that has failed from the start.
    pub open spec fn is_error(&self) -> bool {
        self is Error
    }

    /// The text of the error the scanner reports, if any.
    pub open spec fn spec_err(&self) -> Option<Seq<char>>
        decreases self,
    {
        match self {
            Scanner::Null(_) => None,
            Scanner::Error(e) => Some(e.err@),
            Scanner::Fixed(_) => None,
            Scanner::And(a) => if a.primary.spec_err() is Some { a.primary.spec_err() } else { a.secondary.spec_err() },
            Scanner::Save(s) => s.it.spec_err(),
            Scanner::Limit(l) => l.it.spec_err(),
            Scanner::MemStoreAll(_) => None,
            Scanner::MemStore(_) => None,
            Scanner::Resolver(rv) => opt_text(rv.err),
            Scanner::ValueFilter(vf) => opt_text(vf.err),
            Scanner::LinksTo(lt) => opt_text(lt.err),
            Scanner::HasA(h) => h.primary.spec_err(),
            Scanner::Sort(st) => opt_text(st.err),
            Scanner::Materialize(m) => opt_text(m.err),
            Scanner::Count(_) => None,
            Scanner::Unique(u) => opt_text(u.err),
            Scanner::Not(n) => if n.all_it.spec_err() is Some { n.all_it.spec_err() } else { n.primary_it.spec_err() },
            Scanner::Skip(k) => k.it.spec_err(),
            Scanner::Or(o) => opt_text(o.err),
        }
    }

    /// Whether it reports an error.
    pub open spec fn spec_failed(&self) -> bool
        decreases self,
    {
        match self {
            Scanner::Null(_) => false,
            Scanner::Error(_) => true,
            Scanner::Fixed(_) => false,
            Scanner::And(a) => a.primary.spec_failed() || a.secondary.spec_failed(),
            Scanner::Save(s) => s.it.spec_failed(),
            Scanner::Limit(l) => l.it.spec_failed(),
            Scanner::MemStoreAll(_) => false,
            Scanner::MemStore(_) => false,
            Scanner::Resolver(rv) => rv.err is Some,
            Scanner::ValueFilter(vf) => vf.err is Some,
            Scanner::LinksTo(lt) => lt.err is Some,
            Scanner::HasA(h) => h.primary.spec_failed(),
            Scanner::Sort(st) => st.err is Some,
            Scanner::Materialize(m) => m.err is Some,
            Scanner::Count(_) => false,
            Scanner::Unique(u) => u.err is Some,
            Scanner::Not(n) => n.all_it.spec_failed() || n.primary_it.spec_failed(),
            Scanner::Skip(k) => k.it.spec_failed(),
            Scanner::Or(o) => o.err is Some,
        }
    }

    /// The current result.
    pub fn result(&self) -> (r: Option<Ref>)
        ensures
            opt_ref_view(r) == self.spec_result(),
        decreases self.height(), 1nat,
    {
        match self {
            Scanner::Null(_) => None,
            Scanner::Error(_) => None,
            Scanner::Fixed(f) => f.result(),
            Scanner::And(a) => a.result(),
            Scanner::Save(s) => s.result(),
            Scanner::Limit(l) => l.result(),
            Scanner::MemStoreAll(ma) => ma.result(),
            Scanner::MemStore(ms) => ms.result(),
            Scanner::Resolver(rv) => rv.result(),
            Scanner::ValueFilter(vf) => vf.result(),
            Scanner::LinksTo(lt) => lt.result(),
            Scanner::HasA(h) => h.result(),
            Scanner::Sort(st) => st.result(),
            Scanner::Materialize(m) => m.result(),
            Scanner::Count(c) => c.result(),
            Scanner::Unique(u) => u.result(),
            Scanner::Not(n) => n.result(),
            Scanner::Skip(k) => k.result(),
            Scanner::Or(o) => o.result(),
        }
    }

    /// The error met, if any.
    pub fn err(&self) -> (r: Option<String>)
        ensures
            crate::graph::iterator::opt_text(r) == self.spec_err(),
            r is Some == self.spec_failed(),
        decreases self.height(), 1nat,
    {
        match self {
            Scanner::Null(_) => None,
            Scanner::Error(e) => Some(copy_string(&e.err)),
            Scanner::Fixed(_) => None,
            Scanner::And(a) => a.err(),
            Scanner::Save(s) => s.err(),
            Scanner::Limit(l) => l.err(),
            Scanner::MemStoreAll(ma) => ma.err(),
            Scanner::MemStore(ms) => ms.err(),
            Scanner::Resolver(rv) => rv.err(),
            Scanner::ValueFilter(vf) => vf.err(),
            Scanner::LinksTo(lt) => lt.err(),
            Scanner::HasA(h) => h.err(),
            Scanner::Sort(st) => st.err(),
            Scanner::Materialize(m) => m.err(),
            Scanner::Count(c) => c.err(),
            Scanner::Unique(u) => u.err(),
            Scanner::Not(n) => n.err(),
            Scanner::Skip(k) => k.err(),
            Scanner::Or(o) => o.err(),
        }
    }

    /// What adding the tags of the current result does to a tag map, from
    /// `before` to `after`: a saving scanner stores its tags, the plain and
    /// failed scanners add nothing.
    pub open spec fn tags_step(self, before: Map<Seq<char>, RefV>, after: Map<Seq<char>, RefV>) -> bool
        decreases self.height(), 0nat,
    {
        &&& self matches Scanner::Save(sv) ==> crate::graph::iterator::save::saved_under(after, &sv.tags, sv.it.spec_result())
        &&& self.is_plain() || self.is_error() ==> after == before
        &&& (self is Count || self is Resolver || self is MemStore || self is MemStoreAll) ==> after == before
        &&& self matches Scanner::And(a) ==> exists|m: Map<Seq<char>, RefV>| a.primary.tags_step(before, m)
            && #[trigger] a.secondary.tags_step(m, after)
        &&& self matches Scanner::Materialize(m) ==> (m.has_run ==> after == before)
            && (!m.has_run && !m.aborted ==> after == (match m.index {
                Some(i) => if i < m.values@.len() && m.sub_index < m.values@[i as int]@.len() {
                    before.union_prefer_right(m.values@[i as int]@[m.sub_index as int].tags@)
                } else {
                    before
                },
                None => before,
            }))
        &&& self matches Scanner::Sort(st) ==> after == (match st.result {
            Some(x) => before.union_prefer_right(x.tags@),
            None => before,
        })
        &&& self matches Scanner::Limit(l) ==> l.it.tags_step(before, after)
        &&& self matches Scanner::Skip(k) ==> k.it.tags_step(before, after)
        &&& self matches Scanner::Unique(u) ==> u.it.tags_step(before, after)
        &&& self matches Scanner::ValueFilter(v) ==> v.sub.tags_step(before, after)
        &&& self matches Scanner::HasA(h) ==> h.primary.tags_step(before, after)
        &&& self matches Scanner::LinksTo(l) ==> l.primary.tags_step(before, after)
        &&& self matches Scanner::Not(n) ==> n.primary_it.tags_step(before, after)
        &&& self matches Scanner::Or(o) ==> (o.cur_ind matches Some(c) ==> (c < o.sub@.len()
            && o.sub@[c as int].height() < self.height() ==> o.sub@[c as int].tags_step(before, after)))
        &&& self matches Scanner::Or(o) ==> ((o.cur_ind is None || o.cur_ind->0 >= o.sub@.len()) ==> after == before)
    }

    /// Adds the tags of the current result to `tags`.
    #[verifier::spinoff_prover]
    pub fn tag_results(&self, tags: &mut TagMap)
        ensures
            self.tags_step(old(tags)@, final(tags)@),
        decreases self.height(), 1nat,
    {
        match self {
            Scanner::Null(_) => {},
            Scanner::Error(_) => {},
            Scanner::Fixed(_) => {},
            Scanner::And(a) => a.tag_results(tags),
            Scanner::Save(s) => s.tag_results(tags),
            Scanner::Limit(l) => l.tag_results(tags),
            Scanner::MemStoreAll(ma) => ma.tag_results(tags),
            Scanner::MemStore(ms) => ms.tag_results(tags),
            Scanner::Resolver(rv) => rv.tag_results(tags),
            Scanner::ValueFilter(vf) => vf.tag_results(tags),
            Scanner::LinksTo(lt) => lt.tag_results(tags),
            Scanner::HasA(h) => h.tag_results(tags),
            Scanner::Sort(st) => st.tag_results(tags),
            Scanner::Materialize(m) => m.tag_results(tags),
            Scanner::Count(c) => c.tag_results(tags),
            Scanner::Unique(u) => u.tag_results(tags),
            Scanner::Not(n) => n.tag_results(tags),
            Scanner::Skip(k) => k.tag_results(tags),
            Scanner::Or(o) => o.tag_results(tags),
        }
    }

    /// What closing `self`, leaving `after` and answering `r`, keeps and
    /// does: the plain scanners close cleanly, a failed one reports its error.
    pub open spec fn close_step(self, after: Scanner, r: Result<(), String>) -> bool {
        &&& after.kind() == self.kind()
        &&& after.height() <= self.height()
        &&& self.is_plain() ==> r is Ok
        &&& self.is_error() ==> r is Err
        &&& self matches Scanner::Error(e) ==> (r matches Err(t) && t@ == e.err@)
    }

    /// Releases the scanner; reports the first error of its parts.
    pub fn close(&mut self) -> (r: Result<(), String>)
        ensures
            old(self).close_step(*final(self), r),
        decreases old(self).height(), 1nat,
    {
        match self {
            Scanner::Null(_) => Ok(()),
            Scanner::Error(e) => Err(copy_string(&e.err)),
            Scanner::Fixed(_) => Ok(()),
            Scanner::And(a) => a.close(),
            Scanner::Save(s) => s.close(),
            Scanner::Limit(l) => l.close(),
            Scanner::MemStoreAll(ma) => ma.close(),
            Scanner::MemStore(ms) => ms.close(),
            Scanner::Resolver(rv) => rv.close(),
            Scanner::ValueFilter(vf) => vf.close(),
            Scanner::LinksTo(lt) => lt.close(),
            Scanner::HasA(h) => h.close(),
            Scanner::Sort(st) => st.close(),
            Scanner::Materialize(m) => m.close(),
            Scanner::Count(c) => c.close(),
            Scanner::Unique(u) => u.close(),
            Scanner::Not(n) => n.close(),
            Scanner::Skip(k) => k.close(),
            Scanner::Or(o) => o.close(),
        }
    }
}

impl Index {
    pub open spec fn height(&self) -> nat
        decreases self, 0nat,
    {
        match self {
            Index::Null(_) => 1,
            Index::Error(_) => 1,
            Index::Fixed(_) => 1,
            Index::And(a) => 1 + max_nat(index_seq_height(a.sub@, 0), index_seq_height(a.opt@, 0)),
            Index::Save(s) => 1 + s.it.height(),
            Index::Limit(l) => 1 + l.it.height(),
            Index::MemStoreAll(_) => 1,
            Index::MemStore(_) => 1,
            Index::Resolver(_) => 1,
            Index::ValueFilter(vf) => 1 + vf.sub.height(),
            Index::LinksTo(lt) => 1 + lt.primary.height(),
            Index::HasA(h) => 1 + max_nat(h.primary.height(), max_nat(1, match h.results {
                Some(rs) => rs.height(),
                None => 1,
            })),
            Index::Materialize(m) => 1 + max_nat(1 + max_nat(m.next.sub.height(), m.next.next.height()), match m.sub {
                Some(sb) => sb.height(),
                None => 0,
            }),
            Index::Count(c) => 2 + c.it.it.height(),
            Index::Unique(u) => 1 + u.it.height(),
            Index::Not(n) => 1 + n.primary_it.height(),
            Index::Skip(k) => 1 + k.it.height(),
            Index::Or(o) => 1 + index_seq_height(o.sub@, 0),
        }
    }

    pub open spec fn wf(&self, qb: nat) -> bool
        decreases self, 0nat,
    {
        match self {
            Index::Null(_) => true,
            Index::Error(_) => true,
            Index::Fixed(f) => f.keys@.len() <= f.values@.len(),
            Index::And(a) => (forall|i: int| 0 <= i < a.sub@.len() ==> (#[trigger] a.sub@[i]).wf(qb))
                && (forall|i: int| 0 <= i < a.opt@.len() ==> (#[trigger] a.opt@[i]).wf(qb)),
            Index::Save(s) => s.it.wf(qb),
            Index::Limit(l) => l.it.wf(qb) && 0 <= l.count && (l.limit > 0 ==> l.count <= l.limit),
            Index::MemStoreAll(_) => true,
            Index::MemStore(_) => true,
            Index::Resolver(_) => true,
            Index::ValueFilter(vf) => vf.sub.wf(qb),
            Index::LinksTo(lt) => lt.primary.wf(qb),
            Index::HasA(h) => h.primary.wf(qb) && h.qb@ == qb && (h.results matches Some(rs) ==> rs.wf(qb) && rs.rank() <= qb && rs.height() <= 1),
            Index::Materialize(m) => (m.next.next.wf(qb))
                && (m.next.next.height() <= m.next.sub.height())
                && (m.next.keys@.len() == m.next.values@.len())
                && (forall|i: int| 0 <= i < m.next.values@.len() ==> (#[trigger] m.next.values@[i])@.len() > 0)
                && (m.next.index matches Some(i) ==> i <= m.next.values@.len())
                && (m.next.index matches Some(i) ==> (i < m.next.values@.len() ==> m.next.sub_index < m.next.values@[i as int]@.len()))
                && (m.next.sub.max_rank(qb) <= m.next.bound@)
                && (!m.next.has_run ==> m.next.next.rank() <= m.next.bound@ && m.next.values@.len() == 0 && m.next.index is None)
                && (m.next.aborted ==> m.next.has_run)
                && (m.next.values@.len() <= m.next.bound@)
                && (forall|i: int| 0 <= i < m.next.values@.len() ==> (#[trigger] m.next.values@[i])@.len() <= MATERIALIZE_LIMIT + 1)
                && (m.sub matches Some(sb) ==> sb.wf(qb) && sb.height() <= m.next.sub.height()
                    && sb.path_bound() <= m.next.sub.max_path(m.qb@))
                && (m.sub is Some ==> m.next.has_run)
                && (m.next.aborted ==> m.sub is Some)
                && m.qb@ == qb,
            Index::Count(_) => true,
            Index::Unique(u) => u.it.wf(qb),
            Index::Not(n) => n.primary_it.wf(qb),
            Index::Skip(k) => k.it.wf(qb) && 0 <= k.skipped && (k.skipped <= k.skip + 1 || k.skipped == 0),
            Index::Or(o) => (forall|i: int| 0 <= i < o.sub@.len() ==> (#[trigger] o.sub@[i]).wf(qb))
                && (o.cur_ind matches Some(c) ==> c < o.sub@.len()),
        }
    }

    /// A bound on `path_rank` that no operation changes.
    pub open spec fn path_bound(&self) -> nat
        decreases self, 0nat,
    {
        match self {
            Index::Null(_) => 0,
            Index::Error(_) => 0,
            Index::Fixed(_) => 0,
            Index::And(a) => index_seq_path_bound(a.sub@, 0) + index_seq_path_bound(a.opt@, 0),
            Index::Save(sv) => sv.it.path_bound(),
            Index::Limit(lm) => lm.it.path_bound(),
            Index::Or(o) => index_seq_path_bound(o.sub@, 0),
            Index::Skip(k) => k.it.path_bound(),
            Index::Not(_) => 0,
            Index::Unique(_) => 0,
            Index::Count(_) => 0,
            Index::Materialize(m) => max_nat(m.next.sub.max_path(m.qb@), (MATERIALIZE_LIMIT + 1) as nat),
            Index::HasA(h) => (h.qb@ + 1) * (h.primary.path_bound() + 1),
            Index::LinksTo(lt) => lt.primary.path_bound(),
            Index::ValueFilter(vf) => vf.sub.path_bound(),
            Index::Resolver(_) => 0,
            Index::MemStore(_) => 0,
            Index::MemStoreAll(_) => 0,
        }
    }

    /// An upper bound on the number of further results of `next_path`.
    pub open spec fn path_rank(&self) -> nat
        decreases self, 0nat,
    {
        match self {
            Index::Null(_) => 0,
            Index::Error(_) => 0,
            Index::Fixed(_) => 0,
            Index::And(a) => index_seq_path_rank(a.sub@, 0) + index_seq_path_rank(a.opt@, 0),
            Index::Save(s) => s.it.path_rank(),
            Index::Limit(l) => l.it.path_rank(),
            Index::MemStoreAll(_) => 0,
            Index::MemStore(_) => 0,
            Index::Resolver(_) => 0,
            Index::ValueFilter(vf) => vf.sub.path_rank(),
            Index::LinksTo(lt) => lt.primary.path_rank(),
            Index::HasA(h) => (match h.results {
                Some(rs) => rs.rank(),
                None => 0,
            }) * (h.primary.path_bound() + 1) + h.primary.path_rank(),
            Index::Materialize(m) => match m.sub {
                Some(sb) => sb.path_rank(),
                None => if !m.next.has_run { 0 } else if m.next.aborted { m.next.next.path_rank() } else {
                    match m.next.index {
                        Some(i) => if i < m.next.values@.len() && m.next.sub_index + 1 <= m.next.values@[i as int]@.len() {
                            (m.next.values@[i as int]@.len() - m.next.sub_index - 1) as nat
                        } else {
                            0
                        },
                        None => 0,
                    }
                },
            },
            Index::Count(_) => 0,
            Index::Unique(u) => 0,
            Index::Not(n) => 0,
            Index::Skip(k) => k.it.path_rank(),
            Index::Or(o) => index_seq_path_rank(o.sub@, 0),
        }
    }

    /// Which kind of index this is; a step never changes it.
    pub open spec fn kind(&self) -> nat {
        match self {
            Index::Null(_) => 0,
            Index::Error(_) => 1,
            Index::Fixed(_) => 2,
            Index::And(_) => 3,
            Index::Save(_) => 4,
            Index::Limit(_) => 5,
            Index::MemStoreAll(_) => 6,
            Index::MemStore(_) => 7,
            Index::Resolver(_) => 8,
            Index::ValueFilter(_) => 9,
            Index::LinksTo(_) => 10,
            Index::HasA(_) => 11,
            Index::Materialize(_) => 12,
            Index::Count(_) => 13,
            Index::Unique(_) => 14,
            Index::Not(_) => 15,
            Index::Skip(_) => 16,
            Index::Or(_) => 17,
        }
    }

    /// What a check of `v` from `self` to `after`, answering `r`, keeps and
    /// does: the empty and failed indexes stay put and answer false, and a
    /// fixed list answers whether it holds `v`.
    pub open spec fn contains_step(self, after: Index, v: RefV, r: bool, qb: nat) -> bool
        decreases self.height(), 0nat,
    {
        &&& after.kind() == self.kind()
        &&& after.wf(qb)
        &&& after.height() <= self.height()
        &&& after.path_bound() == self.path_bound()
        &&& (self is Null || self is Error) ==> !r && after == self
        &&& self matches Index::Fixed(f) ==> (r == exists|i: int| 0 <= i < f.keys@.len() && ref_key(v) == Some(#[trigger] f.keys@[i]@))
            && (after matches Index::Fixed(g) && g.keys == f.keys && g.values == f.values)
        &&& self matches Index::And(a) ==> (after matches Index::And(b)
            && b.sub@.len() == a.sub@.len() && b.opt@.len() == a.opt@.len()
            && (a.sub@.len() == 0 ==> r)
            && (r ==> (b.result matches Some(x) && x@ == v))
            && (!r ==> b.result == a.result)
            && (r ==> forall|j: int| 0 <= j < a.sub@.len() && a.sub@[j].height() < self.height()
                ==> a.sub@[j].contains_step(#[trigger] b.sub@[j], v, true, qb))
            && (!r ==> exists|mids: Seq<Index>, c: int| #![trigger mids[c]]
                0 <= c < a.sub@.len() && mids.len() == a.sub@.len()
                && (forall|j: int| 0 <= j < c && a.sub@[j].height() < self.height()
                    ==> a.sub@[j].contains_step(#[trigger] mids[j], v, true, qb))
                && (a.sub@[c].height() < self.height() ==> a.sub@[c].contains_step(b.sub@[c], v, false, qb))
                && (forall|j: int| c < j < a.sub@.len() ==> #[trigger] b.sub@[j] == a.sub@[j])))
        &&& self matches Index::Save(s) ==> (after matches Index::Save(t)
            && t.tags == s.tags && s.it.contains_step(*t.it, v, r, qb))
        &&& self matches Index::Unique(u) ==> (after matches Index::Unique(w)
            && u.it.contains_step(*w.it, v, r, qb))
        &&& self matches Index::Limit(l) ==> (after matches Index::Limit(m)
            && m.limit == l.limit
            && (crate::graph::iterator::limit::limit_reached(l.limit, l.count) ==> !r && m.count == l.count)
            && (l.limit > 0 ==> m.count == l.count + if r { 1int } else { 0int })
            && (!crate::graph::iterator::limit::limit_reached(l.limit, l.count) ==> l.it.contains_step(*m.it, v, r, qb)))
        &&& self matches Index::Skip(k) ==> (after matches Index::Skip(t)
            && t.skip == k.skip && t.skipped >= k.skipped
            && (k.skipped > k.skip ==> t.skipped == k.skipped && k.it.contains_step(*t.it, v, r, qb))
            && (r ==> t.skipped > t.skip))
        &&& self matches Index::MemStore(m) ==> (after matches Index::MemStore(n)
            && n.quad_ids == m.quad_ids
            && r == (crate::graph::memstore::iterator::key_id(v) matches Some(i) && m.quad_ids@.contains(i))
            && (r ==> n.cur == crate::graph::memstore::iterator::key_id(v)))
        &&& self matches Index::MemStoreAll(m) ==> (after matches Index::MemStoreAll(n)
            && (m.done ==> !r && n == m)
            && (r ==> n.cur == crate::graph::memstore::iterator::key_id(v))
            && (crate::graph::memstore::iterator::key_id(v) is None ==> !r))
        &&& self matches Index::Resolver(x) ==> (after matches Index::Resolver(y)
            && (y.err is None && y.cached ==> r == crate::graph::iterator::unique::values_view(y.nodes@).contains(v.k))
            && (r ==> (y.result matches Some(z) && z@ == v)))
        &&& self matches Index::ValueFilter(x) ==> (after matches Index::ValueFilter(y)
            && (r ==> x.sub.contains_step(*y.sub, v, true, qb)))
        &&& self matches Index::Not(x) ==> (after matches Index::Not(y)
            && (r ==> (y.result matches Some(z) && z@ == v) && y.err is None)
            && (!r ==> y.result == x.result)
            && ((x.primary_it.contains_step(*y.primary_it, v, true, qb) && !r)
                || (x.primary_it.contains_step(*y.primary_it, v, false, qb) && r == !y.primary_it.spec_failed())))
        &&& self matches Index::Materialize(x) ==> (after matches Index::Materialize(y)
            && y.next.has_run && (y.next.err is Some ==> !r)
            && (y.sub is None && y.next.err is None ==> r == (ref_key(v) matches Some(k)
                && crate::graph::iterator::unique::values_view(y.next.keys@).contains(k))))
        &&& self matches Index::HasA(x) ==> (after matches Index::HasA(y)
            && (r ==> y.result is Some && y.err is None) && y.results is Some)
        &&& self matches Index::Count(x) ==> (after matches Index::Count(y)
            && y.use_namer == x.use_namer
            && (!y.use_namer && !(v.content is Value) ==> !r)
            && (v.content matches crate::graph::refs::ContentV::Value(z) ==> r == (y.it.result matches Some(o) && z == o@))
            && (x.it.done ==> y.it == x.it) && y.it.it == x.it.it)
        &&& self matches Index::Or(o) ==> (after matches Index::Or(p)
            && p.sub@.len() == o.sub@.len()
            && (r ==> (p.result matches Some(z) && z@ == v))
            && (!r ==> p.result == o.result)
            && (r ==> (p.cur_ind matches Some(c)
                && (o.sub@[c as int].height() < self.height() ==> o.sub@[c as int].contains_step(p.sub@[c as int], v, true, qb))
                && (forall|j: int| 0 <= j < c && o.sub@[j].height() < self.height()
                    ==> o.sub@[j].contains_step(#[trigger] p.sub@[j], v, false, qb))
                && (forall|j: int| c < j < o.sub@.len() ==> #[trigger] p.sub@[j] == o.sub@[j]))))
    }

    /// What a step of `next_path` from `self` to `after`, answering `r`,
    /// keeps and does: the indexes without paths stay put and answer false.
    pub open spec fn path_step(self, after: Index, r: bool, qb: nat) -> bool
        decreases self.height(), 0nat,
    {
        &&& after.kind() == self.kind()
        &&& after.wf(qb)
        &&& after.height() <= self.height()
        &&& r ==> after.path_rank() < self.path_rank()
        &&& !r ==> after.path_rank() <= self.path_rank()
        &&& after.path_bound() == self.path_bound()
        &&& (self is Null || self is Error || self is Fixed || self is Count || self is Not || self is Resolver
            || self is MemStore || self is MemStoreAll || self is Unique) ==> !r && after == self
        &&& self matches Index::Save(s) ==> (after matches Index::Save(t)
            && s.it.path_step(*t.it, r, qb))
        &&& self matches Index::ValueFilter(v) ==> (after matches Index::ValueFilter(w)
            && v.sub.path_step(*w.sub, r, qb))
        &&& self matches Index::Limit(l) ==> (after matches Index::Limit(m)
            && m.limit == l.limit
            && (crate::graph::iterator::limit::limit_reached(l.limit, l.count) ==> !r && m.count == l.count)
            && (l.limit > 0 ==> m.count == l.count + if r { 1int } else { 0int })
            && (!crate::graph::iterator::limit::limit_reached(l.limit, l.count) ==> l.it.path_step(*m.it, r, qb)))
        &&& self matches Index::Skip(k) ==> (after matches Index::Skip(t)
            && t.skip == k.skip && (k.skipped >= k.skip ==> k.it.path_step(*t.it, r, qb)))
        &&& self matches Index::LinksTo(l) ==> (after matches Index::LinksTo(m)
            && m.result == l.result && l.primary.path_step(*m.primary, r, qb))
        &&& self matches Index::And(a) ==> (after matches Index::And(b)
            && b.sub@.len() == a.sub@.len()
            && (!r ==> forall|j: int| 0 <= j < a.sub@.len() && a.sub@[j].height() < self.height()
                && (forall|k: int| 0 <= k < j ==> !(#[trigger] b.sub@[k]).spec_failed())
                ==> a.sub@[j].path_step(#[trigger] b.sub@[j], false, qb)))
        &&& self matches Index::Or(o) ==> (after matches Index::Or(p)
            && p.cur_ind == o.cur_ind
            && (o.cur_ind is None ==> !r && after == self)
            && (o.cur_ind matches Some(c) ==> (o.sub@[c as int].height() < self.height()
                ==> o.sub@[c as int].path_step(p.sub@[c as int], r, qb))
                && forall|j: int| 0 <= j < o.sub@.len() && j != c ==> #[trigger] p.sub@[j] == o.sub@[j]))
    }

    /// Whether `v` is among the results; on success it becomes the current result.
    #[verifier::spinoff_prover]
    #[verifier::rlimit(40)]
    pub fn contains<Q: QuadStore>(&mut self, qs: &Q, v: &Ref) -> (r: bool)
        requires
            old(self).wf(qs.quad_bound()),
        ensures
            old(self).contains_step(*final(self), v@, r, qs.quad_bound()),
        decreases old(self).height(), 1nat,
    {
        match self {
            Index::Null(_) => false,
            Index::Error(_) => false,
            Index::Fixed(f) => f.contains(v),
            Index::And(a) => {
                let r = a.contains(qs, v);
                proof {
                    if !r {
                        let (mids, c) = choose|mids: Seq<Index>, c: int|
                            #[trigger] crate::graph::iterator::and::refused_at(old(self)->And_0.sub@, mids, a.sub@, v@, qs.quad_bound(), c);
                        assert(mids[c] == mids[c]);
                    }
                }
                r
            },
            Index::Save(s) => s.contains(qs, v),
            Index::Limit(l) => l.contains(qs, v),
            Index::MemStoreAll(ma) => ma.contains(qs, v),
            Index::MemStore(ms) => ms.contains(v),
            Index::Resolver(rv) => rv.contains(qs, v),
            Index::ValueFilter(vf) => vf.contains(qs, v),
            Index::LinksTo(lt) => lt.contains(qs, v),
            Index::HasA(h) => h.contains(qs, v),
            Index::Materialize(m) => m.contains(qs, v),
            Index::Count(c) => c.contains(qs, v),
            Index::Unique(u) => u.contains(qs, v),
            Index::Not(n) => n.contains(qs, v),
            Index::Skip(k) => k.contains(qs, v),
            Index::Or(o) => o.contains(qs, v),
        }
    }

    #[verifier::spinoff_prover]
    pub fn next_path<Q: QuadStore>(&mut self, qs: &Q) -> (r: bool)
        requires
            old(self).wf(qs.quad_bound()),
        ensures
            old(self).path_step(*final(self), r, qs.quad_bound()),
        decreases old(self).height(), 1nat,
    {
        match self {
            Index::Null(_) => false,
            Index::Error(_) => false,
            Index::Fixed(_) => false,
            Index::And(a) => a.next_path(qs),
            Index::Save(s) => s.next_path(qs),
            Index::Limit(l) => l.next_path(qs),
            Index::MemStoreAll(ma) => ma.next_path(),
            Index::MemStore(ms) => ms.next_path(),
            Index::Resolver(rv) => rv.next_path(qs),
            Index::ValueFilter(vf) => vf.next_path(qs),
            Index::LinksTo(lt) => lt.next_path(qs),
            Index::HasA(h) => h.next_path(qs),
            Index::Materialize(m) => m.next_path(qs),
            Index::Count(c) => c.next_path(qs),
            Index::Unique(u) => u.next_path(qs),
            Index::Not(n) => n.next_path(qs),
            Index::Skip(k) => k.next_path(qs),
            Index::Or(o) => o.next_path(qs),
        }
    }

    /// The result the index is at: the one its last successful check (or
    /// path) moved to.
    pub open spec fn spec_result(&self) -> Option<RefV>
        decreases self,
    {
        match self {
            Index::Null(_) => None,
            Index::Error(_) => None,
            Index::Fixed(f) => opt_ref_view(f.result),
            Index::And(a) => opt_ref_view(a.result),
            Index::Save(s) => s.it.spec_result(),
            Index::Limit(l) => l.it.spec_result(),
            Index::MemStoreAll(ma) => match ma.cur {
                Some(i) => Some(crate::graph::memstore::iterator::id_ref(i)),
                None => None,
            },
            Index::MemStore(ms) => match ms.cur {
                Some(i) => Some(crate::graph::memstore::iterator::id_ref(i)),
                None => None,
            },
            Index::Resolver(rv) => opt_ref_view(rv.result),
            Index::ValueFilter(vf) => opt_ref_view(vf.result),
            Index::LinksTo(lt) => opt_ref_view(lt.result),
            Index::HasA(h) => opt_ref_view(h.result),
            Index::Materialize(m) => match m.sub {
                Some(x) => x.spec_result(),
                None => Scanner::Materialize(m.next).spec_result(),
            },
            Index::Count(c) => match c.it.result {
                Some(v) => Some(spec_pre_fetched(v@)),
                None => None,
            },
            Index::Unique(u) => u.it.spec_result(),
            Index::Not(n) => opt_ref_view(n.result),
            Index::Skip(k) => k.it.spec_result(),
            Index::Or(o) => opt_ref_view(o.result),
        }
    }

    /// Whether the index is the empty one or checks a fixed list.
    pub open spec fn is_plain(&self) -> bool {
        self is Null || self is Fixed
    }

    /// Whether the index is one that has failed from the start.
    pub open spec fn is_error(&self) -> bool {
        self is Error
    }

    /// The text of the error the index reports, if any: for an
    /// intersection, its own, else that of its first failing sub-index, else
    /// of its first failing optional index.
    pub open spec fn spec_err(&self) -> Option<Seq<char>>
        decreases self, 0int,
    {
        match self {
            Index::Null(_) => None,
            Index::Error(e) => Some(e.err@),
            Index::Fixed(_) => None,
            Index::And(a) => if a.err is Some {
                opt_text(a.err)
            } else if index_seq_err(a.sub@, 0) is Some {
                index_seq_err(a.sub@, 0)
            } else {
                index_seq_err(a.opt@, 0)
            },
            Index::Save(s) => s.it.spec_err(),
            Index::Limit(l) => l.it.spec_err(),
            Index::MemStoreAll(_) => None,
            Index::MemStore(_) => None,
            Index::Resolver(rv) => opt_text(rv.err),
            Index::ValueFilter(vf) => opt_text(vf.err),
            Index::LinksTo(lt) => lt.primary.spec_err(),
            Index::HasA(h) => opt_text(h.err),
            Index::Materialize(m) => if m.next.err is Some { opt_text(m.next.err) } else { match m.sub { Some(x) => x.spec_err(), None => None } },
            Index::Count(_) => None,
            Index::Unique(u) => u.it.spec_err(),
            Index::Not(n) => opt_text(n.err),
            Index::Skip(k) => k.it.spec_err(),
            Index::Or(o) => opt_text(o.err),
        }
    }

    /// Whether it reports an error.
    pub open spec fn spec_failed(&self) -> bool
        decreases self,
    {
        match self {
            Index::Null(_) => false,
            Index::Error(_) => true,
            Index::Fixed(_) => false,
            Index::And(a) => a.err is Some
                || (exists|j: int| 0 <= j < a.sub@.len() && (#[trigger] a.sub@[j]).spec_failed())
                || (exists|j: int| 0 <= j < a.opt@.len() && (#[trigger] a.opt@[j]).spec_failed()),
            Index::Save(s) => s.it.spec_failed(),
            Index::Limit(l) => l.it.spec_failed(),
            Index::MemStoreAll(_) => false,
            Index::MemStore(_) => false,
            Index::Resolver(rv) => rv.err is Some,
            Index::ValueFilter(vf) => vf.err is Some,
            Index::LinksTo(lt) => lt.primary.spec_failed(),
            Index::HasA(h) => h.err is Some,
            Index::Materialize(m) => m.next.err is Some || (m.sub matches Some(x) && x.spec_failed()),
            Index::Count(_) => false,
            Index::Unique(u) => u.it.spec_failed(),
            Index::Not(n) => n.err is Some,
            Index::Skip(k) => k.it.spec_failed(),
            Index::Or(o) => o.err is Some,
        }
    }

    pub fn result(&self) -> (r: Option<Ref>)
        ensures
            opt_ref_view(r) == self.spec_result(),
        decreases self.height(), 1nat,
    {
        match self {
            Index::Null(_) => None,
            Index::Error(_) => None,
            Index::Fixed(f) => f.result(),
            Index::And(a) => a.result(),
            Index::Save(s) => s.result(),
            Index::Limit(l) => l.result(),
            Index::MemStoreAll(ma) => ma.result(),
            Index::MemStore(ms) => ms.result(),
            Index::Resolver(rv) => rv.result(),
            Index::ValueFilter(vf) => vf.result(),
            Index::LinksTo(lt) => lt.result(),
            Index::HasA(h) => h.result(),
            Index::Materialize(m) => m.result(),
            Index::Count(c) => c.result(),
            Index::Unique(u) => u.result(),
            Index::Not(n) => n.result(),
            Index::Skip(k) => k.result(),
            Index::Or(o) => o.result(),
        }
    }

    pub fn err(&self) -> (r: Option<String>)
        ensures
            crate::graph::iterator::opt_text(r) == self.spec_err(),
            r is Some == self.spec_failed(),
        decreases self.height(), 1nat,
    {
        match self {
            Index::Null(_) => None,
            Index::Error(e) => Some(copy_string(&e.err)),
            Index::Fixed(_) => None,
            Index::And(a) => a.err(),
            Index::Save(s) => s.err(),
            Index::Limit(l) => l.err(),
            Index::MemStoreAll(ma) => ma.err(),
            Index::MemStore(ms) => ms.err(),
            Index::Resolver(rv) => rv.err(),
            Index::ValueFilter(vf) => vf.err(),
            Index::LinksTo(lt) => lt.err(),
            Index::HasA(h) => h.err(),
            Index::Materialize(m) => m.err(),
            Index::Count(c) => c.err(),
            Index::Unique(u) => u.err(),
            Index::Not(n) => n.err(),
            Index::Skip(k) => k.err(),
            Index::Or(o) => o.err(),
        }
    }

    /// What adding the tags of the current member does to a tag map, from
    /// `before` to `after`: a saving index stores its tags, the plain and
    /// failed indexes add nothing.
    pub open spec fn tags_step(self, before: Map<Seq<char>, RefV>, after: Map<Seq<char>, RefV>) -> bool
        decreases self.height(), 0nat,
    {
        &&& self matches Index::Save(sv) ==> crate::graph::iterator::save::saved_under(after, &sv.tags, sv.it.spec_result())
        &&& self.is_plain() || self.is_error() ==> after == before
        &&& (self is Count || self is Resolver || self is MemStore || self is MemStoreAll) ==> after == before
        &&& self matches Index::Materialize(m) ==> (m.sub matches Some(x) ==> x.tags_step(before, after))
            && (m.sub is None && m.next.has_run ==> after == before)
        &&& self matches Index::Limit(l) ==> l.it.tags_step(before, after)
        &&& self matches Index::Skip(k) ==> k.it.tags_step(before, after)
        &&& self matches Index::Unique(u) ==> u.it.tags_step(before, after)
        &&& self matches Index::ValueFilter(v) ==> v.sub.tags_step(before, after)
        &&& self matches Index::HasA(h) ==> h.primary.tags_step(before, after)
        &&& self matches Index::LinksTo(l) ==> l.primary.tags_step(before, after)
        &&& self matches Index::Not(n) ==> n.primary_it.tags_step(before, after)
        &&& self matches Index::Or(o) ==> (o.cur_ind matches Some(c) ==> (c < o.sub@.len()
            && o.sub@[c as int].height() < self.height() ==> o.sub@[c as int].tags_step(before, after)))
        &&& self matches Index::Or(o) ==> ((o.cur_ind is None || o.cur_ind->0 >= o.sub@.len()) ==> after == before)
    }

    #[verifier::spinoff_prover]
    pub fn tag_results(&self, tags: &mut TagMap)
        ensures
            self.tags_step(old(tags)@, final(tags)@),
        decreases self.height(), 1nat,
    {
        match self {
            Index::Null(_) => {},
            Index::Error(_) => {},
            Index::Fixed(_) => {},
            Index::And(a) => a.tag_results(tags),
            Index::Save(s) => s.tag_results(tags),
            Index::Limit(l) => l.tag_results(tags),
            Index::MemStoreAll(ma) => ma.tag_results(tags),
            Index::MemStore(ms) => ms.tag_results(tags),
            Index::Resolver(rv) => rv.tag_results(tags),
            Index::ValueFilter(vf) => vf.tag_results(tags),
            Index::LinksTo(lt) => lt.tag_results(tags),
            Index::HasA(h) => h.tag_results(tags),
            Index::Materialize(m) => m.tag_results(tags),
            Index::Count(c) => c.tag_results(tags),
            Index::Unique(u) => u.tag_results(tags),
            Index::Not(n) => n.tag_results(tags),
            Index::Skip(k) => k.tag_results(tags),
            Index::Or(o) => o.tag_results(tags),
        }
    }

    /// What closing `self`, leaving `after` and answering `r`, keeps and
    /// does: the plain indexes close cleanly, a failed one reports its error.
    pub open spec fn close_step(self, after: Index, r: Result<(), String>) -> bool {
        &&& after.kind() == self.kind()
        &&& after.height() <= self.height()
        &&& self.is_plain() ==> r is Ok
        &&& self.is_error() ==> r is Err
        &&& self matches Index::Error(e) ==> (r matches Err(t) && t@ == e.err@)
    }

    pub fn close(&mut self) -> (r: Result<(), String>)
        ensures
            old(self).close_step(*final(self), r),
        decreases old(self).height(), 1nat,
    {
        match self {
            Index::Null(_) => Ok(()),
            Index::Error(e) => Err(copy_string(&e.err)),
            Index::Fixed(_) => Ok(()),
            Index::And(a) => a.close(),
            Index::Save(s) => s.close(),
            Index::Limit(l) => l.close(),
            Index::MemStoreAll(ma) => ma.close(),
            Index::MemStore(ms) => ms.close(),
            Index::Resolver(rv) => rv.close(),
            Index::ValueFilter(vf) => vf.close(),
            Index::LinksTo(lt) => lt.close(),
            Index::HasA(h) => h.close(),
            Index::Materialize(m) => m.close(),
            Index::Count(c) => c.close(),
            Index::Unique(u) => u.close(),
            Index::Not(n) => n.close(),
            Index::Skip(k) => k.close(),
            Index::Or(o) => o.close(),
        }
    }
}

} // verus!
