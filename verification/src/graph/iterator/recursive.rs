//! Follows a step again and again from a starting set of nodes: the nodes of
//! the first step, then the nodes one step from those, and so on, each node
//! listed once, until a step reaches nothing new or the depth limit.
use vstd::prelude::*;
use crate::graph::refs::{Ref, RefV, ContentV, Size, ref_key, pre_fetched};
use crate::graph::value::{Value, ValueV};
use crate::graph::quad::QuadStore;
use crate::graph::iterator::{Shape, Scanner, Costs, copy_strings};
use crate::graph::iterator::fixed::{Fixed, refs_view};
use crate::graph::iterator::save::tag;
use crate::graph::iterator::tags::TagMap;
use crate::arith::{clamp_i64, sat_add, sat_mul, sat_div, trunc_div};
use crate::strutil::{copy_string, string_of};

verus! {

/// The depth limit used when none (zero) is given.
pub const DEFAULT_MAX_RECURSIVE_STEPS: i32 = 50;

/// The tag under which each step's results keep the node they came from.
pub open spec fn base_tag_text() -> Seq<char> {
    seq!['_', '_', 'b', 'a', 's', 'e', '_', 'r', 'e', 'c', 'u', 'r', 's', 'i', 'v', 'e']
}

/// The error of a step whose results lost the tag of their input.
pub open spec fn lost_tag_text() -> Seq<char> {
    "a step lost the tag of its input"@
}

fn base_tag() -> (r: String)
    ensures
        r@ == base_tag_text(),
{
    proof {
        reveal_strlit("__base_recursive");
    }
    string_of("__base_recursive")
}

/// One step of a walk: the shape of the nodes one step away from the nodes
/// of `shape`. The step is given its input tagged, and should keep that
/// tag on its results, so that each result knows the node it came from.
pub trait Morphism {
    fn morph(&self, shape: Shape) -> Shape;
}

/// The square of `x` to the fifth power, clamped to `i64`.
pub open spec fn pow10_clamped(x: int) -> i64 {
    clamp_i64(pow_nat(x * x, 5))
}

/// `x` to the tenth power, saturating at `i64::MAX`.
pub fn pow10_sat(x: i64) -> (r: i64)
    ensures
        r == pow10_clamped(x as int),
{
    let ghost xi = x as int;
    let x2: i64 = sat_mul(x, x);
    proof {
        assert(xi * xi >= 0) by (nonlinear_arith);
    }
    let mut acc: i64 = 1;
    let mut i: u32 = 0;
    let ghost mut p: int = 1;
    while i < 5
        invariant
            i <= 5,
            x2 == clamp_i64(xi * xi),
            xi * xi >= 0,
            p >= 0,
            p == pow_nat(xi * xi, i as nat),
            acc == clamp_i64(p),
        decreases 5 - i,
    {
        proof {
            lemma_pow_step(xi * xi, i as nat);
            lemma_clamp_mul(p, xi * xi);
        }
        acc = sat_mul(acc, x2);
        proof {
            p = p * (xi * xi);
        }
        i = i + 1;
    }
    acc
}

/// `b` to the power `e`.
pub open spec fn pow_nat(b: int, e: nat) -> int
    decreases e,
{
    if e == 0 {
        1
    } else {
        pow_nat(b, (e - 1) as nat) * b
    }
}

proof fn lemma_pow_step(b: int, e: nat)
    requires
        b >= 0,
    ensures
        pow_nat(b, e + 1) == pow_nat(b, e) * b,
        pow_nat(b, e) >= 0,
    decreases e,
{
    if e > 0 {
        lemma_pow_step(b, (e - 1) as nat);
        assert(pow_nat(b, (e - 1) as nat) * b >= 0) by (nonlinear_arith)
            requires
                pow_nat(b, (e - 1) as nat) >= 0,
                b >= 0,
        ;
    }
}

/// Saturating multiplication of a clamped product by a clamped factor gives
/// the clamped product, for non-negative values.
proof fn lemma_clamp_mul(p: int, q: int)
    requires
        p >= 0,
        q >= 0,
    ensures
        clamp_i64(clamp_i64(p) * clamp_i64(q)) == clamp_i64(p * q),
{
    if q == 0 || p == 0 {
        assert(p * q == 0) by (nonlinear_arith)
            requires
                q == 0 || p == 0,
        ;
        assert(clamp_i64(p) * clamp_i64(q) == 0) by (nonlinear_arith)
            requires
                clamp_i64(q) == 0 || clamp_i64(p) == 0,
        ;
    } else if p <= i64::MAX && q <= i64::MAX {
    } else {
        assert(p * q >= p && p * q >= q) by (nonlinear_arith)
            requires
                p >= 1,
                q >= 1,
        ;
        let a = clamp_i64(p) as int;
        let b = clamp_i64(q) as int;
        assert(a >= 1 && b >= 1);
        assert(a == i64::MAX || b == i64::MAX);
        assert(a * b >= a && a * b >= b) by (nonlinear_arith)
            requires
                a >= 1,
                b >= 1,
        ;
    }
}

/// The cost estimates of a walk from the nodes of a shape with costs `sub`,
/// whose step has costs `fanout` from one node: a step costs both next
/// costs; the size is the tenth power of the starting size, inexact; a
/// check costs a step for each tenth of that size, and a check of the
/// start.
pub fn recursive_costs(sub: Costs, fanout: Costs) -> (r: Costs)
    ensures
        r.next_cost == clamp_i64(sub.next_cost + fanout.next_cost),
        r.size.value == pow10_clamped(sub.size.value as int),
        !r.size.exact,
        r.contains_cost == clamp_i64(
            clamp_i64(clamp_i64(sub.next_cost + fanout.next_cost) * trunc_div(pow10_clamped(sub.size.value as int) as int, 10))
                + sub.contains_cost),
{
    let step = sat_add(sub.next_cost, fanout.next_cost);
    let size = pow10_sat(sub.size.value);
    let tenth = sat_div(size, 10);
    proof {
        assert(trunc_div(size as int, 10) >= i64::MIN && trunc_div(size as int, 10) <= i64::MAX) by {
            if size >= 0 {
                assert(trunc_div(size as int, 10) == size / 10);
            } else {
                assert(trunc_div(size as int, 10) == -((-size) / 10));
            }
        }
    }
    Costs {
        next_cost: step,
        contains_cost: sat_add(sat_mul(step, tenth), sub.contains_cost),
        size: Size { value: size, exact: false },
    }
}

/// The walk: the nodes reached from those of `sub_it` by one step of
/// `morphism`, then by one more, and so on, each node once; at most
/// `max_depth` steps when it is positive, without limit otherwise.
pub struct Recursive<M: Morphism> {
    pub sub_it: Box<Shape>,
    pub morphism: M,
    pub max_depth: i32,
    pub depth_tags: Vec<String>,
}

impl<M: Morphism + Clone> Recursive<M> {
    /// The walk from `sub_it`; a depth limit of zero stands for the default
    /// of fifty steps.
    pub fn new(sub_it: Shape, morphism: M, max_depth: i32) -> (r: Recursive<M>)
        ensures
            *r.sub_it == sub_it,
            r.morphism == morphism,
            r.max_depth == (if max_depth == 0 { DEFAULT_MAX_RECURSIVE_STEPS } else { max_depth }),
            r.depth_tags@.len() == 0,
    {
        Recursive {
            sub_it: Box::new(sub_it),
            morphism,
            max_depth: if max_depth == 0 { DEFAULT_MAX_RECURSIVE_STEPS } else { max_depth },
            depth_tags: Vec::new(),
        }
    }

    /// Tags each result with its depth under `s` as well.
    pub fn add_depth_tag(&mut self, s: String)
        ensures
            final(self).depth_tags@ == old(self).depth_tags@.push(s),
            *final(self).sub_it == *old(self).sub_it,
            final(self).morphism == old(self).morphism,
            final(self).max_depth == old(self).max_depth,
    {
        self.depth_tags.push(s);
    }

    /// The estimates from those of the start and of one step from a single
    /// node (see `recursive_costs`); the first error of either stands.
    pub fn stats<Q: QuadStore>(&self, qs: &Q) -> (r: Result<Costs, String>)
        ensures
            r matches Ok(c) ==> !c.size.exact,
            crate::graph::iterator::known_costs(*self.sub_it) matches Some(x) ==> (r matches Ok(c)
                ==> c.size.value == pow10_clamped(x.size.value as int)),
    {
        let base = Shape::Fixed(Fixed::new(vec![Ref::new_i64_node(20)]));
        let fanout = self.morphism.morph(base);
        let fanout_stats = match fanout.stats(qs) {
            Ok(c) => c,
            Err(e) => return Err(e),
        };
        let sub_stats = match self.sub_it.stats(qs) {
            Ok(c) => c,
            Err(e) => return Err(e),
        };
        Ok(recursive_costs(sub_stats, fanout_stats))
    }

    /// A scanner over the walk, not started.
    pub fn iterate<Q: QuadStore>(&self, qs: &Q) -> (r: RecursiveNext<M>)
        ensures
            r.wf(qs.quad_bound()),
            r.max_depth == self.max_depth,
            r.depth_tags@ == self.depth_tags@,
            r.seen@.len() == 0,
            r.depth == 0,
    {
        RecursiveNext::new(self.sub_it.iterate(qs), self.morphism.clone(), self.max_depth, copy_strings(&self.depth_tags))
    }

    /// An index over the walk, which checks the nodes reached so far and
    /// walks further when needed.
    pub fn lookup<Q: QuadStore>(&self, qs: &Q) -> (r: RecursiveContains<M>)
        ensures
            r.wf(qs.quad_bound()),
            r.next.max_depth == self.max_depth,
            r.next.seen@.len() == 0,
    {
        RecursiveContains { next: self.iterate(qs), tags: TagMap::new() }
    }

    /// Optimizes the start in place; the walk itself stays.
    pub fn optimize<Q: QuadStore>(&mut self, qs: &Q) -> (r: Option<Shape>)
        ensures
            r is None,
            crate::graph::iterator::optimize::optimizes_to_null(*old(self).sub_it) ==> *final(self).sub_it is Null,
            final(self).morphism == old(self).morphism,
            final(self).max_depth == old(self).max_depth,
            final(self).depth_tags == old(self).depth_tags,
    {
        match self.sub_it.optimize(qs) {
            Some(n) => {
                self.sub_it = Box::new(n);
            },
            None => {},
        }
        None
    }
}


/// The references of `s` that have a key, in order.
pub open spec fn keyed_refs(s: Seq<RefV>) -> Seq<RefV>
    decreases s.len(),
{
    if s.len() == 0 {
        s
    } else if ref_key(s.last()) is Some {
        keyed_refs(s.drop_last()).push(s.last())
    } else {
        keyed_refs(s.drop_last())
    }
}

/// Where a node was first reached: at which depth, from which node of the
/// step before, and with which tags.
pub struct SeenAt {
    pub depth: i32,
    pub tags: TagMap,
    pub val: Option<Ref>,
}

/// The keys of the nodes reached, in the order they were reached.
pub open spec fn seen_keys(s: Seq<(Value, SeenAt)>) -> Seq<ValueV> {
    s.map_values(|e: (Value, SeenAt)| e.0@)
}

/// The position of the node with key `k` among those reached, if any.
fn seen_position(seen: &Vec<(Value, SeenAt)>, k: &Value) -> (r: Option<usize>)
    ensures
        match r {
            Some(i) => i < seen@.len() && seen@[i as int].0@ == k@,
            None => !seen_keys(seen@).contains(k@),
        },
        match r {
            Some(i) => first_key_position(seen@, k@) == Some(i as int),
            None => first_key_position(seen@, k@) is None,
        },
{
    let mut i: usize = 0;
    while i < seen.len()
        invariant
            i <= seen@.len(),
            forall|j: int| 0 <= j < i ==> (#[trigger] seen@[j]).0@ != k@,
        decreases seen@.len() - i,
    {
        if seen[i].0.equals(k) {
            proof {
                lemma_first_key_position(seen@, k@, i as int);
            }
            return Some(i);
        }
        i = i + 1;
    }
    proof {
        lemma_no_key_position(seen@, k@);
        if seen_keys(seen@).contains(k@) {
            let j = choose|j: int| 0 <= j < seen_keys(seen@).len() && seen_keys(seen@)[j] == k@;
            assert(seen@[j].0@ == k@);
        }
    }
    None
}

/// The tag sets under which each starting node was reached.
fn path_map_push(m: &mut Vec<(Value, Vec<TagMap>)>, k: &Value, tags: TagMap)
    ensures
        match first_key_position(old(m)@, k@) {
            Some(p) => final(m)@.len() == old(m)@.len()
                && final(m)@[p].0 == old(m)@[p].0
                && final(m)@[p].1@ == old(m)@[p].1@.push(tags)
                && forall|j: int| 0 <= j < old(m)@.len() && j != p ==> #[trigger] final(m)@[j] == old(m)@[j],
            None => final(m)@.len() == old(m)@.len() + 1
                && final(m)@.last().0@ == k@
                && final(m)@.last().1@ == seq![tags]
                && forall|j: int| 0 <= j < old(m)@.len() ==> #[trigger] final(m)@[j] == old(m)@[j],
        },
{
    let mut i: usize = 0;
    while i < m.len()
        invariant
            i <= m@.len(),
            m@ == old(m)@,
            forall|j: int| 0 <= j < i ==> (#[trigger] m@[j]).0@ != k@,
        decreases m@.len() - i,
    {
        if m[i].0.equals(k) {
            proof {
                lemma_first_key_position(old(m)@, k@, i as int);
            }
            let ghost before = m@;
            let mut e = m.remove(i);
            e.1.push(tags);
            m.insert(i, e);
            proof {
                assert forall|j: int| 0 <= j < before.len() && j != i implies #[trigger] m@[j] == before[j] by {
                    if j < i {
                        assert(m@[j] == before.remove(i as int)[j]);
                    } else {
                        assert(m@[j] == before.remove(i as int)[j - 1]);
                    }
                }
            }
            return;
        }
        i = i + 1;
    }
    proof {
        lemma_no_key_position(old(m)@, k@);
    }
    let mut list: Vec<TagMap> = Vec::new();
    list.push(tags);
    proof {
        assert(list@ =~= seq![tags]);
    }
    m.push((k.copy(), list));
}

/// The first position of an entry with key `k`, if any.
pub open spec fn first_key_position<T>(m: Seq<(Value, T)>, k: ValueV) -> Option<int>
    decreases m.len(),
{
    if m.len() == 0 {
        None
    } else if m[0].0@ == k {
        Some(0)
    } else {
        match first_key_position(m.drop_first(), k) {
            Some(p) => Some(p + 1),
            None => None,
        }
    }
}

proof fn lemma_first_key_position<T>(m: Seq<(Value, T)>, k: ValueV, i: int)
    requires
        0 <= i < m.len(),
        m[i].0@ == k,
        forall|j: int| 0 <= j < i ==> (#[trigger] m[j]).0@ != k,
    ensures
        first_key_position(m, k) == Some(i),
    decreases i,
{
    if i > 0 {
        assert forall|j: int| 0 <= j < i - 1 implies (#[trigger] m.drop_first()[j]).0@ != k by {
            assert(m.drop_first()[j] == m[j + 1]);
        }
        lemma_first_key_position(m.drop_first(), k, i - 1);
    }
}

proof fn lemma_no_key_position<T>(m: Seq<(Value, T)>, k: ValueV)
    requires
        forall|j: int| 0 <= j < m.len() ==> (#[trigger] m[j]).0@ != k,
    ensures
        first_key_position(m, k) is None,
    decreases m.len(),
{
    if m.len() > 0 {
        assert forall|j: int| 0 <= j < m.len() - 1 implies (#[trigger] m.drop_first()[j]).0@ != k by {
            assert(m.drop_first()[j] == m[j + 1]);
        }
        lemma_no_key_position(m.drop_first(), k);
    }
}

/// The tag sets recorded for key `k`, if any.
fn path_map_find(m: &Vec<(Value, Vec<TagMap>)>, k: &Value) -> (r: Option<usize>)
    ensures
        match r {
            Some(i) => Some(i as int) == first_key_position(m@, k@) && i < m@.len() && m@[i as int].0@ == k@,
            None => first_key_position(m@, k@) is None,
        },
{
    let mut i: usize = 0;
    while i < m.len()
        invariant
            i <= m@.len(),
            forall|j: int| 0 <= j < i ==> (#[trigger] m@[j]).0@ != k@,
        decreases m@.len() - i,
    {
        if m[i].0.equals(k) {
            proof {
                lemma_first_key_position(m@, k@, i as int);
            }
            return Some(i);
        }
        i = i + 1;
    }
    proof {
        lemma_no_key_position(m@, k@);
    }
    None
}

proof fn lemma_first_key_position_props<T>(m: Seq<(Value, T)>, k: ValueV)
    ensures
        first_key_position(m, k) matches Some(p) ==> 0 <= p < m.len() && m[p].0@ == k,
    decreases m.len(),
{
    if m.len() > 0 && m[0].0@ != k {
        lemma_first_key_position_props(m.drop_first(), k);
    }
}

/// The reference to nothing.
pub open spec fn none_ref() -> RefV {
    RefV { k: ValueV::Undefined, content: ContentV::Empty }
}

/// The node that the entry at `at` was first reached from, followed back
/// through the entries of the nodes reached, at most `fuel` steps, to an
/// entry at depth one; the reference to nothing when the chain breaks off
/// or is longer.
pub open spec fn chain_base(seen: Seq<(Value, SeenAt)>, at: int, fuel: nat) -> RefV
    decreases fuel,
{
    if !(0 <= at < seen.len()) {
        none_ref()
    } else if seen[at].1.depth == 1 {
        match seen[at].1.val {
            Some(v) => v@,
            None => none_ref(),
        }
    } else if fuel == 0 {
        none_ref()
    } else {
        match seen[at].1.val {
            Some(v) => match ref_key(v@) {
                Some(vk) => match first_key_position(seen, vk) {
                    Some(j) => chain_base(seen, j, (fuel - 1) as nat),
                    None => none_ref(),
                },
                None => none_ref(),
            },
            None => none_ref(),
        }
    }
}

/// Whether a walk passes over `res` without listing it: it is no node, or
/// a node whose key is among `seen`.
pub open spec fn passed_over_result(res: Option<RefV>, seen: Seq<ValueV>) -> bool {
    match res {
        None => true,
        Some(v) => match ref_key(v) {
            None => true,
            Some(k) => seen.contains(k),
        },
    }
}

/// Whether `n` successful steps lead from `a` to `b`, each to a result that
/// the walk passes over.
pub open spec fn passed_over(a: Scanner, b: Scanner, n: nat, seen: Seq<ValueV>, qb: nat) -> bool
    decreases n,
{
    if n == 0 {
        a == b
    } else {
        exists|m: Scanner| #[trigger] m.next_step(b, true, qb) && passed_over(a, m, (n - 1) as nat, seen, qb)
            && passed_over_result(b.spec_result(), seen)
    }
}

/// Lists the nodes of a walk, depth by depth.
pub struct RecursiveNext<M: Morphism> {
    pub sub_it: Box<Scanner>,
    pub result_depth: i32,
    pub result: Option<Ref>,
    pub err: Option<String>,
    pub morphism: M,
    pub seen: Vec<(Value, SeenAt)>,
    pub next_it: Box<Scanner>,
    pub depth: i32,
    pub max_depth: i32,
    pub path_map: Vec<(Value, Vec<TagMap>)>,
    pub path_index: usize,
    pub contains_value: Option<Ref>,
    pub depth_tags: Vec<String>,
    pub depth_cache: Vec<Ref>,
    pub base_it: Shape,
}

impl<M: Morphism> RecursiveNext<M> {
    /// The scanners can be moved, no node is listed twice, and the depth
    /// stays within its limit; before the first step there is nothing to
    /// list from.
    pub open spec fn wf(&self, qb: nat) -> bool {
        &&& self.sub_it.wf(qb)
        &&& self.next_it.wf(qb)
        &&& seen_keys(self.seen@).no_duplicates()
        &&& 0 <= self.depth
        &&& (self.max_depth > 0 ==> self.depth <= self.max_depth)
        &&& (self.depth == 0 ==> *self.next_it is Null)
        &&& forall|i: int| 0 <= i < self.seen@.len() ==> 1 <= (#[trigger] self.seen@[i]).1.depth <= self.depth
    }

    /// Whether the walk is over: its last step ran out (or a step lost the
    /// tag of its input), and it stands at the depth limit, found nothing
    /// new at the last depth, or met an error.
    pub open spec fn walk_over(&self, qb: nat) -> bool {
        &&& (self.max_depth > 0 && self.depth >= self.max_depth)
            || self.depth_cache@.len() == 0
            || self.depth == i32::MAX
            || self.err is Some
        &&& crate::graph::iterator::ended(*self.next_it, qb)
            || (self.err matches Some(e) && e@ == lost_tag_text())
    }

    /// A new walk over the results of `sub_it`, not started.
    pub fn new(sub_it: Scanner, morphism: M, max_depth: i32, depth_tags: Vec<String>) -> (r: RecursiveNext<M>)
        ensures
            *r.sub_it == sub_it,
            r.morphism == morphism,
            r.max_depth == max_depth,
            r.depth_tags == depth_tags,
            r.depth == 0,
            r.seen@.len() == 0,
            *r.next_it is Null,
            r.result is None,
            r.err is None,
    {
        RecursiveNext {
            sub_it: Box::new(sub_it),
            result_depth: 0,
            result: None,
            err: None,
            morphism,
            seen: Vec::new(),
            next_it: Box::new(Scanner::Null(crate::graph::iterator::Null {})),
            depth: 0,
            max_depth,
            path_map: Vec::new(),
            path_index: 0,
            contains_value: None,
            depth_tags,
            depth_cache: Vec::new(),
            base_it: Shape::Fixed(Fixed::new(Vec::new())),
        }
    }

    /// The starting node that `val` was reached from: the chain of nodes
    /// each was first reached from, followed back to depth one. The
    /// reference to nothing when `val` has no key, or when the chain does
    /// not lead back (a step that did not keep the tag of its input).
    pub fn get_base_value(&self, val: &Ref) -> (r: Ref)
        ensures
            (ref_key(val@) is None || !seen_keys(self.seen@).contains(ref_key(val@)->0))
                ==> r@ == none_ref(),
            r@ == match ref_key(val@) {
                Some(k) => match first_key_position(self.seen@, k) {
                    Some(i) => chain_base(self.seen@, i, self.seen@.len()),
                    None => none_ref(),
                },
                None => none_ref(),
            },
    {
        let k = match val.key() {
            Some(k) => k,
            None => return Ref::none(),
        };
        let mut at: usize = match seen_position(&self.seen, k) {
            Some(i) => i,
            None => return Ref::none(),
        };
        proof {
            assert(seen_keys(self.seen@)[at as int] == k@);
        }
        let mut fuel: usize = self.seen.len();
        let ghost at0 = at as int;
        while self.seen[at].1.depth != 1
            invariant
                at < self.seen@.len(),
                fuel <= self.seen@.len(),
                chain_base(self.seen@, at as int, fuel as nat) == chain_base(self.seen@, at0, self.seen@.len()),
                ref_key(val@) == Some(k@),
                first_key_position(self.seen@, k@) == Some(at0),
            decreases fuel,
        {
            if fuel == 0 {
                proof {
                    assert(chain_base(self.seen@, at as int, 0) == none_ref());
                }
                return Ref::none();
            }
            let ghost f0 = fuel as nat;
            proof {
                reveal_with_fuel(chain_base, 1);
            }
            fuel = fuel - 1;
            let next = match &self.seen[at].1.val {
                Some(v) => match v.key() {
                    Some(vk) => seen_position(&self.seen, vk),
                    None => None,
                },
                None => None,
            };
            match next {
                Some(j) => {
                    proof {
                        assert(chain_base(self.seen@, at as int, f0) == chain_base(self.seen@, j as int, fuel as nat));
                    }
                    at = j;
                },
                None => {
                    proof {
                        assert(chain_base(self.seen@, at as int, f0) == none_ref());
                    }
                    return Ref::none();
                },
            }
        }
        match &self.seen[at].1.val {
            Some(v) => v.copy(),
            None => Ref::none(),
        }
    }

    /// Moves to the next node not listed yet: first gathers the starting
    /// nodes, then lists the nodes of each step, taking one step more from
    /// the nodes found at the last depth when a step is exhausted. Ends when
    /// a step found nothing new, at the depth limit, or at an error (a step
    /// whose results lost the tag of their input).
    pub fn next<Q: QuadStore>(&mut self, qs: &Q) -> (r: bool)
        requires
            old(self).wf(qs.quad_bound()),
        ensures
            final(self).wf(qs.quad_bound()),
            final(self).max_depth == old(self).max_depth,
            r ==> (final(self).result matches Some(v) && ref_key(v@) matches Some(k)
                && !seen_keys(old(self).seen@).contains(k)
                && seen_keys(final(self).seen@) == seen_keys(old(self).seen@).push(k)
                && final(self).result_depth == final(self).depth
                && final(self).depth >= 1),
            !r ==> seen_keys(final(self).seen@) == seen_keys(old(self).seen@),
            !r ==> final(self).walk_over(qs.quad_bound()),
            r ==> final(self).depth > old(self).depth
                || (final(self).depth == old(self).depth && final(self).next_it.rank() < old(self).next_it.rank()),
            final(self).depth >= old(self).depth,
            final(self).depth == old(self).depth ==> final(self).next_it.rank() <= old(self).next_it.rank(),
            final(self).err != old(self).err ==> !r && (final(self).err matches Some(e) && e@ == lost_tag_text()),
            r ==> crate::graph::iterator::opt_ref_view(final(self).result) == final(self).next_it.spec_result(),
            exists|s0: Scanner, n: nat, m: Scanner, q: bool|
                (final(self).depth == old(self).depth ==> s0 == *old(self).next_it)
                && #[trigger] passed_over(s0, m, n, seen_keys(old(self).seen@), qs.quad_bound())
                && #[trigger] m.next_step(*final(self).next_it, q, qs.quad_bound())
                && (r ==> q) && (q && !(final(self).err matches Some(e) && e@ == lost_tag_text()) ==> r),
    {
        let ghost qb = qs.quad_bound();
        self.path_index = 0;
        if self.depth == 0 {
            self.load_base(qs);
        }
        let ghost mut s0 = *self.next_it;
        let ghost mut n: nat = 0;
        loop
            invariant
                qb == qs.quad_bound(),
                self.wf(qb),
                self.max_depth == old(self).max_depth,
                self.seen == old(self).seen,
                self.err == old(self).err,
                self.depth >= old(self).depth,
                self.depth == old(self).depth ==> self.next_it.rank() <= old(self).next_it.rank(),
                self.depth == old(self).depth ==> s0 == *old(self).next_it,
                passed_over(s0, *self.next_it, n, seen_keys(old(self).seen@), qb),
            decreases i32::MAX - self.depth, self.next_it.rank(),
        {
            let ghost pre = *self.next_it;
            if !self.next_it.next(qs) {
                assert(passed_over(s0, pre, n, seen_keys(old(self).seen@), qb));
                if self.max_depth > 0 && self.depth >= self.max_depth {
                    return false;
                } else if self.depth_cache.len() == 0 {
                    return false;
                } else if self.depth == i32::MAX {
                    return false;
                }
                self.depth = self.depth + 1;
                let mut cache: Vec<Ref> = Vec::new();
                std::mem::swap(&mut cache, &mut self.depth_cache);
                self.base_it = Shape::Fixed(Fixed::new(cache));
                let _ = self.next_it.close();
                let step = self.morphism.morph(tag(self.base_it.copy(), base_tag()));
                self.next_it = Box::new(step.iterate(qs));
                proof {
                    s0 = *self.next_it;
                    n = 0;
                }
                continue;
            }
            let val = match self.next_it.result() {
                Some(v) => v,
                None => {
                    proof {
                        n = n + 1;
                        assert(passed_over(s0, *self.next_it, n, seen_keys(old(self).seen@), qb));
                    }
                    continue;
                },
            };
            let key = match val.key() {
                Some(k) => k.copy(),
                None => {
                    proof {
                        n = n + 1;
                        assert(passed_over(s0, *self.next_it, n, seen_keys(old(self).seen@), qb));
                    }
                    continue;
                },
            };
            let mut results = TagMap::new();
            self.next_it.tag_results(&mut results);
            let sp = seen_position(&self.seen, &key);
            if sp.is_none() {
                let bt = base_tag();
                let base = match results.get(&bt) {
                    Some(b) => b,
                    None => {
                        proof {
                            reveal_strlit("a step lost the tag of its input");
                        }
                        assert(passed_over(s0, pre, n, seen_keys(old(self).seen@), qb));
                        self.err = Some(string_of("a step lost the tag of its input"));
                        proof {
                            reveal_strlit("a step lost the tag of its input");
                            assert(self.err->0@ == lost_tag_text());
                        }
                        return false;
                    },
                };
                results.remove(&bt);
                let ghost kg = key@;
                self.seen.push((key, SeenAt { val: Some(base), depth: self.depth, tags: results }));
                proof {
                    assert(seen_keys(self.seen@) =~= seen_keys(old(self).seen@).push(kg));
                }
                self.result_depth = self.depth;
                self.result = Some(val.copy());
                self.contains_value = Some(self.get_base_value(&val));
                self.depth_cache.push(val);
                assert(passed_over(s0, pre, n, seen_keys(old(self).seen@), qb));
                return true;
            }
            proof {
                assert(seen_keys(old(self).seen@)[sp->0 as int] == key@);
                assert(seen_keys(old(self).seen@).contains(key@));
                n = n + 1;
                assert(passed_over(s0, *self.next_it, n, seen_keys(old(self).seen@), qb));
            }
        }
    }

    /// Adds the tags of the current node: its depth under each depth tag,
    /// the tags of the current path of its starting node, and those of the
    /// step that reached it.
    pub fn tag_results(&self, tags: &mut TagMap)
        ensures
            !final(tags)@.contains_key(base_tag_text()),
    {
        let mut i: usize = 0;
        while i < self.depth_tags.len()
            invariant
                i <= self.depth_tags@.len(),
            decreases self.depth_tags@.len() - i,
        {
            let p = pre_fetched(Value::from_i64(self.result_depth as i64));
            tags.insert(self.depth_tags[i].clone(), p);
            i = i + 1;
        }
        match &self.contains_value {
            Some(cv) => match cv.key() {
                Some(ky) => match path_map_find(&self.path_map, ky) {
                    Some(j) => {
                        let paths = &self.path_map[j].1;
                        if self.path_index < paths.len() {
                            tags.extend(&paths[self.path_index]);
                        }
                    },
                    None => {},
                },
                None => {},
            },
            None => {},
        }
        self.next_it.tag_results(tags);
        tags.remove(&base_tag());
    }

    /// Moves to the next set of tags under which the starting node of the
    /// current node was reached; false when there is none.
    pub fn next_path(&mut self) -> (r: bool)
        ensures
            r == (old(self).contains_value matches Some(cv) && ref_key(cv@) matches Some(k)
                && first_key_position(old(self).path_map@, k) matches Some(j)
                && old(self).path_index + 1 < old(self).path_map@[j].1@.len()),
            final(self).path_map == old(self).path_map,
            final(self).seen == old(self).seen,
            final(self).sub_it == old(self).sub_it,
            final(self).next_it == old(self).next_it,
            final(self).depth == old(self).depth,
            r ==> final(self).path_index == old(self).path_index + 1,
            !r ==> final(self).path_index == old(self).path_index,
            r ==> exists|j: int| 0 <= j < final(self).path_map@.len()
                && final(self).path_index < (#[trigger] final(self).path_map@[j]).1@.len(),
    {
        let key = match &self.contains_value {
            Some(cv) => match cv.key() {
                Some(k) => k.copy(),
                None => return false,
            },
            None => return false,
        };
        let j = match path_map_find(&self.path_map, &key) {
            Some(j) => j,
            None => return false,
        };
        let b = self.path_map[j].1.len();
        if self.path_index >= b || b - self.path_index <= 1 {
            return false;
        }
        self.path_index = self.path_index + 1;
        proof {
            assert(self.path_index < self.path_map@[j as int].1@.len());
        }
        true
    }

    pub fn result(&self) -> (r: Option<Ref>)
        ensures
            match (r, self.result) {
                (Some(a), Some(b)) => a@ == b@,
                (None, None) => true,
                _ => false,
            },
    {
        match &self.result {
            Some(v) => Some(v.copy()),
            None => None,
        }
    }

    pub fn err(&self) -> (r: Option<String>)
        ensures
            match (r, self.err) {
                (Some(a), Some(b)) => a@ == b@,
                (None, None) => true,
                _ => false,
            },
    {
        match &self.err {
            Some(e) => Some(copy_string(e)),
            None => None,
        }
    }

    /// Closes both scanners and forgets the nodes reached; the first error
    /// of the scanners, or the walk's own, is reported.
    pub fn close(&mut self) -> (r: Result<(), String>)
        ensures
            r is Ok ==> final(self).seen@.len() == 0 && final(self).err is None,
            exists|r1: Result<(), String>| #[trigger] old(self).sub_it.close_step(*final(self).sub_it, r1)
                && (r1 is Err ==> r == r1)
                && (r1 is Ok ==> exists|r2: Result<(), String>| #[trigger] old(self).next_it.close_step(*final(self).next_it, r2)
                    && (r2 is Err ==> r == r2)
                    && (r2 is Ok ==> (r is Ok <==> old(self).err is None))),
    {
        let res = self.sub_it.close();
        if res.is_err() {
            return res;
        }
        let res = self.next_it.close();
        if res.is_err() {
            return res;
        }
        self.seen = Vec::new();
        match &self.err {
            Some(e) => Err(copy_string(e)),
            None => Ok(()),
        }
    }

    /// What a run over the start scanner `sc`, from `start`, has added to
    /// the depth cache so far: for a fixed list, its values with a key from
    /// `start` up to its position.
    pub open spec fn loaded_from(start: Scanner, sc: Scanner, added: Seq<RefV>) -> bool {
        start matches Scanner::Fixed(f) ==> sc matches Scanner::Fixed(n) && n.values == f.values
            && f.ind <= n.ind <= n.values@.len()
            && added == keyed_refs(refs_view(f.values@).subrange(f.ind as int, n.ind as int))
    }

    /// Lists the starting nodes, with every tag set each was reached with.
    fn load_base<Q: QuadStore>(&mut self, qs: &Q)
        requires
            old(self).wf(qs.quad_bound()),
        ensures
            final(self).wf(qs.quad_bound()),
            final(self).seen == old(self).seen,
            final(self).depth == old(self).depth,
            final(self).next_it == old(self).next_it,
            final(self).max_depth == old(self).max_depth,
            final(self).depth_cache@.len() >= old(self).depth_cache@.len(),
            final(self).depth_cache@.subrange(0, old(self).depth_cache@.len() as int) == old(self).depth_cache@,
            final(self).err == old(self).err,
            (*old(self).sub_it is Null || *old(self).sub_it is Error) ==> *final(self) == *old(self),
            *old(self).sub_it matches Scanner::Fixed(f) ==> refs_view(final(self).depth_cache@)
                == refs_view(old(self).depth_cache@) + keyed_refs(refs_view(f.values@).skip(f.ind as int)),
    {
        let ghost qb = qs.quad_bound();
        let ghost n0 = old(self).depth_cache@.len() as int;
        proof {
            if *old(self).sub_it is Fixed {
                let f = old(self).sub_it->Fixed_0;
                assert(refs_view(f.values@).subrange(f.ind as int, f.ind as int) =~= Seq::<RefV>::empty());
                assert(refs_view(self.depth_cache@).subrange(n0, n0) =~= Seq::<RefV>::empty());
            }
        }
        while self.sub_it.next(qs)
            invariant
                Self::loaded_from(*old(self).sub_it, *self.sub_it, refs_view(self.depth_cache@).subrange(n0, refs_view(self.depth_cache@).len() as int)),
                n0 == old(self).depth_cache@.len(),
                (*old(self).sub_it is Null || *old(self).sub_it is Error) ==> *self == *old(self),
                self.err == old(self).err,
                self.depth_cache@.len() >= old(self).depth_cache@.len(),
                self.depth_cache@.subrange(0, old(self).depth_cache@.len() as int) == old(self).depth_cache@,
                qb == qs.quad_bound(),
                self.wf(qb),
                self.seen == old(self).seen,
                self.depth == old(self).depth,
                self.next_it == old(self).next_it,
                self.max_depth == old(self).max_depth,
            decreases self.sub_it.rank(),
        {
            let ghost r0 = self.sub_it.rank();
            let ghost before = self.depth_cache@;
            proof {
                if *old(self).sub_it is Fixed {
                    let f = old(self).sub_it->Fixed_0;
                    let n = self.sub_it->Fixed_0;
                    let vs = refs_view(f.values@);
                    assert(vs.subrange(f.ind as int, n.ind as int).drop_last() =~= vs.subrange(f.ind as int, n.ind - 1));
                }
            }
            let res = match self.sub_it.result() {
                Some(r) => r,
                None => continue,
            };
            let key = match res.key() {
                Some(k) => k.copy(),
                None => continue,
            };
            self.depth_cache.push(res);
            proof {
                assert(refs_view(self.depth_cache@).subrange(n0, refs_view(self.depth_cache@).len() as int)
                    =~= refs_view(before).subrange(n0, refs_view(before).len() as int).push(self.depth_cache@.last()@));
            }
            let mut tags = TagMap::new();
            self.sub_it.tag_results(&mut tags);
            path_map_push(&mut self.path_map, &key, tags);
            while self.sub_it.next_path(qs)
                invariant
                    self.err == old(self).err,
                    Self::loaded_from(*old(self).sub_it, *self.sub_it, refs_view(self.depth_cache@).subrange(n0, refs_view(self.depth_cache@).len() as int)),
                    n0 == old(self).depth_cache@.len(),
                    self.depth_cache@.len() >= old(self).depth_cache@.len(),
                    self.depth_cache@.subrange(0, old(self).depth_cache@.len() as int) == old(self).depth_cache@,
                    qb == qs.quad_bound(),
                    self.wf(qb),
                    self.sub_it.rank() <= r0,
                    self.seen == old(self).seen,
                    self.depth == old(self).depth,
                    self.next_it == old(self).next_it,
                    self.max_depth == old(self).max_depth,
                decreases self.sub_it.path_rank(),
            {
                let mut tags = TagMap::new();
                self.sub_it.tag_results(&mut tags);
                path_map_push(&mut self.path_map, &key, tags);
            }
        }
    }
}


/// Checks nodes against a walk: a node already reached is found at once;
/// otherwise the walk goes on until it reaches the node or ends.
pub struct RecursiveContains<M: Morphism> {
    pub next: RecursiveNext<M>,
    pub tags: TagMap,
}

impl<M: Morphism> RecursiveContains<M> {
    pub open spec fn wf(&self, qb: nat) -> bool {
        self.next.wf(qb)
    }

    /// Whether the walk reaches `val`: true at once when it was reached
    /// already (it becomes the current node, with the tags it was reached
    /// with); otherwise the walk moves on, and the answer is whether the
    /// node it stops at has the key of `val`; false at the first node
    /// without a key, and when the walk ends.
    pub fn contains<Q: QuadStore>(&mut self, qs: &Q, val: &Ref) -> (r: bool)
        requires
            old(self).wf(qs.quad_bound()),
        ensures
            final(self).wf(qs.quad_bound()),
            ref_key(val@) is None ==> !r,
            (ref_key(val@) matches Some(k) && seen_keys(old(self).next.seen@).contains(k)) ==> r
                && seen_keys(final(self).next.seen@) == seen_keys(old(self).next.seen@),
            r ==> (ref_key(val@) matches Some(k) && seen_keys(final(self).next.seen@).contains(k)),
            !r ==> (ref_key(val@) matches Some(k) ==> !seen_keys(final(self).next.seen@).contains(k)),
            seen_keys(old(self).next.seen@).is_prefix_of(seen_keys(final(self).next.seen@)),
            !r && (ref_key(val@) matches Some(k) && !seen_keys(old(self).next.seen@).contains(k))
                ==> final(self).next.walk_over(qs.quad_bound()),
    {
        let ghost qb = qs.quad_bound();
        self.next.path_index = 0;
        let key = match val.key() {
            Some(k) => k,
            None => return false,
        };
        match seen_position(&self.next.seen, key) {
            Some(i) => {
                let depth = self.next.seen[i].1.depth;
                let tags = self.next.seen[i].1.tags.copy();
                let cv = self.next.get_base_value(val);
                self.next.contains_value = Some(cv);
                self.next.result_depth = depth;
                self.next.result = Some(val.copy());
                self.tags = tags;
                proof {
                    assert(seen_keys(self.next.seen@)[i as int] == key@);
                }
                return true;
            },
            None => {},
        }
        while self.next.next(qs)
            invariant
                qb == qs.quad_bound(),
                self.wf(qb),
                !seen_keys(self.next.seen@).contains(key@),
                !seen_keys(old(self).next.seen@).contains(key@),
                ref_key(val@) == Some(key@),
                seen_keys(old(self).next.seen@).is_prefix_of(seen_keys(self.next.seen@)),
            decreases i32::MAX - self.next.depth, self.next.next_it.rank(),
        {
            let n = match self.next.result() {
                Some(n) => n,
                None => return false,
            };
            let nkey = match n.key() {
                Some(k) => k.copy(),
                None => return false,
            };
            if nkey.equals(key) {
                proof {
                    assert(seen_keys(self.next.seen@).last() == key@);
                    assert(seen_keys(self.next.seen@).contains(key@));
                }
                return true;
            }
            proof {
                assert(!seen_keys(self.next.seen@).contains(key@)) by {
                    let s = seen_keys(self.next.seen@);
                    if s.contains(key@) {
                        let j = choose|j: int| 0 <= j < s.len() && s[j] == key@;
                        if j < s.len() - 1 {
                            assert(s.drop_last()[j] == key@);
                        }
                    }
                }
            }
        }
        false
    }

    /// Adds the tags of the walk's current node, then those the node was
    /// first reached with.
    pub fn tag_results(&self, tags: &mut TagMap) {
        self.next.tag_results(tags);
        tags.extend(&self.tags);
    }

    pub fn result(&self) -> (r: Option<Ref>)
        ensures
            match (r, self.next.result) {
                (Some(a), Some(b)) => a@ == b@,
                (None, None) => true,
                _ => false,
            },
    {
        self.next.result()
    }

    pub fn next_path(&mut self) -> (r: bool) {
        self.next.next_path()
    }

    pub fn err(&self) -> (r: Option<String>)
        ensures
            match (r, self.next.err) {
                (Some(a), Some(b)) => a@ == b@,
                (None, None) => true,
                _ => false,
            },
    {
        self.next.err()
    }

    pub fn close(&mut self) -> (r: Result<(), String>) {
        self.next.close()
    }
}

} // verus!
