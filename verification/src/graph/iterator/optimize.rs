//! Rewriting iterator trees into cheaper equivalent ones.
use vstd::prelude::*;
use crate::graph::quad::QuadStore;
use crate::graph::iterator::{
    Shape, Costs, Null, copy_shapes, shape_seq_height, lemma_shape_seq_height, max_nat,
};
use crate::graph::iterator::and::{And, get_stats_for_slice};
use crate::graph::iterator::or::Or;
use crate::graph::iterator::save::Save;
use crate::graph::iterator::limit::Limit;
use crate::graph::iterator::skip::Skip;
use crate::graph::iterator::not::Not;
use crate::graph::iterator::unique::Unique;
use crate::graph::iterator::count::Count;
use crate::graph::iterator::materialize::Materialize;
use crate::graph::iterator::sort::Sort;
use crate::graph::iterator::value_filter::ValueFilter;
use crate::graph::hasa::HasA;
use crate::graph::linksto::LinksTo;
use crate::graph::iterator::costs::div_spec;
use crate::arith::{clamp_i64, sat_add, sat_mul, sat_div};

verus! {

broadcast use vstd::seq_lib::group_to_multiset_ensures;

/// Whether `y` may stand for `x` after optimization: an empty iterator
/// stays empty, a fixed list keeps its references, and a shape that
/// optimizes to the empty iterator has become it.
pub open spec fn optimized_in_place(x: Shape, y: Shape) -> bool {
    &&& x is Null ==> y is Null
    &&& crate::graph::iterator::same_fixed(x, y)
    &&& optimizes_to_null(x) ==> y is Null
}

/// Whether a shape is one that optimization turns into the empty iterator
/// whatever the store: a resolver of no values, an intersection of nothing.
pub open spec fn optimizes_to_null(s: Shape) -> bool {
    ||| s matches Shape::Resolver(rv) && rv.order@.len() == 0
    ||| s matches Shape::And(a) && a.sub@.len() == 0
}

/// Optimizes every shape of `its`, in order; each is replaced by what its
/// optimization returns, when it returns something.
pub fn optimize_sub_iterators<Q: QuadStore>(its: Vec<Shape>, bound: Ghost<nat>, qs: &Q) -> (r: Vec<Shape>)
    requires
        forall|j: int| 0 <= j < its@.len() ==> (#[trigger] its@[j]).height() < bound@,
    ensures
        r@.len() == its@.len(),
        forall|j: int| 0 <= j < its@.len() && optimizes_to_null(#[trigger] its@[j]) ==> r@[j] is Null,
        forall|j: int| 0 <= j < its@.len() && (its@[j] is Null || its@[j] is Error || its@[j] is Fixed)
            ==> #[trigger] r@[j] == its@[j],
    decreases bound@, 0nat,
{
    let ghost orig = its@;
    let mut its = its;
    let ghost n = its@.len();
    let mut out: Vec<Shape> = Vec::new();
    while its.len() > 0
        invariant
            forall|j: int| 0 <= j < its@.len() ==> (#[trigger] its@[j]).height() < bound@,
            out@.len() + its@.len() == n,
            n == orig.len(),
            its@ == orig.skip(out@.len() as int),
            forall|j: int| 0 <= j < out@.len() && optimizes_to_null(#[trigger] orig[j]) ==> out@[j] is Null,
            forall|j: int| 0 <= j < out@.len() && (orig[j] is Null || orig[j] is Error || orig[j] is Fixed)
                ==> #[trigger] out@[j] == orig[j],
        decreases its@.len(),
    {
        let ghost k = out@.len() as int;
        let mut x = its.remove(0);
        proof {
            assert(x == orig[k]);
            assert(its@ =~= orig.skip(k + 1));
        }
        match x.optimize(qs) {
            Some(y) => out.push(y),
            None => out.push(x),
        }
    }
    out
}

/// Whether some shape of `its` is the empty iterator.
pub fn has_any_null_iterators(its: &Vec<Shape>) -> (r: bool)
    ensures
        r == exists|j: int| 0 <= j < its@.len() && (#[trigger] its@[j]) is Null,
{
    let mut i: usize = 0;
    while i < its.len()
        invariant
            i <= its@.len(),
            forall|j: int| 0 <= j < i ==> !((#[trigger] its@[j]) is Null),
        decreases its@.len() - i,
    {
        if its[i].is_null() {
            return true;
        }
        i = i + 1;
    }
    false
}

/// An intersection of no shapes, or with an empty one, is empty; of one
/// shape, is that shape. Otherwise there is no replacement.
pub fn optimize_replacement(its: &Vec<Shape>) -> (r: Option<Shape>)
    ensures
        its@.len() == 0 ==> r matches Some(Shape::Null(_)),
        its@.len() == 1 ==> (r matches Some(s) && s.height() == its@[0].height()),
        its@.len() > 1 ==> (r is Some <==> exists|j: int| 0 <= j < its@.len() && (#[trigger] its@[j]) is Null),
        its@.len() > 1 && r is Some ==> r matches Some(Shape::Null(_)),
{
    if its.len() == 0 {
        return Some(Shape::Null(Null {}));
    }
    if its.len() == 1 {
        return Some(its[0].copy());
    }
    if has_any_null_iterators(its) {
        return Some(Shape::Null(Null {}));
    }
    None
}

/// The estimated cost of listing the results of an intersection that takes
/// `c[i]` as its primary: its `next`, plus the checks in each other
/// sub-iterator, scaled by its size. Considering the first `n` entries.
pub open spec fn root_cost_upto(c: Seq<Costs>, i: int, n: int) -> i64
    decreases n,
{
    if n <= 0 {
        c[i].next_cost
    } else {
        let prev = root_cost_upto(c, i, n - 1);
        if n - 1 == i {
            prev
        } else {
            let ratio = clamp_i64(1 + div_spec(c[i].size.value, clamp_i64(c[n - 1].size.value + 1)));
            clamp_i64(prev + clamp_i64(c[n - 1].contains_cost * ratio))
        }
    }
}

/// The estimated cost of an intersection with `c[i]` as its primary.
pub open spec fn root_cost(c: Seq<Costs>, i: int) -> i64 {
    clamp_i64(root_cost_upto(c, i, c.len() as int) * c[i].size.value)
}

/// The costs are compared against this bound at first.
pub open spec fn initial_best_cost() -> i64 {
    0x4000_0000_0000_0000i64
}

/// The first of the first `n` entries with the least cost below the
/// initial bound, if any.
pub open spec fn best_upto(c: Seq<Costs>, n: int) -> Option<int>
    decreases n,
{
    if n <= 0 {
        None
    } else {
        let prev = best_upto(c, n - 1);
        let bc = match prev {
            None => initial_best_cost(),
            Some(k) => root_cost(c, k),
        };
        if root_cost(c, n - 1) < bc {
            Some(n - 1)
        } else {
            prev
        }
    }
}

proof fn lemma_best_upto_range(c: Seq<Costs>, n: int)
    ensures
        best_upto(c, n) matches Some(k) ==> 0 <= k < n,
    decreases n,
{
    if n > 0 {
        lemma_best_upto_range(c, n - 1);
    }
}

fn root_cost_of(c: &Vec<Costs>, i: usize) -> (r: i64)
    requires
        i < c@.len(),
    ensures
        r == root_cost(c@, i as int),
{
    let root = c[i];
    let mut cost = root.next_cost;
    let mut j: usize = 0;
    while j < c.len()
        invariant
            j <= c@.len(),
            i < c@.len(),
            root == c@[i as int],
            cost == root_cost_upto(c@, i as int, j as int),
        decreases c@.len() - j,
    {
        if j != i {
            let st = c[j];
            let ratio = sat_add(1, sat_div(root.size.value, sat_add(st.size.value, 1)));
            cost = sat_add(cost, sat_mul(st.contains_cost, ratio));
        }
        j = j + 1;
    }
    sat_mul(cost, root.size.value)
}

/// Puts first the shape that is cheapest as the primary of the
/// intersection (by the costs `c`, one per shape); the others keep their
/// order.
pub fn optimize_order_with(its: Vec<Shape>, c: &Vec<Costs>) -> (r: Vec<Shape>)
    requires
        c@.len() == its@.len(),
    ensures
        match best_upto(c@, c@.len() as int) {
            Some(b) => r@ == seq![its@[b]] + its@.remove(b),
            None => r@ == its@,
        },
{
    let mut best: Option<usize> = None;
    let mut best_cost: i64 = 0x4000_0000_0000_0000i64;
    let mut i: usize = 0;
    while i < c.len()
        invariant
            i <= c@.len(),
            best == (match best_upto(c@, i as int) { Some(k) => Some(k as usize), None => None::<usize> }),
            best_cost == (match best_upto(c@, i as int) { Some(k) => root_cost(c@, k), None => initial_best_cost() }),
            best_upto(c@, i as int) matches Some(k) ==> 0 <= k < i,
        decreases c@.len() - i,
    {
        proof {
            lemma_best_upto_range(c@, i as int);
        }
        let cost = root_cost_of(c, i);
        if cost < best_cost {
            best = Some(i);
            best_cost = cost;
        }
        i = i + 1;
    }
    match best {
        Some(b) => {
            let mut its = its;
            let ghost old_its = its@;
            let x = its.remove(b);
            let mut out: Vec<Shape> = Vec::new();
            out.push(x);
            out.append(&mut its);
            proof {
                assert(out@ =~= seq![old_its[b as int]] + old_its.remove(b as int));
            }
            out
        },
        None => its,
    }
}

/// The costs of every shape (all zero when a shape's estimate fails).
fn costs_of_all<Q: QuadStore>(its: &Vec<Shape>, qs: &Q) -> (r: Vec<Costs>)
    ensures
        r@.len() == its@.len(),
        forall|i: int| 0 <= i < its@.len() ==> (crate::graph::iterator::known_costs(#[trigger] its@[i]) matches Some(x) ==> r@[i] == x),
{
    let mut r: Vec<Costs> = Vec::new();
    let mut i: usize = 0;
    while i < its.len()
        invariant
            i <= its@.len(),
            r@.len() == i,
            forall|j: int| 0 <= j < i ==> (crate::graph::iterator::known_costs(#[trigger] its@[j]) matches Some(x) ==> r@[j] == x),
        decreases its@.len() - i,
    {
        match its[i].stats(qs) {
            Ok(c) => r.push(c),
            Err(_) => r.push(Costs::new()),
        }
        i = i + 1;
    }
    r
}

/// Puts first the sub-iterator that is cheapest as the primary.
pub fn optimize_order<Q: QuadStore>(its: Vec<Shape>, qs: &Q) -> (r: Vec<Shape>)
    ensures
        r@.len() == its@.len(),
        r@.to_multiset() == its@.to_multiset(),
        its@.len() > 0 ==> exists|b: int| 0 <= b < its@.len() && r@ == seq![its@[b]] + its@.remove(b),
        crate::graph::iterator::all_known(its@) ==> match best_upto(crate::graph::iterator::and::known_seq(its@), its@.len() as int) {
            Some(b) => r@ == seq![its@[b]] + its@.remove(b),
            None => r@ == its@,
        },
{
    let c = costs_of_all(&its, qs);
    let ghost old_its = its@;
    let r = optimize_order_with(its, &c);
    proof {
        if crate::graph::iterator::all_known(old_its) {
            assert(c@ =~= crate::graph::iterator::and::known_seq(old_its));
        }
        match best_upto(c@, c@.len() as int) {
            Some(b) => {
                lemma_best_upto_range(c@, c@.len() as int);
                vstd::seq_lib::to_multiset_remove(old_its, b);
                assert(r@ =~= seq![old_its[b]] + old_its.remove(b));
                vstd::seq_lib::lemma_multiset_commutative(seq![old_its[b]], old_its.remove(b));
                assert(seq![old_its[b]].to_multiset() =~= vstd::multiset::Multiset::singleton(old_its[b]));
            },
            None => {
                if old_its.len() > 0 {
                    assert(r@ =~= seq![old_its[0]] + old_its.remove(0));
                }
            },
        }
    }
    r
}

/// How many levels a shape has, not counting below a `Materialize` (which
/// counts as one level).
pub open spec fn unmaterialized_height(s: Shape) -> nat
    decreases s, 0nat,
{
    match s {
        Shape::Materialize(_) => 1,
        Shape::And(a) => 1 + max_nat(seq_unmaterialized_height(a.sub@, 0), match a.opt {
            Some(v) => seq_unmaterialized_height(v@, 0),
            None => 0,
        }),
        Shape::Or(o) => 1 + seq_unmaterialized_height(o.sub@, 0),
        Shape::Save(sv) => 1 + unmaterialized_height(*sv.it),
        Shape::Limit(lm) => 1 + unmaterialized_height(*lm.it),
        Shape::Skip(k) => 1 + unmaterialized_height(*k.it),
        Shape::Not(n) => 1 + max_nat(unmaterialized_height(*n.primary), unmaterialized_height(*n.all_it)),
        Shape::Unique(u) => 1 + unmaterialized_height(*u.it),
        Shape::Count(c) => 1 + unmaterialized_height(*c.it),
        Shape::Sort(st) => 1 + unmaterialized_height(*st.it),
        Shape::ValueFilter(vf) => 1 + unmaterialized_height(*vf.sub),
        Shape::HasA(h) => 1 + unmaterialized_height(*h.primary),
        Shape::LinksTo(lt) => 1 + unmaterialized_height(*lt.primary),
        _ => 1,
    }
}

pub open spec fn seq_unmaterialized_height(s: Seq<Shape>, i: int) -> nat
    decreases s, s.len() - i,
{
    if 0 <= i < s.len() {
        max_nat(unmaterialized_height(s[i]), seq_unmaterialized_height(s, i + 1))
    } else {
        0
    }
}

/// Whether a shape is more than ten levels deep, not counting below a
/// `Materialize`.
pub fn deeper_than_ten(s: &Shape) -> (r: bool)
    ensures
        r == (unmaterialized_height(*s) > 10),
{
    capped_height(s) > 10
}

/// `unmaterialized_height`, capped at the largest `u64`.
fn capped_height(s: &Shape) -> (r: u64)
    ensures
        r == (if unmaterialized_height(*s) > u64::MAX { u64::MAX as nat } else { unmaterialized_height(*s) }),
    decreases s, 0nat,
{
    let h: u64 = match s {
        Shape::Materialize(_) => {
            return 1;
        },
        Shape::And(a) => {
            let x = capped_seq_height(&a.sub);
            let y = match &a.opt {
                Some(v) => capped_seq_height(v),
                None => 0,
            };
            if x > y { x } else { y }
        },
        Shape::Or(o) => capped_seq_height(&o.sub),
        Shape::Save(sv) => capped_height(&sv.it),
        Shape::Limit(lm) => capped_height(&lm.it),
        Shape::Skip(k) => capped_height(&k.it),
        Shape::Not(n) => {
            let x = capped_height(&n.primary);
            let y = capped_height(&n.all_it);
            if x > y { x } else { y }
        },
        Shape::Unique(u) => capped_height(&u.it),
        Shape::Count(c) => capped_height(&c.it),
        Shape::Sort(st) => capped_height(&st.it),
        Shape::ValueFilter(vf) => capped_height(&vf.sub),
        Shape::HasA(h) => capped_height(&h.primary),
        Shape::LinksTo(lt) => capped_height(&lt.primary),
        _ => {
            return 1;
        },
    };
    if h == u64::MAX { h } else { h + 1 }
}

fn capped_seq_height(s: &Vec<Shape>) -> (r: u64)
    ensures
        r == (if seq_unmaterialized_height(s@, 0) > u64::MAX { u64::MAX as nat } else { seq_unmaterialized_height(s@, 0) }),
    decreases s, 0nat,
{
    let mut i: usize = s.len();
    let mut m: u64 = 0;
    while i > 0
        invariant
            i <= s@.len(),
            m == (if seq_unmaterialized_height(s@, i as int) > u64::MAX { u64::MAX as nat } else { seq_unmaterialized_height(s@, i as int) }),
        decreases i,
    {
        let h = capped_height(&s[i - 1]);
        if h > m {
            m = h;
        }
        i = i - 1;
    }
    m
}

/// Whether `b` is `a`, or `a` wrapped in a `Materialize` (with no expected
/// size) because it is more than ten levels deep.
pub open spec fn kept_or_materialized(a: Shape, b: Shape) -> bool {
    ||| b == a
    ||| (b matches Shape::Materialize(m) && *m.sub == a && m.expected_size == 0 && unmaterialized_height(a) > 10)
}

/// Wraps in a `Materialize` every sub-iterator after the first that is
/// cheaper to list once than to check, and more than ten levels deep (not
/// counting below a `Materialize`). When the costs cannot be had, the
/// sub-iterators stay as they are.
pub fn materialize_its<Q: QuadStore>(its: Vec<Shape>, qs: &Q) -> (r: Vec<Shape>)
    ensures
        r@.len() == its@.len(),
        its@.len() > 0 ==> r@[0] == its@[0],
        forall|i: int| 0 <= i < r@.len() ==> kept_or_materialized(its@[i], #[trigger] r@[i]),
{
    let (all, stats) = match get_stats_for_slice(&its, qs) {
        Ok(p) => p,
        Err(_) => {
            return its;
        },
    };
    if its.len() == 0 {
        return its;
    }
    let mut its = its;
    let ghost orig = its@;
    let ghost n = its@.len();
    let mut out: Vec<Shape> = Vec::new();
    let first = its.remove(0);
    out.push(first);
    let mut i: usize = 1;
    while its.len() > 0
        invariant
            out@.len() + its@.len() == n,
            out@.len() == i,
            stats@.len() == n,
            n == orig.len(),
            n > 0,
            1 <= i,
            its@ == orig.subrange(n - its@.len(), n as int),
            out@[0] == orig[0],
            forall|j: int| 0 <= j < out@.len() ==> kept_or_materialized(orig[j], #[trigger] out@[j]),
        decreases its@.len(),
    {
        let it = its.remove(0);
        proof {
            assert(orig[i as int] == it);
            assert(its@ =~= orig.subrange(n - its@.len(), n as int));
        }
        let st = stats[i];
        let lhs = sat_mul(st.size.value, st.next_cost);
        let rhs = sat_mul(st.contains_cost, sat_add(1, sat_div(st.size.value, sat_add(all.size.value, 1))));
        if lhs < rhs && deeper_than_ten(&it) {
            out.push(Shape::Materialize(Materialize::new(it)));
        } else {
            out.push(it);
        }
        i = out.len();
    }
    out
}

/// Orders shapes by the cost of a check, cheapest first; shapes that cost
/// the same keep their order.
pub fn sort_by_contains_cost<Q: QuadStore>(its: Vec<Shape>, qs: &Q) -> (r: Vec<Shape>)
    ensures
        r@.len() == its@.len(),
        forall|i: int| 0 <= i < r@.len() ==> its@.contains(#[trigger] r@[i]),
        crate::graph::iterator::all_known(its@) ==> forall|a: int, b: int| 0 <= a < b < r@.len()
            ==> (#[trigger] crate::graph::iterator::known_costs(r@[a]))->0.contains_cost
                <= (#[trigger] crate::graph::iterator::known_costs(r@[b]))->0.contains_cost,
{
    let mut its = its;
    let ghost orig = its@;
    let ghost n = its@.len();
    let mut keys: Vec<i64> = Vec::new();
    let mut out: Vec<Shape> = Vec::new();
    while its.len() > 0
        invariant
            keys@.len() == out@.len(),
            out@.len() + its@.len() == n,
            n == orig.len(),
            its@ == orig.subrange(n - its@.len(), n as int),
            forall|i: int| 0 <= i < out@.len() ==> orig.contains(#[trigger] out@[i]),
            forall|i: int| 0 <= i < out@.len() ==> (crate::graph::iterator::known_costs(#[trigger] out@[i]) matches Some(c)
                ==> keys@[i] == c.contains_cost),
            forall|a: int, b: int| 0 <= a < b < keys@.len() ==> keys@[a] <= keys@[b],
        decreases its@.len(),
    {
        let x = its.remove(0);
        proof {
            assert(orig[n - (its@.len() + 1)] == x);
        }
        let key: i64 = match x.stats(qs) {
            Ok(c) => c.contains_cost,
            Err(_) => 0x4000_0000_0000_0000i64,
        };
        let mut p: usize = keys.len();
        while p > 0 && keys[p - 1] > key
            invariant
                p <= keys@.len(),
                forall|a: int| p <= a < keys@.len() ==> key < #[trigger] keys@[a],
            decreases p,
        {
            p = p - 1;
        }
        keys.insert(p, key);
        out.insert(p, x);
        proof {
            assert(its@ =~= orig.subrange(n - its@.len(), n as int));
        }
    }
    proof {
        if crate::graph::iterator::all_known(orig) {
            assert forall|i: int| 0 <= i < out@.len() implies (#[trigger] crate::graph::iterator::known_costs(out@[i])) is Some by {
                let j = choose|j: int| 0 <= j < orig.len() && orig[j] == out@[i];
            }
        }
    }
    out
}

/// Makes the check list of an intersection: its sub-iterators, cheapest
/// check first.
pub fn optimize_contains<Q: QuadStore>(a: &mut And, qs: &Q)
    ensures
        final(a).sub == old(a).sub,
        final(a).opt == old(a).opt,
        final(a).check_list matches Some(c) && c@.len() == old(a).sub@.len(),
{
    let c = copy_shapes(&a.sub);
    a.check_list = Some(sort_by_contains_cost(c, qs));
}

/// An intersection of nothing, or with an empty sub-iterator, is empty; of
/// one sub-iterator (and no optional one), is that one. Otherwise its
/// sub-iterators are optimized, the cheapest primary put first, deep cheap
/// ones materialized, and a check list made.
/// Whether `o` is what optimizing each shape of `s` in place gave: an
/// empty shape stays empty, a fixed list stays a fixed list of the same
/// references, and a shape that can only be empty becomes the empty shape.
pub open spec fn optimized_each(s: Seq<Shape>, o: Seq<Shape>) -> bool {
    &&& o.len() == s.len()
    &&& forall|j: int| 0 <= j < s.len() ==> (#[trigger] s[j] is Null ==> o[j] is Null)
        && crate::graph::iterator::same_fixed(s[j], o[j])
        && (optimizes_to_null(s[j]) ==> o[j] is Null)
}

/// Whether `t` are the sub-iterators of an intersection rebuilt from the
/// sub-iterators `s`: each of `s` optimized in place, one of them moved to
/// the front as the primary, and every one kept, or wrapped to be
/// materialized.
pub open spec fn and_rebuilt(s: Seq<Shape>, t: Seq<Shape>) -> bool {
    exists|o: Seq<Shape>, b: int| #![trigger optimized_each(s, o), o[b]]
        optimized_each(s, o) && 0 <= b < o.len() && t.len() == o.len()
        && forall|i: int| 0 <= i < t.len() ==> kept_or_materialized((seq![o[b]] + o.remove(b))[i], #[trigger] t[i])
}

/// The shapes `s` with the one at `b` moved to the front.
pub open spec fn front_moved(s: Seq<Shape>, b: int) -> Seq<Shape> {
    seq![s[b]] + s.remove(b)
}

/// An intersection rebuilt by the optimizer keeps all its sub-iterators:
/// as many as before, and each fixed list among them, with its references,
/// still there; for an intersection of fixed lists, the same lists with one
/// moved to the front.
pub proof fn lemma_rebuilt_and_keeps_subs(s: Seq<Shape>, t: Seq<Shape>)
    requires
        and_rebuilt(s, t),
    ensures
        t.len() == s.len(),
        forall|j: int| 0 <= j < s.len() && s[j] is Fixed ==> exists|i: int| 0 <= i < t.len()
            && crate::graph::iterator::same_fixed(#[trigger] s[j], t[i]),
        (forall|j: int| 0 <= j < s.len() ==> #[trigger] s[j] is Fixed)
            ==> exists|b: int| #![trigger front_moved(s, b)] 0 <= b < s.len() && forall|i: int| 0 <= i < t.len()
                ==> crate::graph::iterator::same_fixed(#[trigger] front_moved(s, b)[i], t[i]),
{
    let (o, b) = choose|o: Seq<Shape>, b: int| #![trigger optimized_each(s, o), o[b]]
        optimized_each(s, o) && 0 <= b < o.len() && t.len() == o.len()
        && forall|i: int| 0 <= i < t.len() ==> kept_or_materialized((seq![o[b]] + o.remove(b))[i], #[trigger] t[i]);
    let p = seq![o[b]] + o.remove(b);
    let q = front_moved(s, b);
    assert forall|i: int| 0 <= i < t.len() implies crate::graph::iterator::same_fixed(q[i], t[i]) by {
        let j = if i == 0 { b } else if i <= b { i - 1 } else { i };
        assert(p[i] == o[j]);
        assert(q[i] == s[j]);
        assert(crate::graph::iterator::same_fixed(s[j], o[j]));
        assert(kept_or_materialized(p[i], t[i]));
        if s[j] is Fixed {
            assert(unmaterialized_height(o[j]) == 1);
        }
    }
    assert forall|j: int| 0 <= j < s.len() && s[j] is Fixed implies exists|i: int| 0 <= i < t.len()
        && crate::graph::iterator::same_fixed(#[trigger] s[j], t[i]) by {
        let i = if j == b { 0 } else if j < b { j + 1 } else { j };
        assert(q[i] == s[j]);
        assert(crate::graph::iterator::same_fixed(q[i], t[i]));
    }
}

/// Copies of shapes, optimized in place, are the shapes optimized in place.
proof fn lemma_copies_optimized(s: Seq<Shape>, c: Seq<Shape>, o: Seq<Shape>)
    requires
        c.len() == s.len(),
        o.len() == c.len(),
        forall|j: int| 0 <= j < c.len() ==> (#[trigger] c[j]).kind() == s[j].kind(),
        forall|j: int| 0 <= j < c.len() ==> crate::graph::iterator::same_fixed(s[j], #[trigger] c[j]),
        forall|j: int| 0 <= j < c.len() && optimizes_to_null(s[j]) ==> optimizes_to_null(#[trigger] c[j]),
        forall|j: int| 0 <= j < c.len() && optimizes_to_null(#[trigger] c[j]) ==> o[j] is Null,
        forall|j: int| 0 <= j < c.len() && (c[j] is Null || c[j] is Error || c[j] is Fixed) ==> #[trigger] o[j] == c[j],
    ensures
        optimized_each(s, o),
{
    assert forall|j: int| 0 <= j < s.len() implies (#[trigger] s[j] is Null ==> o[j] is Null)
        && crate::graph::iterator::same_fixed(s[j], o[j])
        && (optimizes_to_null(s[j]) ==> o[j] is Null) by {
        assert(c[j].kind() == s[j].kind());
        assert(crate::graph::iterator::same_fixed(s[j], c[j]));
        if c[j] is Fixed || c[j] is Null {
            assert(o[j] == c[j]);
        }
        if optimizes_to_null(s[j]) {
            assert(optimizes_to_null(c[j]));
        }
    }
}

/// Orders the sub-iterators of an intersection (the primary first) and
/// materializes those worth it.
fn rebuild_subs<Q: QuadStore>(its: Vec<Shape>, qs: &Q, Ghost(s): Ghost<Seq<Shape>>) -> (r: Vec<Shape>)
    requires
        optimized_each(s, its@),
        its@.len() > 0,
    ensures
        and_rebuilt(s, r@),
        r@.len() == its@.len(),
{
    let ghost o = its@;
    let its = optimize_order(its, qs);
    let ghost ord = its@;
    let its = materialize_its(its, qs);
    proof {
        let b = choose|b: int| 0 <= b < o.len() && ord == seq![o[b]] + o.remove(b);
        assert forall|i: int| 0 <= i < its@.len() implies kept_or_materialized((seq![o[b]] + o.remove(b))[i], #[trigger] its@[i]) by {
            assert(kept_or_materialized(ord[i], its@[i]));
        }
        assert(o[b] == o[b]);
    }
    its
}

pub fn optimize_and<Q: QuadStore>(a: &And, qs: &Q) -> (r: Option<Shape>)
    ensures
        a.sub@.len() > 1 ==> (r matches Some(Shape::And(n)) ==> and_rebuilt(a.sub@, n.sub@)
            && (n.check_list matches Some(c) && c@.len() == n.sub@.len())),
        a.sub@.len() == 0 ==> r matches Some(Shape::Null(_)),
        a.sub@.len() > 0 ==> r is Some,
        a.sub@.len() > 1 && (a.opt matches Some(o) ==> o@.len() == 0)
            && (exists|j: int| 0 <= j < a.sub@.len() && (#[trigger] a.sub@[j] is Null || optimizes_to_null(a.sub@[j])))
            ==> r matches Some(Shape::Null(_)),
    decreases a.height(), 1nat,
{
    if a.sub.len() == 0 {
        return Some(Shape::Null(Null {}));
    }
    let ghost h = a.height();
    let c = copy_shapes(&a.sub);
    proof {
        assert forall|j: int| 0 <= j < c@.len() implies (#[trigger] c@[j]).height() < h by {
            lemma_shape_seq_height(a.sub@, 0, j);
        }
    }
    let its = optimize_sub_iterators(c, Ghost(h), qs);
    proof {
        if exists|j: int| 0 <= j < a.sub@.len() && (#[trigger] a.sub@[j] is Null || optimizes_to_null(a.sub@[j])) {
            let j = choose|j: int| 0 <= j < a.sub@.len() && (#[trigger] a.sub@[j] is Null || optimizes_to_null(a.sub@[j]));
            if a.sub@[j] is Null {
                assert(c@[j].kind() == a.sub@[j].kind());
                assert(c@[j] is Null);
            }
            assert(its@[j] is Null);
        }
    }
    let out = optimize_replacement(&its);
    let opt_empty = match &a.opt {
        Some(o) => o.len() == 0,
        None => true,
    };
    if out.is_some() && opt_empty {
        return out;
    }
    proof {
        lemma_copies_optimized(a.sub@, c@, its@);
    }
    let its = rebuild_subs(its, qs, Ghost(a.sub@));
    let mut new_and = And::new(its);
    let ghost subs = new_and.sub@;
    match &a.opt {
        Some(o) => {
            let oc = copy_shapes(o);
            proof {
                assert forall|j: int| 0 <= j < oc@.len() implies (#[trigger] oc@[j]).height() < h by {
                    lemma_shape_seq_height(o@, 0, j);
                }
            }
            let mut opt = optimize_sub_iterators(oc, Ghost(h), qs);
            while opt.len() > 0
                invariant
                    new_and.sub@ == subs,
                decreases opt@.len(),
            {
                let x = opt.remove(0);
                new_and.add_optional_iterator(x);
            }
        },
        None => {},
    }
    optimize_contains(&mut new_and, qs);
    Some(Shape::And(new_and))
}

/// A union of the optimized sub-iterators.
pub fn optimize_or<Q: QuadStore>(o: &Or, qs: &Q) -> (r: Option<Shape>)
    ensures
        r matches Some(Shape::Or(n)) && n.is_short_circuiting == o.is_short_circuiting && n.sub@.len() == o.sub@.len()
            && optimized_each(o.sub@, n.sub@),
    decreases o.height(), 1nat,
{
    let ghost h = o.height();
    let c = copy_shapes(&o.sub);
    proof {
        assert forall|j: int| 0 <= j < c@.len() implies (#[trigger] c@[j]).height() < h by {
            lemma_shape_seq_height(o.sub@, 0, j);
        }
    }
    let sub = optimize_sub_iterators(c, Ghost(h), qs);
    proof {
        lemma_copies_optimized(o.sub@, c@, sub@);
    }
    Some(Shape::Or(Or { is_short_circuiting: o.is_short_circuiting, sub }))
}

/// Without tags, the optimized sub-iterator (if any) replaces this one;
/// with tags, it gets them: a `Save` takes them on, anything else is
/// wrapped in a new `Save` with them.
pub fn optimize_save<Q: QuadStore>(sv: &mut Save, qs: &Q) -> (r: Option<Shape>)
    ensures
        final(sv).tags == old(sv).tags,
        optimizes_to_null(*old(sv).it) && old(sv).tags.tags@.len() == 0
            && old(sv).tags.fixed_tags@ == Map::<Seq<char>, crate::graph::refs::RefV>::empty() ==> r matches Some(Shape::Null(_)),
        optimizes_to_null(*old(sv).it) && !(old(sv).tags.tags@.len() == 0 && old(sv).tags.fixed_tags@ == Map::<Seq<char>, crate::graph::refs::RefV>::empty())
            ==> (r matches Some(Shape::Save(x)) && *x.it is Null),
        r is None ==> optimized_in_place(*old(sv).it, *final(sv).it),
        old(sv).tags.tags@.len() == 0 && old(sv).tags.fixed_tags@ == Map::<Seq<char>, crate::graph::refs::RefV>::empty()
            ==> (r matches Some(y) ==> optimized_in_place(*old(sv).it, y)),
    decreases old(sv).height(), 1nat,
{
    let res = sv.it.optimize(qs);
    if sv.tags.tags.len() == 0 && sv.tags.fixed_tags.is_empty() {
        return res;
    }
    match res {
        Some(sub) => {
            match sub {
                Shape::Save(mut inner) => {
                    inner.tags.copy_from(&sv.tags);
                    Some(Shape::Save(inner))
                },
                other => {
                    let mut s = Save::new(other, Vec::new());
                    s.tags.copy_from(&sv.tags);
                    Some(Shape::Save(s))
                },
            }
        },
        None => None,
    }
}

/// Without a limit, the optimized sub-iterator replaces this one;
/// otherwise it takes the place of the sub-iterator.
pub fn optimize_limit<Q: QuadStore>(l: &mut Limit, qs: &Q) -> (r: Option<Shape>)
    ensures
        final(l).limit == old(l).limit,
        old(l).limit > 0 ==> r is None,
        optimizes_to_null(*old(l).it) ==> (old(l).limit > 0 ==> *final(l).it is Null)
            && (old(l).limit <= 0 ==> r matches Some(Shape::Null(_))),
        old(l).limit > 0 ==> optimized_in_place(*old(l).it, *final(l).it),
        old(l).limit <= 0 ==> (r matches Some(y) ==> optimized_in_place(*old(l).it, y))
            && (r is None ==> optimized_in_place(*old(l).it, *final(l).it)),
    decreases old(l).height(), 1nat,
{
    let nit = l.it.optimize(qs);
    if l.limit <= 0 {
        return nit;
    }
    match nit {
        Some(n) => {
            l.it = Box::new(n);
        },
        None => {},
    }
    None
}

/// Skipping nothing, the optimized sub-iterator replaces this one;
/// otherwise it takes the place of the sub-iterator.
pub fn optimize_skip<Q: QuadStore>(k: &mut Skip, qs: &Q) -> (r: Option<Shape>)
    ensures
        final(k).skip == old(k).skip,
        old(k).skip != 0 ==> r is None,
        optimizes_to_null(*old(k).it) ==> (old(k).skip != 0 ==> *final(k).it is Null)
            && (old(k).skip == 0 ==> r matches Some(Shape::Null(_))),
        old(k).skip != 0 ==> optimized_in_place(*old(k).it, *final(k).it),
        old(k).skip == 0 ==> (r matches Some(y) ==> optimized_in_place(*old(k).it, y))
            && (r is None ==> optimized_in_place(*old(k).it, *final(k).it)),
    decreases old(k).height(), 1nat,
{
    let nit = k.it.optimize(qs);
    if k.skip == 0 {
        return nit;
    }
    match nit {
        Some(n) => {
            k.it = Box::new(n);
        },
        None => {},
    }
    None
}

/// The primary is optimized, then materialized.
pub fn optimize_not<Q: QuadStore>(n: &mut Not, qs: &Q) -> (r: Option<Shape>)
    ensures
        r is None,
        (*final(n).primary) is Materialize,
        (*final(n).primary) matches Shape::Materialize(m) && optimized_in_place(*old(n).primary, *m.sub),
    decreases old(n).height(), 1nat,
{
    match n.primary.optimize(qs) {
        Some(p) => {
            n.primary = Box::new(p);
        },
        None => {},
    }
    let mut p = Shape::Null(Null {});
    std::mem::swap(&mut p, &mut *n.primary);
    n.primary = Box::new(Shape::Materialize(Materialize::new(p)));
    None
}

/// The optimized sub-iterator takes the place of the sub-iterator.
pub fn optimize_unique<Q: QuadStore>(u: &mut Unique, qs: &Q) -> (r: Option<Shape>)
    ensures
        r is None,
        optimizes_to_null(*old(u).it) ==> *final(u).it is Null,
        optimized_in_place(*old(u).it, *final(u).it),
    decreases old(u).height(), 1nat,
{
    match u.it.optimize(qs) {
        Some(x) => {
            u.it = Box::new(x);
        },
        None => {},
    }
    None
}

pub fn optimize_count<Q: QuadStore>(c: &mut Count, qs: &Q) -> (r: Option<Shape>)
    ensures
        r is None,
        final(c).use_namer == old(c).use_namer,
        optimizes_to_null(*old(c).it) ==> *final(c).it is Null,
        optimized_in_place(*old(c).it, *final(c).it),
    decreases old(c).height(), 1nat,
{
    match c.it.optimize(qs) {
        Some(x) => {
            c.it = Box::new(x);
        },
        None => {},
    }
    None
}

pub fn optimize_sort<Q: QuadStore>(st: &mut Sort, qs: &Q) -> (r: Option<Shape>)
    ensures
        r is None,
        optimizes_to_null(*old(st).it) ==> *final(st).it is Null,
        optimized_in_place(*old(st).it, *final(st).it),
    decreases old(st).height(), 1nat,
{
    match st.it.optimize(qs) {
        Some(x) => {
            st.it = Box::new(x);
        },
        None => {},
    }
    None
}

pub fn optimize_value_filter<Q: QuadStore>(vf: &mut ValueFilter, qs: &Q) -> (r: Option<Shape>)
    ensures
        r is None,
        optimizes_to_null(*old(vf).sub) ==> *final(vf).sub is Null,
        optimized_in_place(*old(vf).sub, *final(vf).sub),
    decreases old(vf).height(), 1nat,
{
    match vf.sub.optimize(qs) {
        Some(x) => {
            vf.sub = Box::new(x);
        },
        None => {},
    }
    None
}

/// The optimized sub-iterator takes the place of the sub-iterator; when it
/// is the empty iterator, it replaces this one.
pub fn optimize_materialize<Q: QuadStore>(m: &mut Materialize, qs: &Q) -> (r: Option<Shape>)
    ensures
        r matches Some(s) ==> s is Null,
        optimizes_to_null(*old(m).sub) ==> r matches Some(Shape::Null(_)),
        optimized_in_place(*old(m).sub, *final(m).sub),
    decreases old(m).height(), 1nat,
{
    match m.sub.optimize(qs) {
        Some(x) => {
            m.sub = Box::new(x);
            if m.sub.is_null() {
                return Some(Shape::Null(Null {}));
            }
        },
        None => {},
    }
    None
}

pub fn optimize_has_a<Q: QuadStore>(h: &mut HasA, qs: &Q) -> (r: Option<Shape>)
    ensures
        r matches Some(s) ==> s is Null,
        final(h).dir == old(h).dir,
        optimizes_to_null(*old(h).primary) ==> r matches Some(Shape::Null(_)),
        optimized_in_place(*old(h).primary, *final(h).primary),
    decreases old(h).height(), 1nat,
{
    match h.primary.optimize(qs) {
        Some(x) => {
            h.primary = Box::new(x);
            if h.primary.is_null() {
                return Some(Shape::Null(Null {}));
            }
        },
        None => {},
    }
    None
}

pub fn optimize_links_to<Q: QuadStore>(lt: &mut LinksTo, qs: &Q) -> (r: Option<Shape>)
    ensures
        r matches Some(s) ==> s is Null,
        final(lt).dir == old(lt).dir,
        optimizes_to_null(*old(lt).primary) ==> r matches Some(Shape::Null(_)),
        optimized_in_place(*old(lt).primary, *final(lt).primary),
    decreases old(lt).height(), 1nat,
{
    match lt.primary.optimize(qs) {
        Some(x) => {
            lt.primary = Box::new(x);
            if lt.primary.is_null() {
                return Some(Shape::Null(Null {}));
            }
        },
        None => {},
    }
    None
}

impl Shape {
    /// Optimizes the shape: returns a cheaper equivalent shape that should
    /// replace it, or `None` when it stays (its parts may be optimized in
    /// place).
    pub fn optimize<Q: QuadStore>(&mut self, qs: &Q) -> (r: Option<Shape>)
        ensures
            *old(self) is Null || *old(self) is Error || *old(self) is Fixed ==> r is None && *final(self) == *old(self),
            *old(self) matches Shape::Resolver(rv) ==> (r is Some <==> rv.order@.len() == 0),
            *old(self) matches Shape::And(a) ==> (a.sub@.len() == 0 ==> r matches Some(Shape::Null(_))),
            optimizes_to_null(*old(self)) ==> r matches Some(Shape::Null(_)),
            *old(self) is And ==> r is Some,
            *old(self) matches Shape::And(a) ==> (a.sub@.len() > 1 ==> (r matches Some(Shape::And(n))
                ==> and_rebuilt(a.sub@, n.sub@))),
            *old(self) matches Shape::Or(o) ==> (r matches Some(Shape::Or(n)) && n.sub@.len() == o.sub@.len()
                && optimized_each(o.sub@, n.sub@)),
            r matches Some(y) ==> optimized_in_place(*old(self), y),
            r is None ==> optimized_in_place(*old(self), *final(self)),
        decreases old(self).height(), 2nat,
    {
        match self {
            Shape::Null(_) => None,
            Shape::Error(_) => None,
            Shape::Fixed(_) => None,
            Shape::MemStore(_) => None,
            Shape::MemStoreAll(_) => None,
            Shape::And(a) => optimize_and(a, qs),
            Shape::Or(o) => optimize_or(o, qs),
            Shape::Save(sv) => optimize_save(sv, qs),
            Shape::Limit(l) => optimize_limit(l, qs),
            Shape::Skip(k) => optimize_skip(k, qs),
            Shape::Not(n) => optimize_not(n, qs),
            Shape::Unique(u) => optimize_unique(u, qs),
            Shape::Count(c) => optimize_count(c, qs),
            Shape::Materialize(m) => optimize_materialize(m, qs),
            Shape::Sort(st) => optimize_sort(st, qs),
            Shape::ValueFilter(vf) => optimize_value_filter(vf, qs),
            Shape::HasA(h) => optimize_has_a(h, qs),
            Shape::LinksTo(lt) => optimize_links_to(lt, qs),
            Shape::Resolver(rv) => {
                if rv.order.len() == 0 {
                    Some(Shape::Null(Null {}))
                } else {
                    None
                }
            },
        }
    }
}

} // verus!
