//! Runs a shape: lists its results, each followed by the other paths that
//! lead to it, up to a limit.
use vstd::prelude::*;
use crate::graph::refs::Ref;
use crate::graph::quad::QuadStore;
use crate::graph::iterator::{Shape, Scanner, scans_as};
use crate::graph::iterator::tags::TagMap;
use crate::graph::iterator::fixed::refs_view;
use crate::graph::refs::RefV;

verus! {

/// Whether `n` results reach a positive limit.
fn limit_reached(n: usize, limit: i64) -> (r: bool)
    ensures
        r == (limit > 0 && n >= limit),
{
    limit > 0 && (n as u64) >= (limit as u64)
}

/// How many of `n` results a run lists under `limit`.
pub open spec fn limited(n: nat, limit: i64) -> nat {
    if limit > 0 && limit < n { limit as nat } else { n }
}

/// Whether the scanner `sc` is where a run of `shape` stands after listing
/// `out`: a fixed list has listed its values up to its position; an empty
/// or failed shape lists nothing and stays put.
pub open spec fn run_at(shape: Shape, sc: Scanner, out: Seq<RefV>) -> bool {
    &&& (shape is Null ==> sc is Null && out.len() == 0)
    &&& (shape is Error ==> sc is Error && out.len() == 0)
    &&& (shape matches Shape::Fixed(f) ==> sc matches Scanner::Fixed(n)
        && refs_view(n.values@) == refs_view(f.values@)
        && n.ind <= n.values@.len()
        && out == refs_view(n.values@).take(n.ind as int))
}

/// Whether the scanner `sc` is where a run of `shape` stands after listing
/// the tag maps `out`: a fixed list has listed one empty map per value up
/// to its position; an empty or failed shape lists nothing and stays put.
pub open spec fn tags_run_at(shape: Shape, sc: Scanner, out: Seq<TagMap>) -> bool {
    &&& (shape is Null ==> sc is Null && out.len() == 0)
    &&& (shape is Error ==> sc is Error && out.len() == 0)
    &&& (shape matches Shape::Fixed(f) ==> sc matches Scanner::Fixed(n)
        && n.values@.len() == f.values@.len()
        && n.ind <= n.values@.len()
        && out.len() == n.ind
        && forall|i: int| 0 <= i < out.len() ==> (#[trigger] out[i])@ == Map::<Seq<char>, RefV>::empty())
}

/// The result a scanner stands at, as a list of at most one reference.
pub open spec fn listed_at(sc: Scanner) -> Seq<RefV> {
    match sc.spec_result() {
        Some(x) => seq![x],
        None => Seq::empty(),
    }
}

/// Whether `k` successful steps of `next_path` lead from `a` to `b`,
/// listing `out`: the result each of them stands at.
pub open spec fn paths_listed(a: Scanner, b: Scanner, k: nat, out: Seq<RefV>, qb: nat) -> bool
    decreases k,
{
    if k == 0 {
        a == b && out.len() == 0
    } else {
        exists|m: Scanner| #[trigger] m.path_step(b, true, qb)
            && out.len() >= listed_at(b).len()
            && out.skip(out.len() - listed_at(b).len()) == listed_at(b)
            && paths_listed(a, m, (k - 1) as nat, out.take(out.len() - listed_at(b).len()), qb)
    }
}

/// Whether a walk from `a` listed `out` in `n` rounds and reached `b`: each
/// round moves to a result with `next`, then through its further paths
/// until `next_path` answers false, listing the result of each step.
pub open spec fn listed_walk(a: Scanner, b: Scanner, out: Seq<RefV>, n: nat, qb: nat) -> bool
    decreases n,
{
    if n == 0 {
        a == b && out.len() == 0
    } else {
        exists|m: Scanner, x: Scanner| #[trigger] m.next_step(x, true, qb)
            && exists|y: Scanner, k: nat, j: int| #[trigger] paths_listed(x, y, k, out.skip(j), qb)
                && y.path_step(b, false, qb)
                && listed_at(x).len() <= j <= out.len()
                && out.subrange(j - listed_at(x).len(), j) == listed_at(x)
                && listed_walk(a, m, out.take(j - listed_at(x).len()), (n - 1) as nat, qb)
    }
}

/// Whether a round of a walk that started at `m`, with `pre` listed
/// before it, stands at `b` having listed `out`: it moved to the result
/// of `x` with `next`, then through `k` further paths.
pub open spec fn round_at(m: Scanner, x: Scanner, b: Scanner, k: nat, out: Seq<RefV>, p: int, qb: nat) -> bool {
    &&& m.next_step(x, true, qb)
    &&& 0 <= p && p + listed_at(x).len() <= out.len()
    &&& out.subrange(p, p + listed_at(x).len()) == listed_at(x)
    &&& paths_listed(x, b, k, out.skip(p + listed_at(x).len()), qb)
}

/// Whether `out` is what a run of `shape` lists under `limit`: a walk of a
/// fresh scanner over it, until the scanner runs out or, when `limit` is
/// positive, until `limit` results are listed (possibly among the paths of
/// a result).
pub open spec fn run_lists(shape: Shape, out: Seq<RefV>, limit: i64, qb: nat) -> bool {
    exists|s0: Scanner, m: Scanner, n: nat, p: int|
        #![trigger scans_as(shape, s0), listed_walk(s0, m, out.take(p), n, qb)]
        scans_as(shape, s0) && 0 <= p <= out.len() && listed_walk(s0, m, out.take(p), n, qb)
        && ((p == out.len() && exists|e: Scanner| #[trigger] m.next_step(e, false, qb))
            || (limit > 0 && out.len() >= limit
                && exists|x: Scanner, y: Scanner, k: nat| #[trigger] round_at(m, x, y, k, out, p, qb)))
}

/// Whether `k` successful steps of `next_path` lead from `a` to `b`,
/// listing `out`: the tags recorded at each of them.
pub open spec fn paths_tagged(a: Scanner, b: Scanner, k: nat, out: Seq<Map<Seq<char>, RefV>>, qb: nat) -> bool
    decreases k,
{
    if k == 0 {
        a == b && out.len() == 0
    } else {
        exists|m: Scanner| #[trigger] m.path_step(b, true, qb)
            && out.len() > 0 && b.tags_step(Map::empty(), out.last())
            && paths_tagged(a, m, (k - 1) as nat, out.drop_last(), qb)
    }
}

/// Whether a walk from `a` listed the tags `out` in `n` rounds and reached
/// `b`: each round moves to a result with `next`, then through its further
/// paths until `next_path` answers false, listing the tags of each step.
pub open spec fn tagged_walk(a: Scanner, b: Scanner, out: Seq<Map<Seq<char>, RefV>>, n: nat, qb: nat) -> bool
    decreases n,
{
    if n == 0 {
        a == b && out.len() == 0
    } else {
        exists|m: Scanner, x: Scanner| #[trigger] m.next_step(x, true, qb)
            && exists|y: Scanner, k: nat, j: int| #[trigger] paths_tagged(x, y, k, out.skip(j), qb)
                && y.path_step(b, false, qb)
                && 1 <= j <= out.len()
                && x.tags_step(Map::empty(), out[j - 1])
                && tagged_walk(a, m, out.take(j - 1), (n - 1) as nat, qb)
    }
}

/// Whether a round of a walk that started at `m`, with `p` maps listed
/// before it, stands at `b` having listed `out`: it moved to `x` with
/// `next`, then through `k` further paths.
pub open spec fn tagged_round_at(m: Scanner, x: Scanner, b: Scanner, k: nat, out: Seq<Map<Seq<char>, RefV>>, p: int, qb: nat) -> bool {
    &&& m.next_step(x, true, qb)
    &&& 0 <= p < out.len()
    &&& x.tags_step(Map::empty(), out[p])
    &&& paths_tagged(x, b, k, out.skip(p + 1), qb)
}

/// Whether `out` is what a run of `shape` lists as tags under `limit`, as
/// `run_lists` describes the run.
pub open spec fn tags_run(shape: Shape, out: Seq<Map<Seq<char>, RefV>>, limit: i64, qb: nat) -> bool {
    exists|s0: Scanner, m: Scanner, n: nat, p: int|
        #![trigger scans_as(shape, s0), tagged_walk(s0, m, out.take(p), n, qb)]
        scans_as(shape, s0) && 0 <= p <= out.len() && tagged_walk(s0, m, out.take(p), n, qb)
        && ((p == out.len() && exists|e: Scanner| #[trigger] m.next_step(e, false, qb))
            || (limit > 0 && out.len() >= limit
                && exists|x: Scanner, y: Scanner, k: nat| #[trigger] tagged_round_at(m, x, y, k, out, p, qb)))
}

/// The views of a list of tag maps.
pub open spec fn maps_view(s: Seq<TagMap>) -> Seq<Map<Seq<char>, RefV>> {
    s.map_values(|t: TagMap| t@)
}

/// The results of a shape: each result, then once more for each other
/// path to it; at most `limit` of them when `limit` is positive. A step
/// without a result is skipped.
pub fn each_results<Q: QuadStore>(qs: &Q, shape: &Shape, limit: i64) -> (r: Vec<Ref>)
    ensures
        limit > 0 ==> r@.len() <= limit,
        *shape is Null || *shape is Error ==> r@.len() == 0,
        *shape matches Shape::Fixed(f) ==> refs_view(r@) == refs_view(f.values@).take(limited(f.values@.len(), limit) as int),
        run_lists(*shape, refs_view(r@), limit, qs.quad_bound()),
{
    let ghost qb = qs.quad_bound();
    let mut sc = shape.iterate(qs);
    let mut out: Vec<Ref> = Vec::new();
    let ghost s0 = sc;
    let ghost mut n: nat = 0;
    let ghost mut mid = false;
    let ghost mut gm = sc;
    let ghost mut gx = sc;
    let ghost mut gk: nat = 0;
    let ghost mut gp: int = 0;
    let ghost mut ge = sc;
    proof {
        assert(refs_view(out@) =~= Seq::<RefV>::empty());
        assert(listed_walk(s0, sc, refs_view(out@), 0, qb));
        if *shape is Fixed {
            let n = sc->Fixed_0;
            assert(refs_view(n.values@).take(0) =~= Seq::<RefV>::empty());
        }
    }
    loop
        invariant_except_break
            !mid ==> listed_walk(s0, sc, refs_view(out@), n, qb),
            !mid ==> !(limit > 0 && out@.len() >= limit),
        invariant
            qb == qs.quad_bound(),
            scans_as(*shape, s0),
            sc.wf(qs.quad_bound()),
            limit > 0 ==> out@.len() <= limit,
            run_at(*shape, sc, refs_view(out@)),
            mid ==> limit > 0 && out@.len() >= limit
                && listed_walk(s0, gm, refs_view(out@).take(gp), n, qb)
                && round_at(gm, gx, sc, gk, refs_view(out@), gp, qb),
        ensures
            qb == qs.quad_bound(),
            scans_as(*shape, s0),
            sc.wf(qs.quad_bound()),
            limit > 0 ==> out@.len() <= limit,
            run_at(*shape, sc, refs_view(out@)),
            *shape is Fixed ==> (limit > 0 && out@.len() >= limit) || sc->Fixed_0.ind == sc->Fixed_0.values@.len(),
            mid ==> limit > 0 && out@.len() >= limit
                && listed_walk(s0, gm, refs_view(out@).take(gp), n, qb)
                && round_at(gm, gx, sc, gk, refs_view(out@), gp, qb),
            !mid ==> listed_walk(s0, gm, refs_view(out@), n, qb) && gm.next_step(ge, false, qb),
        decreases sc.rank(),
    {
        if limit_reached(out.len(), limit) {
            break;
        }
        let ghost pre = sc;
        if !sc.next(qs) {
            proof {
                gm = pre;
                ge = sc;
            }
            break;
        }
        let ghost before = out@;
        let ghost x = sc;
        match sc.result() {
            Some(x) => out.push(x),
            None => {},
        }
        proof {
            assert(refs_view(out@) =~= refs_view(before) + listed_at(x));
            assert(refs_view(out@).take(before.len() as int) =~= refs_view(before));
            assert(refs_view(out@).subrange(before.len() as int, (before.len() + listed_at(x).len()) as int) =~= listed_at(x));
            assert(refs_view(out@).skip((before.len() + listed_at(x).len()) as int) =~= Seq::<RefV>::empty());
            assert(paths_listed(x, sc, 0, refs_view(out@).skip((before.len() + listed_at(x).len()) as int), qb));
            gm = pre;
            gx = x;
            gk = 0;
            gp = before.len() as int;
            if *shape is Fixed {
                assert(refs_view(out@) =~= refs_view(before).push(sc.spec_result()->0));
                let n = sc->Fixed_0;
                assert(refs_view(n.values@).take(n.ind as int) =~= refs_view(n.values@).take(n.ind - 1).push(n.values@[n.ind - 1]@));
            }
        }
        let ghost r0 = sc.rank();
        loop
            invariant_except_break
                round_at(gm, gx, sc, gk, refs_view(out@), gp, qb),
                !mid,
                listed_walk(s0, gm, refs_view(out@).take(gp), n, qb),
            invariant
                qb == qs.quad_bound(),
                scans_as(*shape, s0),
                sc.wf(qs.quad_bound()),
                sc.rank() <= r0,
                limit > 0 ==> out@.len() <= limit,
                run_at(*shape, sc, refs_view(out@)),
                gm == pre,
                gx == x,
            ensures
                qb == qs.quad_bound(),
                scans_as(*shape, s0),
                sc.wf(qs.quad_bound()),
                sc.rank() <= r0,
                limit > 0 ==> out@.len() <= limit,
                run_at(*shape, sc, refs_view(out@)),
                mid ==> limit > 0 && out@.len() >= limit
                    && listed_walk(s0, gm, refs_view(out@).take(gp), n, qb)
                    && round_at(gm, gx, sc, gk, refs_view(out@), gp, qb),
                !mid ==> listed_walk(s0, sc, refs_view(out@), n, qb) && !(limit > 0 && out@.len() >= limit),
            decreases sc.path_rank(),
        {
            if limit_reached(out.len(), limit) {
                proof {
                    mid = true;
                }
                break;
            }
            let ghost py = sc;
            let ghost o1 = refs_view(out@);
            if !sc.next_path(qs) {
                proof {
                    let j = gp + listed_at(x).len();
                    assert(paths_listed(x, py, gk, o1.skip(j), qb));
                    assert(o1.take(j - listed_at(x).len()) =~= o1.take(gp));
                    assert(listed_walk(s0, sc, o1, (n + 1) as nat, qb));
                    n = n + 1;
                }
                break;
            }
            match sc.result() {
                Some(x) => out.push(x),
                None => {},
            }
            proof {
                let j = gp + listed_at(x).len();
                let o2 = refs_view(out@);
                assert(o2 =~= o1 + listed_at(sc));
                assert(o2.take(gp) =~= o1.take(gp));
                assert(o2.subrange(gp, j) =~= o1.subrange(gp, j));
                assert(o2.skip(j) =~= o1.skip(j) + listed_at(sc));
                assert(o2.skip(j).skip(o2.skip(j).len() - listed_at(sc).len()) =~= listed_at(sc));
                assert(o2.skip(j).take(o2.skip(j).len() - listed_at(sc).len()) =~= o1.skip(j));
                assert(paths_listed(x, sc, gk + 1, o2.skip(j), qb));
                gk = gk + 1;
            }
        }
    }
    proof {
        let o = refs_view(out@);
        if mid {
            assert(round_at(gm, gx, sc, gk, o, gp, qb));
            assert(listed_walk(s0, gm, o.take(gp), n, qb));
        } else {
            assert(o.take(o.len() as int) =~= o);
            assert(listed_walk(s0, gm, o.take(o.len() as int), n, qb));
            assert(gm.next_step(ge, false, qb));
        }
        if *shape is Fixed {
            let n = sc->Fixed_0;
            assert(refs_view(n.values@).take(n.values@.len() as int) =~= refs_view(n.values@));
        }
    }
    let _ = sc.close();
    out
}

/// The tags of the results of a shape, in the order of `each_results`:
/// for each result and path, what the shape records under its tags.
pub fn each_tags<Q: QuadStore>(qs: &Q, shape: &Shape, limit: i64) -> (r: Vec<TagMap>)
    ensures
        limit > 0 ==> r@.len() <= limit,
        *shape is Null || *shape is Error ==> r@.len() == 0,
        *shape matches Shape::Fixed(f) ==> r@.len() == limited(f.values@.len(), limit)
            && forall|i: int| 0 <= i < r@.len() ==> (#[trigger] r@[i])@ == Map::<Seq<char>, RefV>::empty(),
        tags_run(*shape, maps_view(r@), limit, qs.quad_bound()),
{
    let ghost qb = qs.quad_bound();
    let mut sc = shape.iterate(qs);
    let mut out: Vec<TagMap> = Vec::new();
    let ghost s0 = sc;
    let ghost mut n: nat = 0;
    let ghost mut mid = false;
    let ghost mut gm = sc;
    let ghost mut gx = sc;
    let ghost mut gk: nat = 0;
    let ghost mut gp: int = 0;
    let ghost mut ge = sc;
    proof {
        assert(maps_view(out@) =~= Seq::<Map<Seq<char>, RefV>>::empty());
        assert(tagged_walk(s0, sc, maps_view(out@), 0, qb));
        if *shape is Fixed {
            let n = sc->Fixed_0;
            let f = shape->Fixed_0;
            assert(refs_view(n.values@).len() == refs_view(f.values@).len());
        }
    }
    loop
        invariant_except_break
            !mid ==> tagged_walk(s0, sc, maps_view(out@), n, qb),
            !mid ==> !(limit > 0 && out@.len() >= limit),
        invariant
            qb == qs.quad_bound(),
            scans_as(*shape, s0),
            sc.wf(qs.quad_bound()),
            limit > 0 ==> out@.len() <= limit,
            tags_run_at(*shape, sc, out@),
            mid ==> limit > 0 && out@.len() >= limit
                && tagged_walk(s0, gm, maps_view(out@).take(gp), n, qb)
                && tagged_round_at(gm, gx, sc, gk, maps_view(out@), gp, qb),
        ensures
            qb == qs.quad_bound(),
            scans_as(*shape, s0),
            sc.wf(qs.quad_bound()),
            limit > 0 ==> out@.len() <= limit,
            tags_run_at(*shape, sc, out@),
            *shape is Fixed ==> (limit > 0 && out@.len() >= limit) || sc->Fixed_0.ind == sc->Fixed_0.values@.len(),
            mid ==> limit > 0 && out@.len() >= limit
                && tagged_walk(s0, gm, maps_view(out@).take(gp), n, qb)
                && tagged_round_at(gm, gx, sc, gk, maps_view(out@), gp, qb),
            !mid ==> tagged_walk(s0, gm, maps_view(out@), n, qb) && gm.next_step(ge, false, qb),
        decreases sc.rank(),
    {
        if limit_reached(out.len(), limit) {
            break;
        }
        let ghost pre = sc;
        if !sc.next(qs) {
            proof {
                gm = pre;
                ge = sc;
            }
            break;
        }
        let ghost before = maps_view(out@);
        let ghost x = sc;
        let mut tags = TagMap::new();
        sc.tag_results(&mut tags);
        out.push(tags);
        proof {
            let o = maps_view(out@);
            assert(o =~= before.push(o.last()));
            assert(o.take(before.len() as int) =~= before);
            assert(o.skip((before.len() + 1) as int) =~= Seq::<Map<Seq<char>, RefV>>::empty());
            assert(paths_tagged(x, sc, 0, o.skip((before.len() + 1) as int), qb));
            gm = pre;
            gx = x;
            gk = 0;
            gp = before.len() as int;
        }
        let ghost r0 = sc.rank();
        loop
            invariant_except_break
                tagged_round_at(gm, gx, sc, gk, maps_view(out@), gp, qb),
                !mid,
                tagged_walk(s0, gm, maps_view(out@).take(gp), n, qb),
            invariant
                qb == qs.quad_bound(),
                scans_as(*shape, s0),
                sc.wf(qs.quad_bound()),
                sc.rank() <= r0,
                limit > 0 ==> out@.len() <= limit,
                tags_run_at(*shape, sc, out@),
                gm == pre,
                gx == x,
            ensures
                qb == qs.quad_bound(),
                scans_as(*shape, s0),
                sc.wf(qs.quad_bound()),
                sc.rank() <= r0,
                limit > 0 ==> out@.len() <= limit,
                tags_run_at(*shape, sc, out@),
                mid ==> limit > 0 && out@.len() >= limit
                    && tagged_walk(s0, gm, maps_view(out@).take(gp), n, qb)
                    && tagged_round_at(gm, gx, sc, gk, maps_view(out@), gp, qb),
                !mid ==> tagged_walk(s0, sc, maps_view(out@), n, qb) && !(limit > 0 && out@.len() >= limit),
            decreases sc.path_rank(),
        {
            if limit_reached(out.len(), limit) {
                proof {
                    mid = true;
                }
                break;
            }
            let ghost py = sc;
            let ghost o1 = maps_view(out@);
            if !sc.next_path(qs) {
                proof {
                    let j = gp + 1;
                    assert(paths_tagged(x, py, gk, o1.skip(j), qb));
                    assert(o1.take(j - 1) =~= o1.take(gp));
                    assert(tagged_walk(s0, sc, o1, (n + 1) as nat, qb));
                    n = n + 1;
                }
                break;
            }
            let mut tags = TagMap::new();
            sc.tag_results(&mut tags);
            out.push(tags);
            proof {
                let j = gp + 1;
                let o2 = maps_view(out@);
                assert(o2 =~= o1.push(o2.last()));
                assert(o2.take(gp) =~= o1.take(gp));
                assert(o2[gp] == o1[gp]);
                assert(o2.skip(j) =~= o1.skip(j).push(o2.last()));
                assert(o2.skip(j).drop_last() =~= o1.skip(j));
                assert(paths_tagged(x, sc, gk + 1, o2.skip(j), qb));
                gk = gk + 1;
            }
        }
    }
    proof {
        let o = maps_view(out@);
        if mid {
            assert(tagged_round_at(gm, gx, sc, gk, o, gp, qb));
            assert(tagged_walk(s0, gm, o.take(gp), n, qb));
        } else {
            assert(o.take(o.len() as int) =~= o);
            assert(tagged_walk(s0, gm, o.take(o.len() as int), n, qb));
            assert(gm.next_step(ge, false, qb));
        }
    }
    let _ = sc.close();
    out
}

} // verus!
