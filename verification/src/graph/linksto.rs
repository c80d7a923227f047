//! From values to quads: the quads that have, in a direction, a value that
//! another iterator lists.
use vstd::prelude::*;
use crate::graph::refs::{Ref, RefV, Size};
use crate::graph::quad::{Direction, QuadStore};
use crate::graph::iterator::{Shape, Scanner, Index, Costs, Null, max_nat};
use crate::graph::iterator::costs::links_to_costs;
use crate::graph::iterator::tags::TagMap;
use crate::arith::{sat_add, sat_div, sat_mul, clamp_i64, trunc_div};
use crate::graph::iterator::fixed::refs_view;
use crate::strutil::copy_string;

verus! {

/// The quads that have in direction `dir` a value that `primary` lists.
pub struct LinksTo {
    pub primary: Box<Shape>,
    pub dir: Direction,
}

/// Assumed number of quads per value, for size estimates.
pub const FANOUT_FACTOR: i64 = 20;

impl LinksTo {
    pub fn new(primary: Shape, dir: Direction) -> (r: LinksTo)
        ensures
            *r.primary == primary,
            r.dir == dir,
    {
        LinksTo { primary: Box::new(primary), dir }
    }

    pub fn direction(&self) -> (r: Direction)
        ensures
            r == self.dir,
    {
        self.dir
    }

    pub open spec fn height(&self) -> nat {
        1 + max_nat(self.primary.height(), 1)
    }

    /// The number of quads: exactly the sum of the stores' counts when the
    /// primary is a fixed list; else an estimate of twenty quads per value
    /// of the primary, at most half the quads of the store plus one.
    pub fn get_size<Q: QuadStore>(&self, qs: &Q) -> (r: Result<Size, String>)
        ensures
            !(*self.primary is Fixed) ==> (r matches Ok(s) ==> !s.exact),
            *self.primary matches Shape::Fixed(f) ==> (f.values@.len() == 0 ==> r == Ok::<Size, String>(Size { value: 0, exact: true })),
            *self.primary matches Shape::Fixed(f) ==> match summed_sizes(*qs, self.dir, refs_view(f.values@)) {
                Some(s) => r == Ok::<Size, String>(s),
                None => r is Err,
            },
            !(*self.primary is Fixed) ==> (qs.spec_stats(false) is None ==> r is Err),
            !(*self.primary is Fixed) ==> (qs.spec_stats(false) matches Some(st) ==> (crate::graph::iterator::known_costs(*self.primary) matches Some(c)
                ==> r == Ok::<Size, String>(Size { value: estimated_size(c.size.value, st.quads.value), exact: false }))),
        decreases self, 1nat,
    {
        match &*self.primary {
            Shape::Fixed(f) => {
                let mut size = Size { value: 0, exact: true };
                let mut i: usize = 0;
                while i < f.values.len()
                    invariant
                        i <= f.values@.len(),
                        i == 0 ==> size == (Size { value: 0, exact: true }),
                        *self.primary == Shape::Fixed(*f),
                        summed_sizes(*qs, self.dir, refs_view(f.values@).take(i as int)) == Some(size),
                    decreases f.values@.len() - i,
                {
                    let ghost vs = refs_view(f.values@);
                    proof {
                        assert(vs.take(i + 1).drop_last() =~= vs.take(i as int));
                        assert(vs.take(i + 1).last() == f.values@[i as int]@);
                    }
                    let st = match qs.quad_iterator_size(&self.dir, &f.values[i]) {
                        Ok(st) => st,
                        Err(e) => {
                            proof {
                                lemma_summed_none(*qs, self.dir, vs, i + 1);
                            }
                            return Err(e);
                        },
                    };
                    size.value = sat_add(size.value, st.value);
                    size.exact = size.exact && st.exact;
                    i = i + 1;
                }
                proof {
                    assert(refs_view(f.values@).take(i as int) =~= refs_view(f.values@));
                }
                Ok(size)
            },
            _ => {
                let stats = qs.stats(false)?;
                let max_size = sat_add(sat_div(stats.quads.value, 2), 1);
                let st = self.primary.stats(qs)?;
                let mut value = sat_mul(st.size.value, FANOUT_FACTOR);
                if value > max_size {
                    value = max_size;
                }
                Ok(Size { value, exact: false })
            },
        }
    }

    pub fn stats<Q: QuadStore>(&self, qs: &Q) -> (r: Result<Costs, String>)
        ensures
            crate::graph::iterator::known_costs(*self.primary) matches Some(x)
                ==> (r matches Ok(c) ==> c == crate::graph::iterator::costs::links_to_costs_spec(x, c.size)),
            !(*self.primary is Fixed) ==> (r matches Ok(c) ==> !c.size.exact),
            *self.primary matches Shape::Fixed(f) ==> (f.values@.len() == 0 ==> r == Ok::<Costs, String>(
                crate::graph::iterator::costs::links_to_costs_spec(crate::graph::iterator::known_costs(*self.primary)->0,
                    Size { value: 0, exact: true }))),
        decreases self, 2nat,
    {
        let sub = self.primary.stats(qs)?;
        let size = self.get_size(qs)?;
        Ok(links_to_costs(sub, size))
    }

    pub fn iterate<Q: QuadStore>(&self, qs: &Q) -> (r: LinksToNext)
        ensures
            r.wf(qs.quad_bound()),
            r.height() <= self.height(),
            r.rank() <= (self.primary.max_rank(qs.quad_bound()) + 1) * (qs.quad_bound() + 1),
            r.dir == self.dir,
        decreases self, 0nat,
    {
        let primary = self.primary.iterate(qs);
        proof {
            let qb = qs.quad_bound();
            assert(primary.rank() * (qb + 1) <= (self.primary.max_rank(qb) + 1) * (qb + 1)) by (nonlinear_arith)
                requires
                    primary.rank() <= self.primary.max_rank(qb),
            ;
        }
        LinksToNext {
            primary: Box::new(primary),
            dir: self.dir,
            next_it: Box::new(Scanner::Null(Null {})),
            result: None,
            err: None,
            qb: Ghost(qs.quad_bound()),
        }
    }

    pub fn lookup<Q: QuadStore>(&self, qs: &Q) -> (r: LinksToContains)
        ensures
            r.wf(qs.quad_bound()),
            r.height() <= self.height(),
            r.primary.path_bound() <= self.primary.max_path(qs.quad_bound()),
            r.dir == self.dir,
        decreases self, 0nat,
    {
        LinksToContains { primary: Box::new(self.primary.lookup(qs)), dir: self.dir, result: None }
    }
}

/// The sizes the store gives the quads with each value of `vs` in `d`,
/// added up (held within the bounds of `i64`), exact when each one is;
/// none when the store reports an error for one of them.
pub open spec fn summed_sizes<Q: QuadStore>(qs: Q, d: Direction, vs: Seq<RefV>) -> Option<Size>
    decreases vs.len(),
{
    if vs.len() == 0 {
        Some(Size { value: 0, exact: true })
    } else {
        match (summed_sizes(qs, d, vs.drop_last()), qs.spec_quad_iterator_size(d, vs.last())) {
            (Some(a), Some(b)) => Some(Size { value: clamp_i64(a.value + b.value), exact: a.exact && b.exact }),
            _ => None,
        }
    }
}

/// A failure on a prefix of `vs` is a failure on `vs`.
proof fn lemma_summed_none<Q: QuadStore>(qs: Q, d: Direction, vs: Seq<RefV>, i: int)
    requires
        0 <= i <= vs.len(),
        summed_sizes(qs, d, vs.take(i)) is None,
    ensures
        summed_sizes(qs, d, vs) is None,
    decreases vs.len(),
{
    if i == vs.len() {
        assert(vs.take(i) =~= vs);
    } else {
        assert(vs.drop_last().take(i) =~= vs.take(i));
        lemma_summed_none(qs, d, vs.drop_last(), i);
    }
}

/// The estimate of the size of a links-to whose primary has size `primary`,
/// over a store of `quads` quads: twenty quads per value, at most half the
/// quads plus one.
pub open spec fn estimated_size(primary: i64, quads: i64) -> i64 {
    let max_size = clamp_i64(clamp_i64(trunc_div(quads as int, 2)) + 1);
    let v = clamp_i64(primary * FANOUT_FACTOR);
    if v > max_size { max_size } else { v }
}

/// Lists, for each value of the primary scanner, the quads with it in `dir`.
pub struct LinksToNext {
    pub primary: Box<Scanner>,
    pub dir: Direction,
    /// The quads with the current value of the primary.
    pub next_it: Box<Scanner>,
    pub result: Option<Ref>,
    pub err: Option<String>,
    /// The bound on quad iterator sizes of the store it was made for.
    pub qb: Ghost<nat>,
}

impl LinksToNext {
    pub open spec fn height(&self) -> nat {
        1 + max_nat(self.primary.height(), max_nat(1, self.next_it.height()))
    }

    pub open spec fn wf(&self, qb: nat) -> bool {
        &&& self.primary.wf(qb)
        &&& self.next_it.wf(qb)
        &&& self.next_it.rank() <= qb
        &&& self.next_it.height() <= 1
        &&& self.qb@ == qb
    }

    /// Values left, each with its quads, then quads left of the current value.
    pub open spec fn rank(&self) -> nat {
        self.primary.rank() * (self.qb@ + 1) + self.next_it.rank()
    }

    pub open spec fn path_rank(&self) -> nat {
        self.primary.path_rank()
    }

    /// Moves to the next quad of the current value, else to the quads of
    /// the next value of the primary; stops at the first error.
    pub fn next<Q: QuadStore>(&mut self, qs: &Q) -> (r: bool)
        requires
            old(self).wf(qs.quad_bound()),
        ensures
            final(self).wf(qs.quad_bound()),
            final(self).height() <= old(self).height(),
            r ==> final(self).rank() < old(self).rank(),
            !r ==> final(self).rank() <= old(self).rank(),
            final(self).dir == old(self).dir,
            r ==> crate::graph::iterator::opt_ref_view(final(self).result) == final(self).next_it.spec_result(),
            !r ==> final(self).result == old(self).result,
            !r ==> final(self).err is Some || crate::graph::iterator::ended_below(*final(self).primary, qs.quad_bound(), old(self).primary.height()),
        decreases old(self).height(), 0nat,
    {
        let qb = Ghost(qs.quad_bound());
        loop
            invariant
                self.result == old(self).result,
                qb@ == qs.quad_bound(),
                self.wf(qb@),
                self.height() <= old(self).height(),
                self.rank() <= old(self).rank(),
                self.dir == old(self).dir,
                self.primary.height() <= old(self).primary.height(),
            decreases self.rank(),
        {
            let ghost before = self.rank();
            if self.next_it.next(qs) {
                self.result = self.next_it.result();
                return true;
            }
            self.err = self.next_it.err();
            if self.err.is_some() {
                return false;
            }
            let ghost p0 = self.primary.rank();
            let ghost pre = *self.primary;
            if !self.primary.next(qs) {
                assert(pre.height() <= old(self).primary.height());
                proof {
                    let p1 = self.primary.rank();
                    let q = self.qb@;
                    assert(p1 * (q + 1) <= p0 * (q + 1)) by (nonlinear_arith)
                        requires
                            p1 <= p0,
                    ;
                }
                self.err = self.primary.err();
                return false;
            }
            let _ = self.next_it.close();
            let shape = match self.primary.result() {
                Some(v) => qs.quad_iterator(&self.dir, &v),
                None => Shape::Null(Null {}),
            };
            self.next_it = Box::new(shape.iterate(qs));
            proof {
                let p1 = self.primary.rank();
                let n1 = self.next_it.rank();
                let q = self.qb@;
                assert(p1 * (q + 1) + n1 < p0 * (q + 1)) by (nonlinear_arith)
                    requires
                        p1 + 1 <= p0,
                        n1 <= q,
                ;
            }
        }
    }

    /// Another path to the current value of the primary.
    pub fn next_path<Q: QuadStore>(&mut self, qs: &Q) -> (r: bool)
        requires
            old(self).wf(qs.quad_bound()),
        ensures
            final(self).wf(qs.quad_bound()),
            final(self).height() <= old(self).height(),
            final(self).rank() <= old(self).rank(),
            r ==> final(self).path_rank() < old(self).path_rank(),
            !r ==> final(self).path_rank() <= old(self).path_rank(),
            old(self).primary.path_step(*final(self).primary, r, qs.quad_bound()),
            final(self).next_it == old(self).next_it,
            final(self).result == old(self).result,
            !r ==> (final(self).err is Some == final(self).primary.spec_failed()),
        decreases old(self).height(), 0nat,
    {
        let ok = self.primary.next_path(qs);
        proof {
            let q = self.qb@;
            let p1 = self.primary.rank();
            let p0 = old(self).primary.rank();
            assert(p1 * (q + 1) <= p0 * (q + 1)) by (nonlinear_arith)
                requires
                    p1 <= p0,
            ;
        }
        if !ok {
            self.err = self.primary.err();
        }
        ok
    }

    pub fn result(&self) -> (r: Option<Ref>)
        ensures
            match (r, self.result) {
                (Some(a), Some(b)) => a@ == b@,
                (None, None) => true,
                _ => false,
            },
    {
        match &self.result {
            Some(v) => Some(v.copy()),
            None => None,
        }
    }

    pub fn err(&self) -> (r: Option<String>)
        ensures
            crate::graph::iterator::opt_text(r) == crate::graph::iterator::opt_text(self.err),
            r is Some == self.err is Some,
    {
        match &self.err {
            Some(e) => Some(copy_string(e)),
            None => None,
        }
    }

    pub fn tag_results(&self, dst: &mut TagMap)
        ensures
            self.primary.tags_step(old(dst)@, final(dst)@),
        decreases self.height(), 0nat,
    {
        self.primary.tag_results(dst)
    }

    /// Closes the quads of the current value, then the primary; the first
    /// error is kept.
    pub fn close(&mut self) -> (r: Result<(), String>)
        ensures
            final(self).height() <= old(self).height(),
            exists|r1: Result<(), String>, r2: Result<(), String>|
                #[trigger] old(self).next_it.close_step(*final(self).next_it, r1)
                && #[trigger] old(self).primary.close_step(*final(self).primary, r2)
                && r == (if r2 is Err && r1 is Ok { r2 } else { r1 }),
        decreases old(self).height(), 0nat,
    {
        let res = self.next_it.close();
        let res2 = self.primary.close();
        if res2.is_err() && res.is_ok() {
            res2
        } else {
            res
        }
    }
}

/// Checks a quad by its value in `dir`, against the primary index.
pub struct LinksToContains {
    pub primary: Box<Index>,
    pub dir: Direction,
    pub result: Option<Ref>,
}

impl LinksToContains {
    pub open spec fn height(&self) -> nat {
        1 + self.primary.height()
    }

    pub open spec fn wf(&self, qb: nat) -> bool {
        self.primary.wf(qb)
    }

    pub open spec fn path_rank(&self) -> nat {
        self.primary.path_rank()
    }

    pub open spec fn path_bound(&self) -> nat {
        self.primary.path_bound()
    }

    /// Whether the store knows the quad `val` refers to and the primary
    /// index contains its value in `dir`; `val` then becomes the result.
    pub fn contains<Q: QuadStore>(&mut self, qs: &Q, val: &Ref) -> (r: bool)
        requires
            old(self).wf(qs.quad_bound()),
        ensures
            final(self).path_bound() == old(self).path_bound(),
            final(self).wf(qs.quad_bound()),
            final(self).height() <= old(self).height(),
            r ==> (final(self).result matches Some(x) && x@ == val@),
            !r ==> final(self).result == old(self).result,
            r ==> exists|n: RefV| #[trigger] old(self).primary.contains_step(*final(self).primary, n, true, qs.quad_bound()),
        decreases old(self).height(), 0nat,
    {
        match qs.quad_direction(val, &self.dir) {
            Some(n) => {
                if self.primary.contains(qs, &n) {
                    self.result = Some(val.copy());
                    return true;
                }
                false
            },
            None => false,
        }
    }

    pub fn next_path<Q: QuadStore>(&mut self, qs: &Q) -> (r: bool)
        requires
            old(self).wf(qs.quad_bound()),
        ensures
            final(self).path_bound() == old(self).path_bound(),
            final(self).wf(qs.quad_bound()),
            final(self).height() <= old(self).height(),
            r ==> final(self).path_rank() < old(self).path_rank(),
            !r ==> final(self).path_rank() <= old(self).path_rank(),
            old(self).primary.path_step(*final(self).primary, r, qs.quad_bound()),
            final(self).result == old(self).result,
        decreases old(self).height(), 0nat,
    {
        self.primary.next_path(qs)
    }

    pub fn result(&self) -> (r: Option<Ref>)
        ensures
            match (r, self.result) {
                (Some(a), Some(b)) => a@ == b@,
                (None, None) => true,
                _ => false,
            },
    {
        match &self.result {
            Some(v) => Some(v.copy()),
            None => None,
        }
    }

    pub fn err(&self) -> (r: Option<String>)
        ensures
            crate::graph::iterator::opt_text(r) == self.primary.spec_err(),
            r is Some == self.primary.spec_failed(),
        decreases self.height(), 0nat,
    {
        self.primary.err()
    }

    pub fn tag_results(&self, dst: &mut TagMap)
        ensures
            self.primary.tags_step(old(dst)@, final(dst)@),
        decreases self.height(), 0nat,
    {
        self.primary.tag_results(dst)
    }

    pub fn close(&mut self) -> (r: Result<(), String>)
        ensures
            final(self).height() <= old(self).height(),
        decreases old(self).height(), 0nat,
    {
        self.primary.close()
    }
}

} // verus!
