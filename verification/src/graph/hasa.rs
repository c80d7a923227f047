//! From quads to one of their values: the values in a direction of the quads
//! that another iterator lists.
use vstd::prelude::*;
use crate::graph::refs::{Ref, RefV, ContentV};
use crate::graph::value::ValueV;
use crate::graph::quad::{Direction, QuadStore};
use crate::graph::iterator::{Shape, Scanner, Index, Costs, max_nat, lemma_index_path_bounded};
use crate::graph::iterator::costs::has_a_costs;
use crate::graph::iterator::tags::TagMap;
use crate::strutil::copy_string;

verus! {

/// The values in direction `dir` of the quads that `primary` lists.
pub struct HasA {
    pub primary: Box<Shape>,
    pub dir: Direction,
}

impl HasA {
    pub fn new(primary: Shape, dir: Direction) -> (r: HasA)
        ensures
            *r.primary == primary,
            r.dir == dir,
    {
        HasA { primary: Box::new(primary), dir }
    }

    pub fn direction(&self) -> (r: Direction)
        ensures
            r == self.dir,
    {
        self.dir
    }

    pub open spec fn height(&self) -> nat {
        1 + max_nat(self.primary.height(), 1)
    }

    pub fn stats<Q: QuadStore>(&self, qs: &Q) -> (r: Result<Costs, String>)
        decreases self, 2nat,
    {
        let c = self.primary.stats(qs)?;
        Ok(has_a_costs(c))
    }

    pub fn iterate<Q: QuadStore>(&self, qs: &Q) -> (r: HasANext)
        ensures
            r.wf(qs.quad_bound()),
            r.height() <= self.height(),
            r.rank() <= self.primary.max_rank(qs.quad_bound()),
            r.dir == self.dir,
            r.result is None,
        decreases self, 0nat,
    {
        HasANext { primary: Box::new(self.primary.iterate(qs)), dir: self.dir, result: None }
    }

    pub fn lookup<Q: QuadStore>(&self, qs: &Q) -> (r: HasAContains)
        ensures
            r.wf(qs.quad_bound()),
            r.height() <= self.height(),
            r.path_bound() <= (qs.quad_bound() + 1) * (self.primary.max_path(qs.quad_bound()) + 1),
            r.dir == self.dir,
            r.results is None,
        decreases self, 0nat,
    {
        let primary = self.primary.lookup(qs);
        proof {
            let qb = qs.quad_bound();
            assert((qb + 1) * (primary.path_bound() + 1) <= (qb + 1) * (self.primary.max_path(qb) + 1))
                by (nonlinear_arith)
                requires
                    primary.path_bound() <= self.primary.max_path(qb),
            ;
        }
        HasAContains {
            primary: Box::new(primary),
            dir: self.dir,
            results: None,
            result: None,
            err: None,
            qb: Ghost(qs.quad_bound()),
        }
    }
}

/// The value in direction `dir` of the quad `r` refers to, or the empty
/// reference when the store knows no such quad.
fn value_in_direction<Q: QuadStore>(qs: &Q, r: &Option<Ref>, dir: &Direction) -> (res: Ref)
    ensures
        r is None ==> res@ == (RefV { k: ValueV::Undefined, content: ContentV::Empty }),
{
    match r {
        Some(q) => match qs.quad_direction(q, dir) {
            Some(v) => v,
            None => Ref::none(),
        },
        None => Ref::none(),
    }
}

/// Lists, for each quad of the primary scanner, its value in `dir`.
pub struct HasANext {
    pub primary: Box<Scanner>,
    pub dir: Direction,
    pub result: Option<Ref>,
}

impl HasANext {
    pub open spec fn height(&self) -> nat {
        1 + self.primary.height()
    }

    pub open spec fn wf(&self, qb: nat) -> bool {
        self.primary.wf(qb)
    }

    pub open spec fn rank(&self) -> nat {
        self.primary.rank()
    }

    pub open spec fn path_rank(&self) -> nat {
        self.primary.path_rank()
    }

    /// Moves the primary scanner; the result is the value in `dir` of its
    /// quad (the empty reference when the store has no such quad).
    pub fn next<Q: QuadStore>(&mut self, qs: &Q) -> (r: bool)
        requires
            old(self).wf(qs.quad_bound()),
        ensures
            final(self).wf(qs.quad_bound()),
            final(self).height() <= old(self).height(),
            r ==> final(self).rank() < old(self).rank(),
            !r ==> final(self).rank() <= old(self).rank(),
            r ==> final(self).result is Some,
            !r ==> final(self).result == old(self).result,
            final(self).dir == old(self).dir,
            old(self).primary.next_step(*final(self).primary, r, qs.quad_bound()),
            r && final(self).primary.spec_result() is None ==> (final(self).result matches Some(x)
                && x@ == (RefV { k: ValueV::Undefined, content: ContentV::Empty })),
        decreases old(self).height(), 0nat,
    {
        if !self.primary.next(qs) {
            return false;
        }
        let q = self.primary.result();
        self.result = Some(value_in_direction(qs, &q, &self.dir));
        true
    }

    pub fn next_path<Q: QuadStore>(&mut self, qs: &Q) -> (r: bool)
        requires
            old(self).wf(qs.quad_bound()),
        ensures
            final(self).wf(qs.quad_bound()),
            final(self).height() <= old(self).height(),
            final(self).rank() <= old(self).rank(),
            r ==> final(self).path_rank() < old(self).path_rank(),
            !r ==> final(self).path_rank() <= old(self).path_rank(),
            old(self).primary.path_step(*final(self).primary, r, qs.quad_bound()),
            final(self).result == old(self).result,
        decreases old(self).height(), 0nat,
    {
        self.primary.next_path(qs)
    }

    pub fn result(&self) -> (r: Option<Ref>)
        ensures
            match (r, self.result) {
                (Some(a), Some(b)) => a@ == b@,
                (None, None) => true,
                _ => false,
            },
    {
        match &self.result {
            Some(v) => Some(v.copy()),
            None => None,
        }
    }

    pub fn err(&self) -> (r: Option<String>)
        ensures
            crate::graph::iterator::opt_text(r) == self.primary.spec_err(),
            r is Some == self.primary.spec_failed(),
        decreases self.height(), 0nat,
    {
        self.primary.err()
    }

    pub fn tag_results(&self, dst: &mut TagMap)
        ensures
            self.primary.tags_step(old(dst)@, final(dst)@),
        decreases self.height(), 0nat,
    {
        self.primary.tag_results(dst)
    }

    pub fn close(&mut self) -> (r: Result<(), String>)
        ensures
            final(self).height() <= old(self).height(),
        decreases old(self).height(), 0nat,
    {
        self.primary.close()
    }
}

/// Checks a value by the quads that have it in `dir`: the value is in when
/// the primary index contains one of them.
pub struct HasAContains {
    pub primary: Box<Index>,
    pub dir: Direction,
    /// The quads with the value last checked in `dir`.
    pub results: Option<Box<Scanner>>,
    pub result: Option<Ref>,
    pub err: Option<String>,
    /// The bound on quad iterator sizes of the store it was made for.
    pub qb: Ghost<nat>,
}

impl HasAContains {
    pub open spec fn height(&self) -> nat {
        1 + max_nat(self.primary.height(), max_nat(1, match self.results { Some(rs) => rs.height(), None => 1 }))
    }

    pub open spec fn wf(&self, qb: nat) -> bool {
        &&& self.primary.wf(qb)
        &&& self.qb@ == qb
        &&& self.results matches Some(rs) ==> rs.wf(qb) && rs.rank() <= qb && rs.height() <= 1
    }

    pub open spec fn results_rank(&self) -> nat {
        match self.results {
            Some(rs) => rs.rank(),
            None => 0,
        }
    }

    /// Quads left to check, then paths left in the primary index.
    pub open spec fn path_rank(&self) -> nat {
        self.results_rank() * (self.primary.path_bound() + 1) + self.primary.path_rank()
    }

    pub open spec fn path_bound(&self) -> nat {
        (self.qb@ + 1) * (self.primary.path_bound() + 1)
    }

    /// Moves along the quads with the checked value until one that the
    /// primary index contains and whose value in `dir` the store knows;
    /// that value becomes the result.
    fn next_contains<Q: QuadStore>(&mut self, qs: &Q) -> (r: bool)
        requires
            old(self).wf(qs.quad_bound()),
        ensures
            final(self).wf(qs.quad_bound()),
            final(self).height() <= old(self).height(),
            final(self).primary.path_bound() == old(self).primary.path_bound(),
            final(self).qb == old(self).qb,
            final(self).dir == old(self).dir,
            final(self).results is Some == old(self).results is Some,
            r ==> final(self).results_rank() < old(self).results_rank(),
            !r ==> final(self).path_rank() <= old(self).path_rank(),
            r ==> final(self).result is Some,
            !r ==> final(self).result == old(self).result,
            old(self).results is None ==> !r && *final(self) == *old(self),
        decreases max_nat(old(self).primary.height(), 1), 2nat,
    {
        let qb = Ghost(qs.quad_bound());
        let ghost p0 = old(self).primary.path_bound();
        let ghost r0 = old(self).results_rank();
        let mut rs = match self.results.take() {
            Some(rs) => rs,
            None => {
                return false;
            },
        };
        let mut touched = false;
        let mut found = false;
        loop
            invariant
                qb@ == qs.quad_bound(),
                self.primary.wf(qb@),
                self.qb == old(self).qb,
                self.qb@ == qb@,
                self.dir == old(self).dir,
                self.results is None,
                rs.wf(qb@),
                rs.height() <= 1,
                rs.rank() <= r0,
                r0 <= qb@,
                self.primary.path_bound() == p0,
                self.primary.height() <= old(self).primary.height(),
                touched ==> rs.rank() < r0,
                !touched ==> self.primary.path_rank() == old(self).primary.path_rank(),
                found ==> touched && self.result is Some,
                !found ==> self.result == old(self).result,
            decreases rs.rank(),
        {
            if !rs.next(qs) {
                break;
            }
            touched = true;
            let link = rs.result();
            match link {
                Some(l) => {
                    if self.primary.contains(qs, &l) {
                        match qs.quad_direction(&l, &self.dir) {
                            Some(q) => {
                                self.result = Some(q);
                                found = true;
                                break;
                            },
                            None => {},
                        }
                    }
                },
                None => {},
            }
        }
        if !found {
            self.err = rs.err();
        }
        self.results = Some(rs);
        proof {
            lemma_index_path_bounded(*self.primary, qb@);
            let rr = self.results_rank();
            let pp = self.primary.path_rank();
            if touched {
                assert(rr * (p0 + 1) + pp < r0 * (p0 + 1)) by (nonlinear_arith)
                    requires
                        rr + 1 <= r0,
                        pp <= p0,
                ;
            } else {
                assert(rr * (p0 + 1) <= r0 * (p0 + 1)) by (nonlinear_arith)
                    requires
                        rr <= r0,
                ;
            }
        }
        found
    }

    /// Another path: first one of the primary index, else the next quad
    /// with the checked value that the primary index contains.
    pub fn next_path<Q: QuadStore>(&mut self, qs: &Q) -> (r: bool)
        requires
            old(self).wf(qs.quad_bound()),
        ensures
            final(self).path_bound() == old(self).path_bound(),
            final(self).wf(qs.quad_bound()),
            final(self).height() <= old(self).height(),
            r ==> final(self).path_rank() < old(self).path_rank(),
            !r ==> final(self).path_rank() <= old(self).path_rank(),
            exists|mid: Index, q: bool| #[trigger] old(self).primary.path_step(mid, q, qs.quad_bound())
                && (q ==> r && *final(self).primary == mid && final(self).results == old(self).results
                    && final(self).result == old(self).result),
        decreases old(self).height(), 0nat,
    {
        if self.primary.next_path(qs) {
            return true;
        }
        self.err = self.primary.err();
        if self.err.is_some() {
            return false;
        }
        let ghost mid = self.path_rank();
        let result = self.next_contains(qs);
        proof {
            if result {
                let p0 = self.primary.path_bound();
                lemma_index_path_bounded(*self.primary, self.qb@);
                let rr = self.results_rank();
                let r0 = old(self).results_rank();
                let pp = self.primary.path_rank();
                assert(rr * (p0 + 1) + pp < r0 * (p0 + 1)) by (nonlinear_arith)
                    requires
                        rr + 1 <= r0,
                        pp <= p0,
                ;
            }
        }
        if self.err.is_some() {
            return false;
        }
        result
    }

    /// Checks `val`: the quads with it in `dir` are walked until one that
    /// the primary index contains.
    pub fn contains<Q: QuadStore>(&mut self, qs: &Q, val: &Ref) -> (r: bool)
        requires
            old(self).wf(qs.quad_bound()),
        ensures
            final(self).path_bound() == old(self).path_bound(),
            final(self).wf(qs.quad_bound()),
            final(self).height() <= old(self).height(),
            r ==> final(self).result is Some,
            r ==> final(self).err is None,
            final(self).results is Some,
        decreases old(self).height(), 0nat,
    {
        match self.results.take() {
            Some(mut rs) => {
                let _ = rs.close();
            },
            None => {},
        }
        let shape = qs.quad_iterator(&self.dir, val);
        let rs = shape.iterate(qs);
        self.results = Some(Box::new(rs));
        let ok = self.next_contains(qs);
        if self.err.is_some() {
            return false;
        }
        ok
    }

    pub fn result(&self) -> (r: Option<Ref>)
        ensures
            match (r, self.result) {
                (Some(a), Some(b)) => a@ == b@,
                (None, None) => true,
                _ => false,
            },
    {
        match &self.result {
            Some(v) => Some(v.copy()),
            None => None,
        }
    }

    pub fn err(&self) -> (r: Option<String>)
        ensures
            crate::graph::iterator::opt_text(r) == crate::graph::iterator::opt_text(self.err),
            r is Some == self.err is Some,
    {
        match &self.err {
            Some(e) => Some(copy_string(e)),
            None => None,
        }
    }

    pub fn tag_results(&self, dst: &mut TagMap)
        ensures
            self.primary.tags_step(old(dst)@, final(dst)@),
        decreases self.height(), 0nat,
    {
        self.primary.tag_results(dst)
    }

    /// Closes the primary index and the quads walked; the index's error
    /// comes first.
    pub fn close(&mut self) -> (r: Result<(), String>)
        ensures
            final(self).height() <= old(self).height(),
            old(self).results is None ==> old(self).primary.close_step(*final(self).primary, r),
            old(self).results matches Some(rs) ==> exists|r1: Result<(), String>, r2: Result<(), String>|
                #[trigger] old(self).primary.close_step(*final(self).primary, r1)
                && #[trigger] rs.close_step(*final(self).results->0, r2)
                && r == (if r2 is Err && r1 is Ok { r2 } else { r1 }),
        decreases old(self).height(), 0nat,
    {
        let mut res = self.primary.close();
        match &mut self.results {
            Some(rs) => {
                let res2 = rs.close();
                if res2.is_err() && res.is_ok() {
                    res = res2;
                }
            },
            None => {},
        }
        res
    }
}

} // verus!
