//! Stops after a given number of results.
use vstd::prelude::*;
use crate::graph::refs::Ref;
use crate::graph::quad::QuadStore;
use crate::graph::iterator::{Shape, Scanner, Index};
use crate::graph::iterator::tags::TagMap;

verus! {

/// A shape with at most `limit` results of `it` (no bound when `limit <= 0`).
pub struct Limit {
    pub limit: i64,
    pub it: Box<Shape>,
}

impl Limit {
    pub fn new(it: Shape, limit: i64) -> (r: Limit)
        ensures
            r.limit == limit,
            *r.it == it,
    {
        Limit { limit, it: Box::new(it) }
    }

    pub open spec fn height(&self) -> nat
    {
        1 + self.it.height()
    }

    pub fn iterate<Q: QuadStore>(&self, qs: &Q) -> (r: LimitNext)
        ensures
            r.wf(qs.quad_bound()),
            r.height() <= self.height(),
            r.rank() <= self.it.max_rank(qs.quad_bound()),
            r.limit == self.limit,
            r.count == 0,
            crate::graph::iterator::scans_as(*self.it, *r.it),
        decreases self, 0nat,
    {
        LimitNext { limit: self.limit, count: 0, it: Box::new(self.it.iterate(qs)) }
    }

    pub fn lookup<Q: QuadStore>(&self, qs: &Q) -> (r: LimitContains)
        ensures
            r.it.path_bound() <= self.it.max_path(qs.quad_bound()),
            r.wf(qs.quad_bound()),
            r.height() <= self.height(),
            r.limit == self.limit,
            r.count == 0,
            crate::graph::iterator::checks_as(*self.it, *r.it),
        decreases self, 0nat,
    {
        LimitContains { limit: self.limit, count: 0, it: Box::new(self.it.lookup(qs)) }
    }
}

/// Whether a limit has been reached.
pub open spec fn limit_reached(limit: i64, count: i64) -> bool {
    limit > 0 && count >= limit
}

/// Lists at most `limit` results (and paths) of the underlying scanner.
pub struct LimitNext {
    pub limit: i64,
    pub count: i64,
    pub it: Box<Scanner>,
}

impl LimitNext {
    pub open spec fn height(&self) -> nat
    {
        1 + self.it.height()
    }

    pub open spec fn wf(&self, qb: nat) -> bool
    {
        &&& self.it.wf(qb)
        &&& 0 <= self.count
        &&& self.limit > 0 ==> self.count <= self.limit
    }

    pub open spec fn rank(&self) -> nat
    {
        self.it.rank()
    }

    pub open spec fn path_rank(&self) -> nat
    {
        self.it.path_rank()
    }

    /// Once `limit` results and paths have been listed, there are no more;
    /// otherwise the underlying scanner moves, and a success is counted.
    pub fn next<Q: QuadStore>(&mut self, qs: &Q) -> (r: bool)
        requires
            old(self).wf(qs.quad_bound()),
        ensures
            final(self).wf(qs.quad_bound()),
            final(self).height() <= old(self).height(),
            r ==> final(self).rank() < old(self).rank(),
            !r ==> final(self).rank() <= old(self).rank(),
            final(self).limit == old(self).limit,
            limit_reached(old(self).limit, old(self).count) ==> !r && final(self).count == old(self).count,
            old(self).limit > 0 ==> final(self).count == old(self).count + if r { 1int } else { 0int },
            !limit_reached(old(self).limit, old(self).count) ==> old(self).it.next_step(*final(self).it, r, qs.quad_bound()),
        decreases old(self).height(), 0nat,
    {
        if self.limit > 0 && self.count >= self.limit {
            return false;
        }
        if self.it.next(qs) {
            if self.limit > 0 {
                self.count = self.count + 1;
            }
            return true;
        }
        false
    }

    pub fn next_path<Q: QuadStore>(&mut self, qs: &Q) -> (r: bool)
        requires
            old(self).wf(qs.quad_bound()),
        ensures
            final(self).wf(qs.quad_bound()),
            final(self).height() <= old(self).height(),
            final(self).rank() <= old(self).rank(),
            r ==> final(self).path_rank() < old(self).path_rank(),
            !r ==> final(self).path_rank() <= old(self).path_rank(),
            final(self).limit == old(self).limit,
            limit_reached(old(self).limit, old(self).count) ==> !r && final(self).count == old(self).count,
            old(self).limit > 0 ==> final(self).count == old(self).count + if r { 1int } else { 0int },
            !limit_reached(old(self).limit, old(self).count) ==> old(self).it.path_step(*final(self).it, r, qs.quad_bound()),
        decreases old(self).height(), 0nat,
    {
        if self.limit > 0 && self.count >= self.limit {
            return false;
        }
        if self.it.next_path(qs) {
            if self.limit > 0 {
                self.count = self.count + 1;
            }
            return true;
        }
        false
    }

    pub fn result(&self) -> (r: Option<Ref>)
        ensures
            crate::graph::iterator::opt_ref_view(r) == self.it.spec_result(),
        decreases self.height(), 0nat,
    {
        self.it.result()
    }

    pub fn err(&self) -> (r: Option<String>)
        ensures
            crate::graph::iterator::opt_text(r) == self.it.spec_err(),
            r is Some == self.it.spec_failed(),
        decreases self.height(), 0nat,
    {
        self.it.err()
    }

    pub fn tag_results(&self, dst: &mut TagMap)
        ensures
            self.it.tags_step(old(dst)@, final(dst)@),
        decreases self.height(), 0nat,
    {
        self.it.tag_results(dst)
    }

    pub fn close(&mut self) -> (r: Result<(), String>)
        ensures
            final(self).height() <= old(self).height(),
        decreases old(self).height(), 0nat,
    {
        self.it.close()
    }
}

/// Accepts at most `limit` members (and paths) of the underlying index.
pub struct LimitContains {
    pub limit: i64,
    pub count: i64,
    pub it: Box<Index>,
}

impl LimitContains {
    /// A bound on `path_rank` that no operation changes.
    pub open spec fn path_bound(&self) -> nat {
        self.it.path_bound()
    }

    pub open spec fn height(&self) -> nat
    {
        1 + self.it.height()
    }

    pub open spec fn wf(&self, qb: nat) -> bool
    {
        &&& self.it.wf(qb)
        &&& 0 <= self.count
        &&& self.limit > 0 ==> self.count <= self.limit
    }

    pub open spec fn path_rank(&self) -> nat
    {
        self.it.path_rank()
    }

    pub fn contains<Q: QuadStore>(&mut self, qs: &Q, v: &Ref) -> (r: bool)
        requires
            old(self).wf(qs.quad_bound()),
        ensures
            final(self).path_bound() == old(self).path_bound(),
            final(self).wf(qs.quad_bound()),
            final(self).height() <= old(self).height(),
            final(self).limit == old(self).limit,
            limit_reached(old(self).limit, old(self).count) ==> !r && final(self).count == old(self).count,
            old(self).limit > 0 ==> final(self).count == old(self).count + if r { 1int } else { 0int },
            !limit_reached(old(self).limit, old(self).count) ==> old(self).it.contains_step(*final(self).it, v@, r, qs.quad_bound()),
        decreases old(self).height(), 0nat,
    {
        if self.limit > 0 && self.count >= self.limit {
            return false;
        }
        if self.it.contains(qs, v) {
            if self.limit > 0 {
                self.count = self.count + 1;
            }
            return true;
        }
        false
    }

    pub fn next_path<Q: QuadStore>(&mut self, qs: &Q) -> (r: bool)
        requires
            old(self).wf(qs.quad_bound()),
        ensures
            final(self).path_bound() == old(self).path_bound(),
            final(self).wf(qs.quad_bound()),
            final(self).height() <= old(self).height(),
            r ==> final(self).path_rank() < old(self).path_rank(),
            !r ==> final(self).path_rank() <= old(self).path_rank(),
            final(self).limit == old(self).limit,
            limit_reached(old(self).limit, old(self).count) ==> !r && final(self).count == old(self).count,
            old(self).limit > 0 ==> final(self).count == old(self).count + if r { 1int } else { 0int },
            !limit_reached(old(self).limit, old(self).count) ==> old(self).it.path_step(*final(self).it, r, qs.quad_bound()),
        decreases old(self).height(), 0nat,
    {
        if self.limit > 0 && self.count >= self.limit {
            return false;
        }
        if self.it.next_path(qs) {
            if self.limit > 0 {
                self.count = self.count + 1;
            }
            return true;
        }
        false
    }

    pub fn result(&self) -> (r: Option<Ref>)
        ensures
            crate::graph::iterator::opt_ref_view(r) == self.it.spec_result(),
        decreases self.height(), 0nat,
    {
        self.it.result()
    }

    pub fn err(&self) -> (r: Option<String>)
        ensures
            crate::graph::iterator::opt_text(r) == self.it.spec_err(),
            r is Some == self.it.spec_failed(),
        decreases self.height(), 0nat,
    {
        self.it.err()
    }

    pub fn tag_results(&self, dst: &mut TagMap)
        ensures
            self.it.tags_step(old(dst)@, final(dst)@),
        decreases self.height(), 0nat,
    {
        self.it.tag_results(dst)
    }

    pub fn close(&mut self) -> (r: Result<(), String>)
        ensures
            final(self).height() <= old(self).height(),
        decreases old(self).height(), 0nat,
    {
        self.it.close()
    }
}

} // verus!
