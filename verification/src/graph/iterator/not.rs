//! Complement: the results of an "all" iterator that another does not contain.
use vstd::prelude::*;
use crate::graph::refs::Ref;
use crate::graph::quad::QuadStore;
use crate::graph::iterator::{Shape, Scanner, Index, max_nat};
use crate::graph::iterator::tags::TagMap;
use crate::strutil::copy_string;

verus! {

/// The results of `all_it` that `primary` does not contain.
pub struct Not {
    pub primary: Box<Shape>,
    pub all_it: Box<Shape>,
}

impl Not {
    pub fn new(primary: Shape, all_it: Shape) -> (r: Not)
        ensures
            *r.primary == primary,
            *r.all_it == all_it,
    {
        Not { primary: Box::new(primary), all_it: Box::new(all_it) }
    }

    pub open spec fn height(&self) -> nat {
        1 + max_nat(self.primary.height(), self.all_it.height())
    }

    pub fn iterate<Q: QuadStore>(&self, qs: &Q) -> (r: NotNext)
        ensures
            r.wf(qs.quad_bound()),
            r.height() <= self.height(),
            r.rank() <= self.all_it.max_rank(qs.quad_bound()),
            r.result is None,
            crate::graph::iterator::checks_as(*self.primary, *r.primary_it),
            crate::graph::iterator::scans_as(*self.all_it, *r.all_it),
        decreases self, 0nat,
    {
        NotNext {
            primary_it: Box::new(self.primary.lookup(qs)),
            all_it: Box::new(self.all_it.iterate(qs)),
            result: None,
        }
    }

    /// Membership is checked against `primary` alone.
    pub fn lookup<Q: QuadStore>(&self, qs: &Q) -> (r: NotContains)
        ensures
            r.wf(qs.quad_bound()),
            r.height() <= self.height(),
            r.result is None,
            r.err is None,
            crate::graph::iterator::checks_as(*self.primary, *r.primary_it),
        decreases self, 0nat,
    {
        NotContains { primary_it: Box::new(self.primary.lookup(qs)), result: None, err: None }
    }
}

/// Lists the results of the "all" scanner that the primary index does not contain.
pub struct NotNext {
    pub primary_it: Box<Index>,
    pub all_it: Box<Scanner>,
    pub result: Option<Ref>,
}

impl NotNext {
    pub open spec fn height(&self) -> nat {
        1 + max_nat(self.primary_it.height(), self.all_it.height())
    }

    pub open spec fn wf(&self, qb: nat) -> bool {
        self.primary_it.wf(qb) && self.all_it.wf(qb)
    }

    pub open spec fn rank(&self) -> nat {
        self.all_it.rank()
    }

    pub fn next<Q: QuadStore>(&mut self, qs: &Q) -> (r: bool)
        requires
            old(self).wf(qs.quad_bound()),
        ensures
            final(self).wf(qs.quad_bound()),
            final(self).height() <= old(self).height(),
            r ==> final(self).rank() < old(self).rank(),
            !r ==> final(self).rank() <= old(self).rank(),
            r ==> final(self).result is Some,
            !r ==> final(self).result == old(self).result,
            r ==> crate::graph::iterator::opt_ref_view(final(self).result) == final(self).all_it.spec_result(),
            (*old(self).all_it is Null || *old(self).all_it is Error) ==> !r && *final(self) == *old(self),
            r ==> crate::graph::iterator::declined_below(*final(self).primary_it, final(self).result->0@, qs.quad_bound(), old(self).primary_it.height()),
            !r ==> crate::graph::iterator::ended_below(*final(self).all_it, qs.quad_bound(), old(self).all_it.height()),
            crate::graph::iterator::and::checked_step(*old(self).all_it, *old(self).primary_it, *final(self).all_it, *final(self).primary_it, r, true, qs.quad_bound()),
        decreases old(self).height(), 0nat,
    {
        let qb = Ghost(qs.quad_bound());
        let ghost mut n: nat = 0;
        proof {
            assert(crate::graph::iterator::and::checked_run(*old(self).all_it, *old(self).primary_it, *self.all_it, *self.primary_it, 0, true, qb@));
        }
        loop
            invariant
                qb@ == qs.quad_bound(),
                self.wf(qb@),
                self.height() <= old(self).height(),
                self.rank() <= old(self).rank(),
                self.result == old(self).result,
                (*old(self).all_it is Null || *old(self).all_it is Error) ==> *self == *old(self),
                self.all_it.height() <= old(self).all_it.height(),
                self.primary_it.height() <= old(self).primary_it.height(),
                crate::graph::iterator::and::checked_run(*old(self).all_it, *old(self).primary_it, *self.all_it, *self.primary_it, n, true, qb@),
            decreases self.rank(),
        {
            let ghost pre = *self.all_it;
            let ghost pre_p = *self.primary_it;
            if !self.all_it.next(qs) {
                assert(pre.height() <= old(self).all_it.height());
                assert(crate::graph::iterator::and::checked_run(*old(self).all_it, *old(self).primary_it, pre, pre_p, n, true, qb@));
                return false;
            }
            let curr = self.all_it.result();
            match curr {
                Some(c) => {
                    if !self.primary_it.contains(qs, &c) {
                        assert(crate::graph::iterator::and::checked_run(*old(self).all_it, *old(self).primary_it, pre, pre_p, n, true, qb@));
                        assert(pre_p.height() <= old(self).primary_it.height());
                        self.result = Some(c);
                        return true;
                    }
                    proof {
                        assert(pre_p.contains_step(*self.primary_it, self.all_it.spec_result()->0, true, qb@));
                        n = n + 1;
                        assert(crate::graph::iterator::and::checked_run(*old(self).all_it, *old(self).primary_it, *self.all_it, *self.primary_it, n, true, qb@));
                    }
                },
                None => {
                    proof {
                        n = n + 1;
                        assert(crate::graph::iterator::and::checked_run(*old(self).all_it, *old(self).primary_it, *self.all_it, *self.primary_it, n, true, qb@));
                    }
                },
            }
        }
    }

    /// A complement has one path per result.
    pub fn next_path<Q: QuadStore>(&mut self, qs: &Q) -> (r: bool)
        ensures
            !r,
            *final(self) == *old(self),
    {
        false
    }

    pub fn result(&self) -> (r: Option<Ref>)
        ensures
            match (r, self.result) {
                (Some(a), Some(b)) => a@ == b@,
                (None, None) => true,
                _ => false,
            },
    {
        match &self.result {
            Some(v) => Some(v.copy()),
            None => None,
        }
    }

    /// The error of the "all" scanner, else of the primary index.
    pub fn err(&self) -> (r: Option<String>)
        ensures
            crate::graph::iterator::opt_text(r) == (if self.all_it.spec_err() is Some { self.all_it.spec_err() } else { self.primary_it.spec_err() }),
            r is Some == (self.all_it.spec_failed() || self.primary_it.spec_failed()),
        decreases self.height(), 0nat,
    {
        let e = self.all_it.err();
        if e.is_some() {
            return e;
        }
        self.primary_it.err()
    }

    pub fn tag_results(&self, dst: &mut TagMap)
        ensures
            self.primary_it.tags_step(old(dst)@, final(dst)@),
        decreases self.height(), 0nat,
    {
        self.primary_it.tag_results(dst)
    }

    /// Closes both; the primary index's error comes first.
    pub fn close(&mut self) -> (r: Result<(), String>)
        ensures
            final(self).height() <= old(self).height(),
            exists|r1: Result<(), String>, r2: Result<(), String>|
                #[trigger] old(self).primary_it.close_step(*final(self).primary_it, r1)
                && #[trigger] old(self).all_it.close_step(*final(self).all_it, r2)
                && r == (if r1 is Err { r1 } else { r2 }),
        decreases old(self).height(), 0nat,
    {
        let e1 = self.primary_it.close();
        let e2 = self.all_it.close();
        if e1.is_err() {
            e1
        } else {
            e2
        }
    }
}

/// Accepts what the primary index does not contain.
pub struct NotContains {
    pub primary_it: Box<Index>,
    pub result: Option<Ref>,
    pub err: Option<String>,
}

impl NotContains {
    /// A bound on `path_rank` that no operation changes.
    pub open spec fn path_bound(&self) -> nat {
        0
    }

    pub open spec fn height(&self) -> nat {
        1 + self.primary_it.height()
    }

    pub open spec fn wf(&self, qb: nat) -> bool {
        self.primary_it.wf(qb)
    }

    /// True when the primary index does not contain `v` and reports no
    /// error; `v` then becomes the result.
    pub fn contains<Q: QuadStore>(&mut self, qs: &Q, v: &Ref) -> (r: bool)
        requires
            old(self).wf(qs.quad_bound()),
        ensures
            final(self).path_bound() == old(self).path_bound(),
            final(self).wf(qs.quad_bound()),
            final(self).height() <= old(self).height(),
            r ==> (final(self).result matches Some(x) && x@ == v@),
            r ==> final(self).err is None,
            !r ==> final(self).result == old(self).result,
            exists|q: bool| #[trigger] old(self).primary_it.contains_step(*final(self).primary_it, v@, q, qs.quad_bound())
                && r == (!q && !final(self).primary_it.spec_failed()),
        decreases old(self).height(), 0nat,
    {
        if self.primary_it.contains(qs, v) {
            return false;
        }
        self.err = self.primary_it.err();
        if self.err.is_some() {
            return false;
        }
        self.result = Some(v.copy());
        true
    }

    pub fn next_path<Q: QuadStore>(&mut self, qs: &Q) -> (r: bool)
        ensures
            final(self).path_bound() == old(self).path_bound(),
            !r,
            *final(self) == *old(self),
    {
        false
    }

    pub fn result(&self) -> (r: Option<Ref>)
        ensures
            match (r, self.result) {
                (Some(a), Some(b)) => a@ == b@,
                (None, None) => true,
                _ => false,
            },
    {
        match &self.result {
            Some(v) => Some(v.copy()),
            None => None,
        }
    }

    pub fn err(&self) -> (r: Option<String>)
        ensures
            crate::graph::iterator::opt_text(r) == crate::graph::iterator::opt_text(self.err),
            match (r, self.err) {
                (Some(a), Some(b)) => a@ == b@,
                (None, None) => true,
                _ => false,
            },
    {
        match &self.err {
            Some(e) => Some(copy_string(e)),
            None => None,
        }
    }

    pub fn tag_results(&self, dst: &mut TagMap)
        ensures
            self.primary_it.tags_step(old(dst)@, final(dst)@),
        decreases self.height(), 0nat,
    {
        self.primary_it.tag_results(dst)
    }

    pub fn close(&mut self) -> (r: Result<(), String>)
        ensures
            final(self).height() <= old(self).height(),
        decreases old(self).height(), 0nat,
    {
        self.primary_it.close()
    }
}

} // verus!
