//! Skips a given number of results.
use vstd::prelude::*;
use crate::graph::refs::Ref;
use crate::graph::quad::QuadStore;
use crate::graph::iterator::{Shape, Scanner, Index};
use crate::graph::iterator::tags::TagMap;

verus! {

/// A shape with the results of `it` after the first `skip` ones.
pub struct Skip {
    pub skip: i64,
    pub it: Box<Shape>,
}

impl Skip {
    pub fn new(it: Shape, skip: i64) -> (r: Skip)
        ensures
            r.skip == skip,
            *r.it == it,
    {
        Skip { skip, it: Box::new(it) }
    }

    pub open spec fn height(&self) -> nat {
        1 + self.it.height()
    }

    pub fn iterate<Q: QuadStore>(&self, qs: &Q) -> (r: SkipNext)
        ensures
            r.wf(qs.quad_bound()),
            r.height() <= self.height(),
            r.rank() <= self.it.max_rank(qs.quad_bound()),
            r.skip == self.skip,
            r.skipped == 0,
            crate::graph::iterator::scans_as(*self.it, *r.it),
        decreases self, 0nat,
    {
        SkipNext { skip: self.skip, skipped: 0, it: Box::new(self.it.iterate(qs)) }
    }

    pub fn lookup<Q: QuadStore>(&self, qs: &Q) -> (r: SkipContains)
        ensures
            r.it.path_bound() <= self.it.max_path(qs.quad_bound()),
            r.wf(qs.quad_bound()),
            r.height() <= self.height(),
            r.skip == self.skip,
            r.skipped == 0,
            crate::graph::iterator::checks_as(*self.it, *r.it),
        decreases self, 0nat,
    {
        SkipContains { skip: self.skip, skipped: 0, it: Box::new(self.it.lookup(qs)) }
    }
}

/// Whether `n` successful steps of `next` lead from `a` to `b`.
pub open spec fn advanced(a: Scanner, b: Scanner, n: nat, qb: nat) -> bool
    decreases n,
{
    if n == 0 {
        a == b
    } else {
        exists|m: Scanner| #[trigger] a.next_step(m, true, qb) && advanced(m, b, (n - 1) as nat, qb)
    }
}

/// One more successful step extends a run of steps.
pub proof fn lemma_advanced_push(a: Scanner, m: Scanner, b: Scanner, n: nat, qb: nat)
    requires
        advanced(a, m, n, qb),
        m.next_step(b, true, qb),
    ensures
        advanced(a, b, n + 1, qb),
    decreases n,
{
    if n == 0 {
        assert(advanced(b, b, 0, qb));
    } else {
        let m1 = choose|m1: Scanner| #[trigger] a.next_step(m1, true, qb) && advanced(m1, m, (n - 1) as nat, qb);
        lemma_advanced_push(m1, m, b, (n - 1) as nat, qb);
        assert((n + 1 - 1) as nat == n);
    }
}

/// How many results are still to be passed over.
pub open spec fn to_skip(skip: i64, skipped: i64) -> nat {
    if skipped < skip { (skip - skipped) as nat } else { 0 }
}

/// Lists the results of the underlying scanner after the first `skip`
/// results and paths.
pub struct SkipNext {
    pub skip: i64,
    pub skipped: i64,
    pub it: Box<Scanner>,
}

impl SkipNext {
    pub open spec fn height(&self) -> nat {
        1 + self.it.height()
    }

    pub open spec fn wf(&self, qb: nat) -> bool {
        &&& self.it.wf(qb)
        &&& 0 <= self.skipped
        &&& (self.skipped <= self.skip || self.skipped == 0)
    }

    pub open spec fn rank(&self) -> nat {
        self.it.rank()
    }

    pub open spec fn path_rank(&self) -> nat {
        self.it.path_rank()
    }

    /// Passes over results until `skip` have been passed, then moves once more.
    pub fn next<Q: QuadStore>(&mut self, qs: &Q) -> (r: bool)
        requires
            old(self).wf(qs.quad_bound()),
        ensures
            final(self).wf(qs.quad_bound()),
            final(self).height() <= old(self).height(),
            r ==> final(self).rank() < old(self).rank(),
            !r ==> final(self).rank() <= old(self).rank(),
            final(self).skip == old(self).skip,
            r ==> final(self).skipped == (if old(self).skip > 0 { old(self).skip } else { 0 }),
            old(self).skipped >= old(self).skip ==> old(self).it.next_step(*final(self).it, r, qs.quad_bound()),
            exists|n: nat, m: Scanner| #[trigger] advanced(*old(self).it, m, n, qs.quad_bound())
                && m.next_step(*final(self).it, r, qs.quad_bound())
                && n <= to_skip(old(self).skip, old(self).skipped)
                && (r ==> n == to_skip(old(self).skip, old(self).skipped)),
        decreases old(self).height(), 0nat,
    {
        let qb = Ghost(qs.quad_bound());
        proof {
            assert(advanced(*self.it, *self.it, 0, qb@));
        }
        while self.skipped < self.skip
            invariant
                qb@ == qs.quad_bound(),
                self.wf(qb@),
                self.skip == old(self).skip,
                self.height() <= old(self).height(),
                self.rank() <= old(self).rank(),
                old(self).skipped >= old(self).skip ==> *self == *old(self),
                self.skipped >= old(self).skipped,
                old(self).skipped < old(self).skip ==> self.skipped <= self.skip,
                advanced(*old(self).it, *self.it, (self.skipped - old(self).skipped) as nat, qb@),
            decreases self.skip - self.skipped,
        {
            let ghost pre = *self.it;
            if !self.it.next(qs) {
                assert(advanced(*old(self).it, pre, (self.skipped - old(self).skipped) as nat, qb@));
                return false;
            }
            proof {
                lemma_advanced_push(*old(self).it, pre, *self.it, (self.skipped - old(self).skipped) as nat, qb@);
            }
            self.skipped = self.skipped + 1;
            assert((self.skipped - old(self).skipped) as nat == ((self.skipped - 1 - old(self).skipped) as nat) + 1);
        }
        let ghost pre = *self.it;
        let r = self.it.next(qs);
        assert(advanced(*old(self).it, pre, (self.skipped - old(self).skipped) as nat, qb@));
        r
    }

    /// Passes over paths until `skip` results and paths have been passed,
    /// then moves to one more path.
    pub fn next_path<Q: QuadStore>(&mut self, qs: &Q) -> (r: bool)
        requires
            old(self).wf(qs.quad_bound()),
        ensures
            final(self).wf(qs.quad_bound()),
            final(self).height() <= old(self).height(),
            final(self).rank() <= old(self).rank(),
            r ==> final(self).path_rank() < old(self).path_rank(),
            !r ==> final(self).path_rank() <= old(self).path_rank(),
            final(self).skip == old(self).skip,
            old(self).skipped >= old(self).skip ==> old(self).it.path_step(*final(self).it, r, qs.quad_bound()),
        decreases old(self).height(), 0nat,
    {
        let qb = Ghost(qs.quad_bound());
        while self.skipped < self.skip
            invariant
                qb@ == qs.quad_bound(),
                self.wf(qb@),
                self.skip == old(self).skip,
                self.height() <= old(self).height(),
                self.rank() <= old(self).rank(),
                self.path_rank() <= old(self).path_rank(),
                old(self).skipped >= old(self).skip ==> *self == *old(self),
            decreases self.skip - self.skipped,
        {
            if !self.it.next_path(qs) {
                return false;
            }
            self.skipped = self.skipped + 1;
        }
        self.it.next_path(qs)
    }

    pub fn result(&self) -> (r: Option<Ref>)
        ensures
            crate::graph::iterator::opt_ref_view(r) == self.it.spec_result(),
        decreases self.height(), 0nat,
    {
        self.it.result()
    }

    pub fn err(&self) -> (r: Option<String>)
        ensures
            crate::graph::iterator::opt_text(r) == self.it.spec_err(),
            r is Some == self.it.spec_failed(),
        decreases self.height(), 0nat,
    {
        self.it.err()
    }

    pub fn tag_results(&self, dst: &mut TagMap)
        ensures
            self.it.tags_step(old(dst)@, final(dst)@),
        decreases self.height(), 0nat,
    {
        self.it.tag_results(dst)
    }

    pub fn close(&mut self) -> (r: Result<(), String>)
        ensures
            final(self).height() <= old(self).height(),
        decreases old(self).height(), 0nat,
    {
        self.it.close()
    }
}

/// Accepts members of the underlying index once `skip` members and paths
/// have been passed over.
pub struct SkipContains {
    pub skip: i64,
    pub skipped: i128,
    pub it: Box<Index>,
}

impl SkipContains {
    /// A bound on `path_rank` that no operation changes.
    pub open spec fn path_bound(&self) -> nat {
        self.it.path_bound()
    }

    pub open spec fn height(&self) -> nat {
        1 + self.it.height()
    }

    pub open spec fn wf(&self, qb: nat) -> bool {
        &&& self.it.wf(qb)
        &&& 0 <= self.skipped
        &&& (self.skipped <= self.skip + 1 || self.skipped == 0)
    }

    pub open spec fn path_rank(&self) -> nat {
        self.it.path_rank()
    }

    /// While fewer than `skip` have been passed over, `val` and its paths
    /// are passed over; once past, a further path (or `val` itself) is the
    /// answer.
    pub fn contains<Q: QuadStore>(&mut self, qs: &Q, val: &Ref) -> (r: bool)
        requires
            old(self).wf(qs.quad_bound()),
        ensures
            final(self).path_bound() == old(self).path_bound(),
            final(self).wf(qs.quad_bound()),
            final(self).height() <= old(self).height(),
            final(self).skip == old(self).skip,
            final(self).skipped >= old(self).skipped,
            old(self).skipped > old(self).skip ==> final(self).skipped == old(self).skipped,
            old(self).skipped > old(self).skip ==> old(self).it.contains_step(*final(self).it, val@, r, qs.quad_bound()),
            old(self).skipped <= old(self).skip ==> exists|q: bool, m: Index| #[trigger] old(self).it.contains_step(m, val@, q, qs.quad_bound())
                && (!q ==> !r && final(self).skipped == old(self).skipped && *final(self).it == m)
                && (q ==> final(self).skipped > old(self).skipped),
            r ==> final(self).skipped > final(self).skip,
        decreases old(self).height(), 0nat,
    {
        let qb = Ghost(qs.quad_bound());
        let mut in_next_path = false;
        let ghost mut done = false;
        let ghost mut gm = *self.it;
        while self.skipped <= self.skip as i128
            invariant
                qb@ == qs.quad_bound(),
                self.wf(qb@),
                self.skip == old(self).skip,
                self.height() <= old(self).height(),
                self.path_bound() == old(self).path_bound(),
                self.skipped >= old(self).skipped,
                old(self).skipped > old(self).skip ==> self.skipped == old(self).skipped,
                old(self).skipped > old(self).skip ==> !in_next_path,
                old(self).skipped > old(self).skip ==> *self == *old(self),
                !done ==> *self == *old(self) && !in_next_path,
                done ==> self.skipped > self.skip && self.skipped > old(self).skipped
                    && old(self).it.contains_step(gm, val@, true, qb@),
            decreases self.skip + 1 - self.skipped,
        {
            in_next_path = false;
            if !self.it.contains(qs, val) {
                assert(old(self).it.contains_step(*self.it, val@, false, qb@));
                return false;
            }
            proof {
                gm = *self.it;
                done = true;
            }
            self.skipped = self.skipped + 1;
            if self.skipped <= self.skip as i128 {
                in_next_path = true;
                if !self.it.next_path(qs) {
                    return false;
                }
                self.skipped = self.skipped + 1;
                while self.skipped <= self.skip as i128
                    invariant
                        qb@ == qs.quad_bound(),
                        self.wf(qb@),
                        self.skip == old(self).skip,
                        self.height() <= old(self).height(),
                        self.path_bound() == old(self).path_bound(),
                        self.skipped >= old(self).skipped,
                        old(self).skipped <= old(self).skip,
                        self.skipped > old(self).skipped,
                        old(self).it.contains_step(gm, val@, true, qb@),
                    decreases self.skip + 1 - self.skipped,
                {
                    if !self.it.next_path(qs) {
                        return false;
                    }
                    self.skipped = self.skipped + 1;
                }
            }
        }
        if in_next_path && self.it.next_path(qs) {
            return true;
        }
        self.it.contains(qs, val)
    }

    /// Passes over paths until `skip` members and paths have been passed,
    /// then moves to one more path.
    pub fn next_path<Q: QuadStore>(&mut self, qs: &Q) -> (r: bool)
        requires
            old(self).wf(qs.quad_bound()),
        ensures
            final(self).path_bound() == old(self).path_bound(),
            final(self).wf(qs.quad_bound()),
            final(self).height() <= old(self).height(),
            r ==> final(self).path_rank() < old(self).path_rank(),
            !r ==> final(self).path_rank() <= old(self).path_rank(),
            final(self).skip == old(self).skip,
            old(self).skipped >= old(self).skip ==> old(self).it.path_step(*final(self).it, r, qs.quad_bound()),
        decreases old(self).height(), 0nat,
    {
        let qb = Ghost(qs.quad_bound());
        while self.skipped < self.skip as i128
            invariant
                qb@ == qs.quad_bound(),
                self.wf(qb@),
                self.skip == old(self).skip,
                self.height() <= old(self).height(),
                self.path_bound() == old(self).path_bound(),
                self.path_rank() <= old(self).path_rank(),
                old(self).skipped >= old(self).skip ==> *self == *old(self),
            decreases self.skip - self.skipped,
        {
            if !self.it.next_path(qs) {
                return false;
            }
            self.skipped = self.skipped + 1;
        }
        self.it.next_path(qs)
    }

    pub fn result(&self) -> (r: Option<Ref>)
        ensures
            crate::graph::iterator::opt_ref_view(r) == self.it.spec_result(),
        decreases self.height(), 0nat,
    {
        self.it.result()
    }

    pub fn err(&self) -> (r: Option<String>)
        ensures
            crate::graph::iterator::opt_text(r) == self.it.spec_err(),
            r is Some == self.it.spec_failed(),
        decreases self.height(), 0nat,
    {
        self.it.err()
    }

    pub fn tag_results(&self, dst: &mut TagMap)
        ensures
            self.it.tags_step(old(dst)@, final(dst)@),
        decreases self.height(), 0nat,
    {
        self.it.tag_results(dst)
    }

    pub fn close(&mut self) -> (r: Result<(), String>)
        ensures
            final(self).height() <= old(self).height(),
        decreases old(self).height(), 0nat,
    {
        self.it.close()
    }
}

} // verus!
