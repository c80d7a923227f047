//! Drops results whose key has been listed before.
use vstd::prelude::*;
use crate::graph::refs::{Ref, ref_key};
use crate::graph::value::{Value, ValueV};
use crate::graph::quad::QuadStore;
use crate::graph::iterator::{Shape, Scanner, Index};
use crate::graph::iterator::tags::TagMap;
use crate::graph::iterator::recursive::passed_over;
use crate::strutil::copy_string;

verus! {

/// The views of a list of values.
pub open spec fn values_view(s: Seq<Value>) -> Seq<ValueV> {
    s.map_values(|v: Value| v@)
}

/// Whether `v` equals some value of `seen`.
fn seen_contains(seen: &Vec<Value>, v: &Value) -> (r: bool)
    ensures
        r == values_view(seen@).contains(v@),
{
    let mut i: usize = 0;
    while i < seen.len()
        invariant
            i <= seen.len(),
            forall|j: int| 0 <= j < i ==> (#[trigger] seen@[j])@ != v@,
        decreases seen.len() - i,
    {
        if seen[i].equals(v) {
            proof {
                assert(values_view(seen@)[i as int] == v@);
            }
            return true;
        }
        i = i + 1;
    }
    proof {
        if values_view(seen@).contains(v@) {
            let k = choose|k: int| 0 <= k < values_view(seen@).len() && values_view(seen@)[k] == v@;
            assert(seen@[k]@ == v@);
        }
    }
    false
}

/// The results of `it`, each key listed once.
pub struct Unique {
    pub it: Box<Shape>,
}

impl Unique {
    pub fn new(it: Shape) -> (r: Unique)
        ensures
            *r.it == it,
    {
        Unique { it: Box::new(it) }
    }

    pub open spec fn height(&self) -> nat {
        1 + self.it.height()
    }

    pub fn iterate<Q: QuadStore>(&self, qs: &Q) -> (r: UniqueNext)
        ensures
            r.wf(qs.quad_bound()),
            r.height() <= self.height(),
            r.rank() <= self.it.max_rank(qs.quad_bound()),
            r.seen@.len() == 0,
            r.result is None,
            crate::graph::iterator::scans_as(*self.it, *r.it),
        decreases self, 0nat,
    {
        UniqueNext { it: Box::new(self.it.iterate(qs)), result: None, err: None, seen: Vec::new() }
    }

    /// Membership is that of `it`.
    pub fn lookup<Q: QuadStore>(&self, qs: &Q) -> (r: UniqueContains)
        ensures
            r.wf(qs.quad_bound()),
            r.height() <= self.height(),
            crate::graph::iterator::checks_as(*self.it, *r.it),
        decreases self, 0nat,
    {
        UniqueContains { it: Box::new(self.it.lookup(qs)) }
    }
}

/// Lists the results of the underlying scanner whose key has not been listed.
pub struct UniqueNext {
    pub it: Box<Scanner>,
    pub result: Option<Ref>,
    pub err: Option<String>,
    pub seen: Vec<Value>,
}

impl UniqueNext {
    pub open spec fn height(&self) -> nat {
        1 + self.it.height()
    }

    pub open spec fn wf(&self, qb: nat) -> bool {
        self.it.wf(qb)
    }

    pub open spec fn rank(&self) -> nat {
        self.it.rank()
    }

    /// Moves the underlying scanner to the next result with a key not seen
    /// yet, and records the key; the keys listed never repeat.
    pub fn next<Q: QuadStore>(&mut self, qs: &Q) -> (r: bool)
        requires
            old(self).wf(qs.quad_bound()),
        ensures
            final(self).wf(qs.quad_bound()),
            final(self).height() <= old(self).height(),
            r ==> final(self).rank() < old(self).rank(),
            !r ==> final(self).rank() <= old(self).rank(),
            r ==> (final(self).result matches Some(v) && ref_key(v@) matches Some(k)
                && !values_view(old(self).seen@).contains(k)
                && values_view(final(self).seen@) == values_view(old(self).seen@).push(k)),
            !r ==> final(self).seen@ == old(self).seen@,
            r ==> crate::graph::iterator::opt_ref_view(final(self).result) == final(self).it.spec_result(),
            !r ==> (final(self).err is Some == final(self).it.spec_failed()),
            !r ==> crate::graph::iterator::ended_below(*final(self).it, qs.quad_bound(), old(self).it.height()),
            exists|m: Scanner, n: nat| #[trigger] passed_over(*old(self).it, m, n, values_view(old(self).seen@), qs.quad_bound())
                && m.next_step(*final(self).it, r, qs.quad_bound()),
        decreases old(self).height(), 0nat,
    {
        let qb = Ghost(qs.quad_bound());
        let ghost mut n: nat = 0;
        proof {
            assert(passed_over(*self.it, *self.it, 0, values_view(old(self).seen@), qb@));
        }
        loop
            invariant
                qb@ == qs.quad_bound(),
                self.wf(qb@),
                self.height() <= old(self).height(),
                self.rank() <= old(self).rank(),
                self.seen@ == old(self).seen@,
                passed_over(*old(self).it, *self.it, n, values_view(old(self).seen@), qb@),
            decreases self.rank(),
        {
            let ghost pre = *self.it;
            if !self.it.next(qs) {
                self.err = self.it.err();
                assert(passed_over(*old(self).it, pre, n, values_view(old(self).seen@), qb@));
                return false;
            }
            let curr = self.it.result();
            match curr {
                Some(c) => {
                    match c.key() {
                        Some(k) => {
                            if !seen_contains(&self.seen, k) {
                                let kc = k.copy();
                                let ghost kg = kc@;
                                self.seen.push(kc);
                                proof {
                                    assert(values_view(self.seen@) =~= values_view(old(self).seen@).push(kg));
                                }
                                self.result = Some(c);
                                assert(passed_over(*old(self).it, pre, n, values_view(old(self).seen@), qb@));
                                return true;
                            }
                        },
                        None => {},
                    }
                },
                None => {},
            }
            proof {
                n = n + 1;
                assert(passed_over(*old(self).it, *self.it, n, values_view(old(self).seen@), qb@));
            }
        }
    }

    /// A de-duplicated result has one path.
    pub fn next_path<Q: QuadStore>(&mut self, qs: &Q) -> (r: bool)
        ensures
            !r,
            *final(self) == *old(self),
    {
        false
    }

    pub fn result(&self) -> (r: Option<Ref>)
        ensures
            match (r, self.result) {
                (Some(a), Some(b)) => a@ == b@,
                (None, None) => true,
                _ => false,
            },
    {
        match &self.result {
            Some(v) => Some(v.copy()),
            None => None,
        }
    }

    pub fn err(&self) -> (r: Option<String>)
        ensures
            crate::graph::iterator::opt_text(r) == crate::graph::iterator::opt_text(self.err),
            match (r, self.err) {
                (Some(a), Some(b)) => a@ == b@,
                (None, None) => true,
                _ => false,
            },
    {
        match &self.err {
            Some(e) => Some(copy_string(e)),
            None => None,
        }
    }

    pub fn tag_results(&self, dst: &mut TagMap)
        ensures
            self.it.tags_step(old(dst)@, final(dst)@),
        decreases self.height(), 0nat,
    {
        self.it.tag_results(dst)
    }

    /// Forgets the keys seen, and closes the underlying scanner.
    pub fn close(&mut self) -> (r: Result<(), String>)
        ensures
            final(self).height() <= old(self).height(),
            final(self).seen@.len() == 0,
        decreases old(self).height(), 0nat,
    {
        self.seen = Vec::new();
        self.it.close()
    }
}

/// Checks membership in the underlying index.
pub struct UniqueContains {
    pub it: Box<Index>,
}

impl UniqueContains {
    /// A bound on `path_rank` that no operation changes.
    pub open spec fn path_bound(&self) -> nat {
        0
    }

    pub open spec fn height(&self) -> nat {
        1 + self.it.height()
    }

    pub open spec fn wf(&self, qb: nat) -> bool {
        self.it.wf(qb)
    }

    pub fn contains<Q: QuadStore>(&mut self, qs: &Q, v: &Ref) -> (r: bool)
        requires
            old(self).wf(qs.quad_bound()),
        ensures
            final(self).path_bound() == old(self).path_bound(),
            final(self).wf(qs.quad_bound()),
            final(self).height() <= old(self).height(),
            old(self).it.contains_step(*final(self).it, v@, r, qs.quad_bound()),
        decreases old(self).height(), 0nat,
    {
        self.it.contains(qs, v)
    }

    pub fn next_path<Q: QuadStore>(&mut self, qs: &Q) -> (r: bool)
        ensures
            final(self).path_bound() == old(self).path_bound(),
            !r,
            *final(self) == *old(self),
    {
        false
    }

    pub fn result(&self) -> (r: Option<Ref>)
        ensures
            crate::graph::iterator::opt_ref_view(r) == self.it.spec_result(),
        decreases self.height(), 0nat,
    {
        self.it.result()
    }

    pub fn err(&self) -> (r: Option<String>)
        ensures
            crate::graph::iterator::opt_text(r) == self.it.spec_err(),
            r is Some == self.it.spec_failed(),
        decreases self.height(), 0nat,
    {
        self.it.err()
    }

    pub fn tag_results(&self, dst: &mut TagMap)
        ensures
            self.it.tags_step(old(dst)@, final(dst)@),
        decreases self.height(), 0nat,
    {
        self.it.tag_results(dst)
    }

    pub fn close(&mut self) -> (r: Result<(), String>)
        ensures
            final(self).height() <= old(self).height(),
        decreases old(self).height(), 0nat,
    {
        self.it.close()
    }
}

} // verus!
