//! A single result: the number of results (and paths) of another iterator.
use vstd::prelude::*;
use crate::graph::refs::{Ref, pre_fetched, spec_pre_fetched};
use crate::graph::value::{Value, ValueV, number_of_i64, value_of_i64};
use crate::graph::refs::ContentV;
use crate::graph::quad::QuadStore;
use crate::graph::iterator::{Shape, Scanner, Costs, scans_as};
use crate::arith::clamp_i64;
use crate::graph::iterator::costs::count_costs;
use crate::graph::iterator::tags::TagMap;
use crate::arith::sat_add;

verus! {

/// Whether `k` successful steps of `next_path` lead from `a` to `b`.
pub open spec fn paths_advanced(a: Scanner, b: Scanner, k: nat, qb: nat) -> bool
    decreases k,
{
    if k == 0 {
        a == b
    } else {
        exists|m: Scanner| #[trigger] m.path_step(b, true, qb) && paths_advanced(a, m, (k - 1) as nat, qb)
    }
}

/// Whether a walk from `a` that moves to each result and then through each
/// further path of it reaches `b`, where the paths of its last result ran
/// out, having met `n` results and paths.
pub open spec fn counted_walk(a: Scanner, b: Scanner, n: nat, qb: nat) -> bool
    decreases n,
{
    if n == 0 {
        a == b
    } else {
        exists|m: Scanner, x: Scanner, y: Scanner, k: nat|
            #![trigger m.next_step(x, true, qb), paths_advanced(x, y, k, qb), y.path_step(b, false, qb)]
            k < n && counted_walk(a, m, (n - 1 - k) as nat, qb) && m.next_step(x, true, qb)
                && paths_advanced(x, y, k, qb) && y.path_step(b, false, qb)
    }
}

/// One more successful step of `next_path` extends a run of them.
pub proof fn lemma_paths_advanced_push(a: Scanner, m: Scanner, b: Scanner, k: nat, qb: nat)
    requires
        paths_advanced(a, m, k, qb),
        m.path_step(b, true, qb),
    ensures
        paths_advanced(a, b, k + 1, qb),
{
    assert((k + 1 - 1) as nat == k);
}

/// One result, the number of results of `it`. When `use_namer` is set,
/// membership of a reference without a value is checked by the name the
/// store gives it.
pub struct Count {
    pub it: Box<Shape>,
    pub use_namer: bool,
}

/// Whether two optional values are equal.
pub fn opt_value_eq(a: &Option<Value>, b: &Option<Value>) -> (r: bool)
    ensures
        r == (match (a, b) {
            (Some(x), Some(y)) => x@ == y@,
            (None, None) => true,
            _ => false,
        }),
{
    match (a, b) {
        (Some(x), Some(y)) => x.equals(y),
        (None, None) => true,
        _ => false,
    }
}

impl Count {
    pub fn new(it: Shape, use_namer: bool) -> (r: Count)
        ensures
            *r.it == it,
            r.use_namer == use_namer,
    {
        Count { it: Box::new(it), use_namer }
    }

    pub open spec fn height(&self) -> nat {
        2 + self.it.height()
    }

    /// One result, listed at the cost of a full walk unless the size is exact.
    pub fn stats<Q: QuadStore>(&self, qs: &Q) -> (r: Result<Costs, String>)
        ensures
            r is Ok,
            crate::graph::iterator::known_costs(*self.it) matches Some(x) ==> r == Ok::<Costs, String>(crate::graph::iterator::costs::count_costs_spec(Some(x))),
        decreases self, 2nat,
    {
        let sub = match self.it.stats(qs) {
            Ok(c) => Some(c),
            Err(_) => None,
        };
        Ok(count_costs(sub))
    }

    pub fn iterate<Q: QuadStore>(&self, qs: &Q) -> (r: CountNext)
        ensures
            r.height() < self.height(),
            !r.done,
            r.result is None,
        decreases self, 0nat,
    {
        CountNext { it: Box::new(self.it.copy()), done: false, result: None, err: None }
    }

    pub fn lookup<Q: QuadStore>(&self, qs: &Q) -> (r: CountContains)
        ensures
            r.height() <= self.height(),
            !r.it.done,
            r.use_namer == self.use_namer,
        decreases self, 0nat,
    {
        CountContains { it: self.iterate(qs), use_namer: self.use_namer }
    }
}

/// Lists the count once.
pub struct CountNext {
    pub it: Box<Shape>,
    pub done: bool,
    pub result: Option<Value>,
    pub err: Option<String>,
}

impl CountNext {
    pub open spec fn height(&self) -> nat {
        1 + self.it.height()
    }

    pub open spec fn rank(&self) -> nat {
        if self.done { 0 } else { 1 }
    }

    /// The first call computes the count: the exact size of the shape when
    /// its estimate is exact, else the number of results and paths that a
    /// walk over it lists (stopping at the largest `i64`). Later calls list
    /// nothing. An error of the cost estimate is kept, and nothing is listed.
    pub fn next<Q: QuadStore>(&mut self, qs: &Q) -> (r: bool)
        ensures
            final(self).height() <= old(self).height(),
            r ==> final(self).rank() < old(self).rank(),
            !r ==> final(self).rank() <= old(self).rank(),
            final(self).it == old(self).it,
            old(self).done ==> !r && final(self).result == old(self).result,
            r ==> final(self).done && (final(self).result matches Some(v) && v@ is Number),
            !old(self).done ==> r == final(self).done,
            !old(self).done && !r ==> final(self).err is Some,
            !old(self).done && crate::graph::iterator::known_costs(*old(self).it) is Some ==> r,
            !old(self).done ==> (crate::graph::iterator::known_costs(*old(self).it) matches Some(c)
                ==> (c.size.exact ==> (final(self).result matches Some(v) && v@ == value_of_i64(c.size.value)))),
            !old(self).done ==> (crate::graph::iterator::known_costs(*old(self).it) matches Some(c)
                ==> (!c.size.exact ==> exists|s0: Scanner, m: Scanner, e: Scanner, n: nat|
                    #![trigger counted_walk(s0, m, n, qs.quad_bound()), m.next_step(e, false, qs.quad_bound())]
                    scans_as(*old(self).it, s0) && counted_walk(s0, m, n, qs.quad_bound())
                    && m.next_step(e, false, qs.quad_bound())
                    && (final(self).result matches Some(v) && v@ == value_of_i64(clamp_i64(n as int) as i64)))),
        decreases old(self).height(), 0nat,
    {
        if self.done {
            return false;
        }
        let st = self.it.stats(qs);
        let mut size: i64 = match st {
            Err(e) => {
                self.err = Some(e);
                return false;
            },
            Ok(c) => c.size.value,
        };
        let exact = match &st {
            Ok(c) => c.size.exact,
            Err(_) => true,
        };
        let ghost mut s0 = Scanner::Null(crate::graph::iterator::Null {});
        let ghost mut m = s0;
        let ghost mut e = s0;
        let ghost mut n: nat = 0;
        if !exact {
            let mut sit = self.it.iterate(qs);
            let qb = Ghost(qs.quad_bound());
            size = 0;
            proof {
                s0 = sit;
                assert(counted_walk(s0, sit, 0, qb@));
            }
            loop
                invariant_except_break
                    counted_walk(s0, sit, n, qb@),
                invariant
                    qb@ == qs.quad_bound(),
                    sit.wf(qb@),
                    sit.height() <= self.it.height(),
                    self.it == old(self).it,
                    scans_as(*self.it, s0),
                    size == clamp_i64(n as int),
                ensures
                    scans_as(*self.it, s0),
                    self.it == old(self).it,
                    counted_walk(s0, m, n, qb@),
                    m.next_step(e, false, qb@),
                    size == clamp_i64(n as int),
                decreases sit.rank(),
            {
                let ghost pre = sit;
                if !sit.next(qs) {
                    proof {
                        m = pre;
                        e = sit;
                    }
                    break;
                }
                size = sat_add(size, 1);
                let ghost x = sit;
                let ghost mut k: nat = 0;
                proof {
                    assert(paths_advanced(x, sit, 0, qb@));
                }
                let ghost r0 = sit.rank();
                loop
                    invariant_except_break
                        paths_advanced(x, sit, k, qb@),
                    invariant
                        qb@ == qs.quad_bound(),
                        sit.wf(qb@),
                        sit.height() <= self.it.height(),
                        self.it == old(self).it,
                        sit.rank() <= r0,
                        pre.next_step(x, true, qb@),
                        counted_walk(s0, pre, n, qb@),
                        size == clamp_i64((n + 1 + k) as int),
                    ensures
                        sit.wf(qb@),
                        sit.height() <= self.it.height(),
                        self.it == old(self).it,
                        sit.rank() <= r0,
                        counted_walk(s0, sit, n + 1 + k, qb@),
                        size == clamp_i64((n + 1 + k) as int),
                    decreases sit.path_rank(),
                {
                    let ghost y = sit;
                    if !sit.next_path(qs) {
                        assert(counted_walk(s0, sit, (n + 1 + k) as nat, qb@)) by {
                            assert((n + 1 + k - 1 - k) as nat == n);
                        }
                        break;
                    }
                    size = sat_add(size, 1);
                    proof {
                        lemma_paths_advanced_push(x, y, sit, k, qb@);
                        k = k + 1;
                    }
                }
                proof {
                    n = n + 1 + k;
                }
            }
            self.err = sit.err();
            let _ = sit.close();
        }
        self.result = Some(Value::from_i64(size));
        self.done = true;
        true
    }

    /// A count has one path.
    pub fn next_path<Q: QuadStore>(&mut self, qs: &Q) -> (r: bool)
        ensures
            !r,
            *final(self) == *old(self),
    {
        false
    }

    /// The count, as a reference that carries it.
    pub fn result(&self) -> (r: Option<Ref>)
        ensures
            match (r, self.result) {
                (Some(a), Some(v)) => a@ == spec_pre_fetched(v@),
                (None, None) => true,
                _ => false,
            },
    {
        match &self.result {
            Some(v) => Some(pre_fetched(v.copy())),
            None => None,
        }
    }

    /// A count reports no error: a failed estimate shows as a count that
    /// lists nothing.
    pub fn err(&self) -> (r: Option<String>)
        ensures
            r is None,
    {
        None
    }

    pub fn tag_results(&self, dst: &mut TagMap)
        ensures
            *final(dst) == *old(dst),
    {
    }

    pub fn close(&mut self) -> (r: Result<(), String>)
        ensures
            r is Ok,
            *final(self) == *old(self),
    {
        Ok(())
    }
}

/// Checks a reference against the count.
pub struct CountContains {
    pub it: CountNext,
    pub use_namer: bool,
}

impl CountContains {
    /// A bound on `path_rank` that no operation changes.
    pub open spec fn path_bound(&self) -> nat {
        0
    }

    pub open spec fn height(&self) -> nat {
        1 + self.it.height()
    }

    /// Computes the count if not done yet; then a reference that carries a
    /// value matches when the value is the count, and another one, when
    /// `use_namer` is set, when the store names it by the count.
    pub fn contains<Q: QuadStore>(&mut self, qs: &Q, v: &Ref) -> (r: bool)
        ensures
            final(self).path_bound() == old(self).path_bound(),
            final(self).height() <= old(self).height(),
            final(self).use_namer == old(self).use_namer,
            !final(self).use_namer && !(v@.content is Value) ==> !r,
            v@.content matches ContentV::Value(x) ==> r == (final(self).it.result matches Some(o) && x == o@),
            old(self).it.done ==> final(self).it == old(self).it,
            final(self).it.done || final(self).it.err is Some,
            final(self).use_namer && !(v@.content is Value) ==> r == (match (qs.spec_name_of(v@), final(self).it.result) {
                (Some(x), Some(y)) => x == y@,
                (None, None) => true,
                _ => false,
            }),
            final(self).it.it == old(self).it.it,
            !old(self).it.done ==> (crate::graph::iterator::known_costs(*old(self).it.it) matches Some(c)
                ==> (c.size.exact ==> (final(self).it.result matches Some(w) && w@ == value_of_i64(c.size.value)))),
        decreases old(self).height(), 0nat,
    {
        if !self.it.done {
            self.it.next(qs);
        }
        if v.has_value() {
            return v.content.eq_value(&self.it.result);
        }
        if self.use_namer {
            let n = qs.name_of(v);
            return opt_value_eq(&n, &self.it.result);
        }
        false
    }

    pub fn next_path<Q: QuadStore>(&mut self, qs: &Q) -> (r: bool)
        ensures
            final(self).path_bound() == old(self).path_bound(),
            !r,
            *final(self) == *old(self),
    {
        false
    }

    pub fn result(&self) -> (r: Option<Ref>)
        ensures
            match (r, self.it.result) {
                (Some(a), Some(v)) => a@ == spec_pre_fetched(v@),
                (None, None) => true,
                _ => false,
            },
    {
        self.it.result()
    }

    pub fn err(&self) -> (r: Option<String>)
        ensures
            r is None,
    {
        self.it.err()
    }

    pub fn tag_results(&self, dst: &mut TagMap)
        ensures
            *final(dst) == *old(dst),
    {
    }

    pub fn close(&mut self) -> (r: Result<(), String>)
        ensures
            r is Ok,
            *final(self) == *old(self),
    {
        Ok(())
    }
}

} // verus!
