//! The quads of an in-memory store with a value in a direction, by id.
use vstd::prelude::*;
use crate::graph::refs::{Ref, RefV, ContentV, Size, len_as_i64, spec_len_as_i64};
use crate::graph::value::{Value, ValueV, value_of_i64};
use crate::graph::quad::Direction;
use crate::graph::iterator::Costs;
use crate::graph::iterator::tags::TagMap;
use crate::graph::memstore::quadstore::strictly_increasing;

verus! {

/// The thresholds `ceil(e^k)` for k = 1, 2, ...: a count `n` has natural
/// logarithm at least `k` when it is at least the k-th threshold.
pub open spec fn ln_thresholds() -> Seq<i64> {
    seq![
        3i64, 8, 21, 55, 149, 404, 1097, 2981, 8104, 22027, 59875, 162755, 442414, 1202605, 3269018,
        8886111, 24154953, 65659970, 178482301, 485165196, 1318815735, 3584912847, 9744803447,
        26489122130, 72004899338, 195729609429, 532048240602, 1446257064292, 3931334297145,
        10686474581525, 29048849665248, 78962960182681, 214643579785917, 583461742527455,
        1586013452313431, 4311231547115196, 11719142372802612, 31855931757113757,
        86593400423993747, 235385266837019986, 639843493530054950, 1739274941520501048,
        4727839468229346562
    ]
}

/// The number of thresholds among the first `k` that `n` reaches.
pub open spec fn thresholds_reached(n: i64, k: int) -> int
    decreases k,
{
    if k <= 0 {
        0
    } else {
        thresholds_reached(n, k - 1) + if ln_thresholds()[k - 1] <= n { 1int } else { 0int }
    }
}

/// The natural logarithm of a positive count, rounded down; the least
/// `i64` for zero (and below).
pub open spec fn floor_ln(n: i64) -> i64 {
    if n <= 0 {
        i64::MIN
    } else {
        thresholds_reached(n, 43) as i64
    }
}

/// The natural logarithm of `n`, rounded down (the least `i64` when `n`
/// is not positive).
pub fn int_ln(n: i64) -> (r: i64)
    ensures
        r == floor_ln(n),
{
    if n <= 0 {
        return i64::MIN;
    }
    let t: [i64; 43] = [
        3i64, 8, 21, 55, 149, 404, 1097, 2981, 8104, 22027, 59875, 162755, 442414, 1202605, 3269018,
        8886111, 24154953, 65659970, 178482301, 485165196, 1318815735, 3584912847, 9744803447,
        26489122130, 72004899338, 195729609429, 532048240602, 1446257064292, 3931334297145,
        10686474581525, 29048849665248, 78962960182681, 214643579785917, 583461742527455,
        1586013452313431, 4311231547115196, 11719142372802612, 31855931757113757,
        86593400423993747, 235385266837019986, 639843493530054950, 1739274941520501048,
        4727839468229346562,
    ];
    proof {
        assert(t@ =~= ln_thresholds());
    }
    let mut c: i64 = 0;
    let mut k: usize = 0;
    while k < 43
        invariant
            k <= 43,
            t@ == ln_thresholds(),
            c == thresholds_reached(n, k as int),
            0 <= c <= k,
        decreases 43 - k,
    {
        if t[k] <= n {
            c = c + 1;
        }
        k = k + 1;
    }
    c
}

/// The id a reference holds as its key, if its key is an integer that
/// fits an `i64`.
pub open spec fn key_id(r: RefV) -> Option<i64> {
    match r.k {
        ValueV::Number(n) => crate::graph::value::number_as_i64(n),
        _ => None,
    }
}

/// The reference to an id of the store.
pub open spec fn id_ref(i: i64) -> RefV {
    RefV { k: value_of_i64(i), content: ContentV::Empty }
}

pub fn make_id_ref(i: i64) -> (r: Ref)
    ensures
        r@ == id_ref(i),
{
    Ref { k: Value::from_i64(i), content: crate::graph::refs::Content::Empty }
}

/// The quads with a value in direction `d`, by their ids in increasing order.
pub struct MemStoreIterator {
    pub quad_ids: Vec<i64>,
    pub d: Direction,
}

impl MemStoreIterator {
    pub fn new(quad_ids: Vec<i64>, d: Direction) -> (r: MemStoreIterator)
        ensures
            r.quad_ids@ == quad_ids@,
            r.d == d,
    {
        MemStoreIterator { quad_ids, d }
    }

    /// A check costs the logarithm of the number of quads, plus one; a step
    /// costs one. The size is the number of quads, exactly.
    pub fn stats(&self) -> (r: Costs)
        ensures
            r.next_cost == 1,
            r.contains_cost == crate::arith::clamp_i64(floor_ln(spec_len_as_i64(self.quad_ids@.len())) + 1),
            r.size == (Size { value: spec_len_as_i64(self.quad_ids@.len()), exact: true }),
    {
        let n = len_as_i64(self.quad_ids.len());
        Costs { contains_cost: crate::arith::sat_add(int_ln(n), 1), next_cost: 1, size: Size { value: n, exact: true } }
    }

    pub fn iterate(&self) -> (r: MemStoreIteratorNext)
        ensures
            r.quad_ids@ == self.quad_ids@,
            r.pos == 0,
            r.cur is None,
    {
        MemStoreIteratorNext::new(self.quad_ids.clone(), self.d)
    }

    pub fn lookup(&self) -> (r: MemStoreIteratorContains)
        ensures
            r.quad_ids@ == self.quad_ids@,
            r.cur is None,
    {
        MemStoreIteratorContains::new(self.quad_ids.clone(), self.d)
    }
}

/// Lists the quads, by id, in order.
pub struct MemStoreIteratorNext {
    pub quad_ids: Vec<i64>,
    pub d: Direction,
    pub pos: usize,
    pub cur: Option<i64>,
    pub done: bool,
}

impl MemStoreIteratorNext {
    /// A walk over the quads `quad_ids`, in direction `d`, not started.
    pub fn new(quad_ids: Vec<i64>, d: Direction) -> (r: MemStoreIteratorNext)
        ensures
            r.quad_ids == quad_ids,
            r.d == d,
            r.pos == 0,
            r.cur is None,
            !r.done,
    {
        MemStoreIteratorNext { quad_ids, d, pos: 0, cur: None, done: false }
    }

    pub open spec fn wf(&self) -> bool {
        self.pos <= self.quad_ids@.len()
    }

    pub open spec fn rank(&self) -> nat {
        (self.quad_ids@.len() - self.pos) as nat
    }

    /// Moves to the next id; when there is none, there is no current quad.
    pub fn next(&mut self) -> (r: bool)
        requires
            old(self).wf(),
        ensures
            final(self).wf(),
            final(self).quad_ids == old(self).quad_ids,
            r == (old(self).pos < old(self).quad_ids@.len()),
            r ==> final(self).pos == old(self).pos + 1 && final(self).cur == Some(old(self).quad_ids@[old(self).pos as int]),
            !r ==> final(self).cur is None && final(self).pos == old(self).pos,
    {
        if self.pos < self.quad_ids.len() {
            self.cur = Some(self.quad_ids[self.pos]);
            self.pos = self.pos + 1;
            true
        } else {
            self.cur = None;
            self.done = true;
            false
        }
    }

    pub fn next_path(&mut self) -> (r: bool)
        ensures
            !r,
            *final(self) == *old(self),
    {
        false
    }

    /// The current quad, as a reference to its id.
    pub fn result(&self) -> (r: Option<Ref>)
        ensures
            match (r, self.cur) {
                (Some(a), Some(i)) => a@ == id_ref(i),
                (None, None) => true,
                _ => false,
            },
    {
        match self.cur {
            Some(c) => Some(make_id_ref(c)),
            None => None,
        }
    }

    pub fn err(&self) -> (r: Option<String>)
        ensures
            r is None,
    {
        None
    }

    pub fn tag_results(&self, dst: &mut TagMap)
        ensures
            *final(dst) == *old(dst),
    {
    }

    pub fn close(&mut self) -> (r: Result<(), String>)
        ensures
            r is Ok,
            *final(self) == *old(self),
    {
        Ok(())
    }
}

/// Checks whether a reference is to one of the quads.
pub struct MemStoreIteratorContains {
    pub quad_ids: Vec<i64>,
    pub d: Direction,
    pub cur: Option<i64>,
}

impl MemStoreIteratorContains {
    /// A check against the quads `quad_ids`, in direction `d`, with no
    /// current quad.
    pub fn new(quad_ids: Vec<i64>, d: Direction) -> (r: MemStoreIteratorContains)
        ensures
            r.quad_ids == quad_ids,
            r.d == d,
            r.cur is None,
    {
        MemStoreIteratorContains { quad_ids, d, cur: None }
    }

    /// Whether the key of `v` is the id of one of the quads; that id becomes
    /// the current one (and there is none when it is not).
    pub fn contains(&mut self, v: &Ref) -> (r: bool)
        ensures
            final(self).quad_ids == old(self).quad_ids,
            r == (key_id(v@) matches Some(i) && old(self).quad_ids@.contains(i)),
            r ==> final(self).cur == key_id(v@),
            !r && key_id(v@) is Some ==> final(self).cur is None,
    {
        match v.k.as_i64() {
            Some(i) => {
                let mut p: usize = 0;
                while p < self.quad_ids.len()
                    invariant
                        p <= self.quad_ids@.len(),
                        self.quad_ids == old(self).quad_ids,
                        key_id(v@) == Some(i),
                        forall|j: int| 0 <= j < p ==> #[trigger] self.quad_ids@[j] != i,
                    decreases self.quad_ids@.len() - p,
                {
                    if self.quad_ids[p] == i {
                        self.cur = Some(i);
                        proof {
                            assert(self.quad_ids@[p as int] == i);
                        }
                        return true;
                    }
                    p = p + 1;
                }
                self.cur = None;
                false
            },
            None => false,
        }
    }

    pub fn next_path(&mut self) -> (r: bool)
        ensures
            !r,
            *final(self) == *old(self),
    {
        false
    }

    pub fn result(&self) -> (r: Option<Ref>)
        ensures
            match (r, self.cur) {
                (Some(a), Some(i)) => a@ == id_ref(i),
                (None, None) => true,
                _ => false,
            },
    {
        match self.cur {
            Some(c) => Some(make_id_ref(c)),
            None => None,
        }
    }

    pub fn err(&self) -> (r: Option<String>)
        ensures
            r is None,
    {
        None
    }

    pub fn tag_results(&self, dst: &mut TagMap)
        ensures
            *final(dst) == *old(dst),
    {
    }

    pub fn close(&mut self) -> (r: Result<(), String>)
        ensures
            r is Ok,
            *final(self) == *old(self),
    {
        Ok(())
    }
}

} // verus!
