//! Lists the results of another iterator from memory, after one full walk.
use vstd::prelude::*;
use crate::graph::refs::{Ref, RefV, ref_key};
use crate::graph::value::ValueV;
use crate::graph::iterator::fixed::refs_view;
use crate::graph::value::Value;
use crate::graph::quad::QuadStore;
use crate::graph::iterator::{Shape, Scanner, Index, Costs, max_nat};
use crate::graph::iterator::costs::materialize_costs;
use crate::graph::iterator::tags::TagMap;
use crate::graph::iterator::unique::values_view;
use crate::graph::iterator::count::{paths_advanced, lemma_paths_advanced_push};
use crate::strutil::copy_string;

verus! {

/// The number of results and paths beyond which a walk gives up on
/// keeping them in memory.
pub const MATERIALIZE_LIMIT: i32 = 1000;

/// One path to a result: the result and its tags.
pub struct MaterializeResult {
    pub id: Ref,
    pub tags: TagMap,
}

impl MaterializeResult {
    pub fn copy(&self) -> (r: MaterializeResult)
        ensures
            r.id@ == self.id@,
            r.tags@ == self.tags@,
    {
        MaterializeResult { id: self.id.copy(), tags: self.tags.copy() }
    }
}

/// Each gathered result is filed under its own key.
pub open spec fn filed_by_key(keys: Seq<Value>, values: Seq<Vec<MaterializeResult>>) -> bool {
    forall|a: int, b: int| 0 <= a < values.len() && 0 <= b < values[a]@.len()
        ==> ref_key((#[trigger] values[a]@[b]).id@) == Some(keys[a]@)
}

/// The position of `v` in `keys`, if any.
/// The distinct keys of the references of `s` that have one, in the order
/// in which they first occur.
pub open spec fn first_keys(s: Seq<RefV>) -> Seq<ValueV>
    decreases s.len(),
{
    if s.len() == 0 {
        Seq::empty()
    } else {
        let p = first_keys(s.drop_last());
        match ref_key(s.last()) {
            Some(k) => if p.contains(k) { p } else { p.push(k) },
            None => p,
        }
    }
}

/// Whether the scanner stands at a result that has a key.
pub open spec fn at_keyed(sc: Scanner) -> bool {
    sc.spec_result() matches Some(v) && ref_key(v) is Some
}

/// Whether a walk from `a` that moves to each result and, for a result
/// with a key, through its further paths until `next_path` answers false,
/// reaches `b` after `n` rounds, having met `count` results and paths, and
/// the results with a key `ids`, in order.
pub open spec fn kept_walk(a: Scanner, b: Scanner, ids: Seq<RefV>, count: nat, n: nat, qb: nat) -> bool
    decreases n,
{
    if n == 0 {
        a == b && count == 0 && ids.len() == 0
    } else {
        exists|m: Scanner, x: Scanner| #[trigger] m.next_step(x, true, qb)
            && (at_keyed(x) ==> exists|y: Scanner, k: nat| #[trigger] paths_advanced(x, y, k, qb)
                && y.path_step(b, false, qb) && count >= 1 + k
                && ids.len() > 0 && ids.last() == x.spec_result()->0
                && kept_walk(a, m, ids.drop_last(), (count - 1 - k) as nat, (n - 1) as nat, qb))
            && (!at_keyed(x) ==> b == x && count >= 1 && kept_walk(a, m, ids, (count - 1) as nat, (n - 1) as nat, qb))
    }
}

/// Whether a walk from `a`, as `kept_walk` describes it, meets its
/// `count`-th result or path in the middle of a round.
pub open spec fn walk_meets(a: Scanner, count: nat, qb: nat) -> bool {
    exists|m: Scanner, x: Scanner, ids: Seq<RefV>, c: nat, n: nat|
        #![trigger kept_walk(a, m, ids, c, n, qb), m.next_step(x, true, qb)]
        kept_walk(a, m, ids, c, n, qb) && m.next_step(x, true, qb)
        && (c + 1 == count || (at_keyed(x) && exists|y: Scanner, k: nat| #[trigger] paths_advanced(x, y, k, qb)
            && c + 1 + k == count))
}

/// Whether the walk over `sc`, started at `start`, has gathered the keys
/// `keys`: for a fixed list, the distinct keys of its values from the
/// start up to the current position.
pub open spec fn fixed_keys_gathered(start: Scanner, sc: Scanner, keys: Seq<ValueV>) -> bool {
    start matches Scanner::Fixed(f) ==> sc matches Scanner::Fixed(n) && n.values == f.values
        && f.ind <= n.ind <= n.values@.len()
        && keys == first_keys(refs_view(f.values@).subrange(f.ind as int, n.ind as int))
}

pub fn key_position(keys: &Vec<Value>, v: &Value) -> (r: Option<usize>)
    ensures
        match r {
            Some(i) => i < keys@.len() && keys@[i as int]@ == v@,
            None => !values_view(keys@).contains(v@),
        },
{
    let mut i: usize = 0;
    while i < keys.len()
        invariant
            i <= keys.len(),
            forall|j: int| 0 <= j < i ==> (#[trigger] keys@[j])@ != v@,
        decreases keys.len() - i,
    {
        if keys[i].equals(v) {
            return Some(i);
        }
        i = i + 1;
    }
    proof {
        if values_view(keys@).contains(v@) {
            let k = choose|k: int| 0 <= k < values_view(keys@).len() && values_view(keys@)[k] == v@;
            assert(keys@[k]@ == v@);
        }
    }
    None
}

/// The results of `sub`, gathered in memory by key. `expected_size`, when
/// positive, is the expected number of results.
pub struct Materialize {
    pub sub: Box<Shape>,
    pub expected_size: i64,
}

impl Materialize {
    pub fn new(sub: Shape) -> (r: Materialize)
        ensures
            *r.sub == sub,
            r.expected_size == 0,
    {
        Materialize { sub: Box::new(sub), expected_size: 0 }
    }

    pub fn new_with_size(sub: Shape, size: i64) -> (r: Materialize)
        ensures
            *r.sub == sub,
            r.expected_size == size,
    {
        Materialize { sub: Box::new(sub), expected_size: size }
    }

    pub open spec fn height(&self) -> nat {
        2 + self.sub.height()
    }

    pub fn stats<Q: QuadStore>(&self, qs: &Q) -> (r: Result<Costs, String>)
        ensures
            crate::graph::iterator::known_costs(*self.sub) matches Some(x) ==> r == Ok::<Costs, String>(crate::graph::iterator::costs::materialize_costs_spec(x, self.expected_size)),
        decreases self, 2nat,
    {
        let c = self.sub.stats(qs)?;
        Ok(materialize_costs(c, self.expected_size))
    }

    pub fn iterate<Q: QuadStore>(&self, qs: &Q) -> (r: MaterializeNext)
        ensures
            r.wf(qs.quad_bound()),
            r.height() < self.height(),
            r.rank() <= self.sub.max_rank(qs.quad_bound()) + 1,
            !r.has_run,
            r.height() == 1 + self.sub.height(),
            forall|q: nat| #[trigger] r.sub.max_path(q) == self.sub.max_path(q),
        decreases self, 0nat,
    {
        let sub = self.sub.copy();
        let next = self.sub.iterate(qs);
        let ghost bound = self.sub.max_rank(qs.quad_bound());
        MaterializeNext {
            sub: Box::new(sub),
            next: Box::new(next),
            keys: Vec::new(),
            values: Vec::new(),
            index: None,
            sub_index: 0,
            has_run: false,
            aborted: false,
            err: None,
            bound: Ghost(bound),
        }
    }

    pub fn lookup<Q: QuadStore>(&self, qs: &Q) -> (r: MaterializeContains)
        ensures
            r.wf(qs.quad_bound()),
            r.height() <= self.height(),
            !r.next.has_run,
            r.path_bound() <= Shape::Materialize(*self).max_path(qs.quad_bound()),
        decreases self, 1nat,
    {
        MaterializeContains { next: self.iterate(qs), sub: None, qb: Ghost(qs.quad_bound()) }
    }
}

/// Lists, by key, the results gathered from a walk of `next`; when the walk
/// was given up, lists those of a new walk of `sub` instead.
pub struct MaterializeNext {
    pub sub: Box<Shape>,
    pub next: Box<Scanner>,
    pub keys: Vec<Value>,
    pub values: Vec<Vec<MaterializeResult>>,
    pub index: Option<usize>,
    pub sub_index: usize,
    pub has_run: bool,
    pub aborted: bool,
    pub err: Option<String>,
    /// A bound on the number of results of a walk of `sub`.
    pub bound: Ghost<nat>,
}

impl MaterializeNext {
    pub open spec fn height(&self) -> nat {
        1 + max_nat(self.sub.height(), self.next.height())
    }

    pub open spec fn wf(&self, qb: nat) -> bool {
        &&& self.next.wf(qb)
        &&& self.next.height() <= self.sub.height()
        &&& self.keys@.len() == self.values@.len()
        &&& forall|i: int| 0 <= i < self.values@.len() ==> (#[trigger] self.values@[i])@.len() > 0
        &&& self.index matches Some(i) ==> i <= self.values@.len()
        &&& self.index matches Some(i) ==> (i < self.values@.len() ==> self.sub_index < self.values@[i as int]@.len())
        &&& self.sub.max_rank(qb) <= self.bound@
        &&& !self.has_run ==> self.next.rank() <= self.bound@ && self.values@.len() == 0 && self.index is None
        &&& self.aborted ==> self.has_run
        &&& self.values@.len() <= self.bound@
        &&& forall|i: int| 0 <= i < self.values@.len() ==> (#[trigger] self.values@[i])@.len() <= MATERIALIZE_LIMIT + 1
    }

    pub open spec fn rank(&self) -> nat {
        if !self.has_run {
            self.bound@ + 1
        } else if self.aborted {
            self.next.rank()
        } else {
            match self.index {
                None => self.values@.len(),
                Some(i) => if i + 1 <= self.values@.len() { (self.values@.len() - i - 1) as nat } else { 0 },
            }
        }
    }

    pub open spec fn path_rank(&self) -> nat {
        if !self.has_run {
            0
        } else if self.aborted {
            self.next.path_rank()
        } else {
            match self.index {
                Some(i) => if i < self.values@.len() && self.sub_index + 1 <= self.values@[i as int]@.len() {
                    (self.values@[i as int]@.len() - self.sub_index - 1) as nat
                } else {
                    0
                },
                None => 0,
            }
        }
    }

    /// Walks `next`, gathering every result and path, with its tags, under
    /// its key (results without a key are dropped). Past
    /// `MATERIALIZE_LIMIT` results and paths the walk is given up: unless
    /// the walk met an error, what was gathered is dropped and a new walk of
    /// `sub` takes the place of `next`.
    pub fn materialize_set<Q: QuadStore>(&mut self, qs: &Q)
        requires
            old(self).wf(qs.quad_bound()),
            !old(self).has_run,
        ensures
            final(self).wf(qs.quad_bound()),
            final(self).has_run,
            final(self).height() == old(self).height(),
            final(self).sub == old(self).sub,
            final(self).bound == old(self).bound,
            final(self).index is None,
            final(self).rank() < old(self).rank(),
            values_view(final(self).keys@).no_duplicates(),
            filed_by_key(final(self).keys@, final(self).values@),
            final(self).aborted && final(self).err is None ==> final(self).values@.len() == 0,
            !final(self).aborted ==> crate::graph::iterator::ended_below(*final(self).next, qs.quad_bound(), old(self).next.height()),
            *old(self).next matches Scanner::Fixed(f) ==> (!final(self).aborted
                ==> values_view(final(self).keys@) == first_keys(refs_view(f.values@).skip(f.ind as int))),
            !final(self).aborted ==> (final(self).err is Some == final(self).next.spec_failed()),
            final(self).err is Some ==> final(self).next.spec_failed(),
            !final(self).aborted || final(self).err is Some ==> crate::graph::iterator::opt_text(final(self).err) == final(self).next.spec_err(),
            !final(self).aborted ==> exists|m: Scanner, ids: Seq<RefV>, c: nat, n: nat| #[trigger] kept_walk(*old(self).next, m, ids, c, n, qs.quad_bound())
                && c <= MATERIALIZE_LIMIT && m.next_step(*final(self).next, false, qs.quad_bound())
                && values_view(final(self).keys@) == first_keys(ids),
            final(self).aborted ==> walk_meets(*old(self).next, (MATERIALIZE_LIMIT + 1) as nat, qs.quad_bound()),
        decreases old(self).next.height(), 2nat,
    {
        let qb = Ghost(qs.quad_bound());
        let ghost r0 = self.next.rank();
        proof {
            assert(values_view(self.keys@) =~= Seq::<crate::graph::value::ValueV>::empty());
        }
        let mut i: i32 = 0;
        let ghost mut n: nat = 0;
        let ghost mut wm = *self.next;
        let ghost mut ids: Seq<RefV> = Seq::empty();
        proof {
            assert(kept_walk(*old(self).next, *self.next, ids, 0, 0, qb@));
            assert(first_keys(ids) =~= values_view(self.keys@));
        }
        loop
            invariant_except_break
                !self.aborted ==> kept_walk(*old(self).next, *self.next, ids, i as nat, n, qb@),
                !self.aborted ==> values_view(self.keys@) == first_keys(ids),
            invariant
                self.aborted ==> walk_meets(*old(self).next, i as nat, qb@) && i == MATERIALIZE_LIMIT + 1,
                qb@ == qs.quad_bound(),
                self.next.wf(qb@),
                self.next.height() <= self.sub.height(),
                self.next.height() <= old(self).next.height(),
                self.sub == old(self).sub,
                self.bound == old(self).bound,
                self.sub.max_rank(qb@) <= self.bound@,
                r0 <= self.bound@,
                !self.has_run,
                0 <= i <= MATERIALIZE_LIMIT + 1,
                !self.aborted ==> i <= MATERIALIZE_LIMIT,
                self.index is None,
                !self.aborted ==> fixed_keys_gathered(*old(self).next, *self.next, values_view(self.keys@)),
                self.keys@.len() == self.values@.len(),
                forall|j: int| 0 <= j < self.values@.len() ==> (#[trigger] self.values@[j])@.len() > 0,
                self.values@.len() + self.next.rank() <= r0,
                forall|j: int| 0 <= j < self.values@.len() ==> (#[trigger] self.values@[j])@.len() <= i,
                values_view(self.keys@).no_duplicates(),
                filed_by_key(self.keys@, self.values@),
            ensures
                qb@ == qs.quad_bound(),
                self.next.wf(qb@),
                self.next.height() <= self.sub.height(),
                self.next.height() <= old(self).next.height(),
                self.sub == old(self).sub,
                self.bound == old(self).bound,
                self.sub.max_rank(qb@) <= self.bound@,
                r0 <= self.bound@,
                !self.has_run,
                0 <= i <= MATERIALIZE_LIMIT + 1,
                !self.aborted ==> i <= MATERIALIZE_LIMIT,
                self.index is None,
                !self.aborted ==> fixed_keys_gathered(*old(self).next, *self.next, values_view(self.keys@)),
                self.keys@.len() == self.values@.len(),
                forall|j: int| 0 <= j < self.values@.len() ==> (#[trigger] self.values@[j])@.len() > 0,
                self.values@.len() + self.next.rank() <= r0,
                forall|j: int| 0 <= j < self.values@.len() ==> (#[trigger] self.values@[j])@.len() <= i,
                values_view(self.keys@).no_duplicates(),
                filed_by_key(self.keys@, self.values@),
                !self.aborted ==> crate::graph::iterator::ended_below(*self.next, qb@, old(self).next.height()),
                self.aborted ==> walk_meets(*old(self).next, i as nat, qb@) && i == MATERIALIZE_LIMIT + 1,
                !self.aborted ==> kept_walk(*old(self).next, wm, ids, i as nat, n, qb@) && wm.next_step(*self.next, false, qb@)
                    && values_view(self.keys@) == first_keys(ids),
            decreases self.next.rank(),
        {
            if self.aborted {
                break;
            }
            let ghost pre = *self.next;
            let ghost c0 = i as nat;
            if !self.next.next(qs) {
                assert(pre.height() <= old(self).next.height());
                proof {
                    wm = pre;
                }
                break;
            }
            let ghost x = *self.next;
            i = i + 1;
            if i > MATERIALIZE_LIMIT {
                self.aborted = true;
                assert(kept_walk(*old(self).next, pre, ids, c0, n, qb@) && pre.next_step(x, true, qb@) && c0 + 1 == i as nat);
                break;
            }
            let ghost keys0 = values_view(self.keys@);
            proof {
                if *old(self).next is Fixed {
                    let f = old(self).next->Fixed_0;
                    let n = self.next->Fixed_0;
                    let vs = refs_view(f.values@);
                    assert(vs.subrange(f.ind as int, n.ind as int).drop_last() =~= vs.subrange(f.ind as int, n.ind - 1));
                    assert(vs.subrange(f.ind as int, n.ind as int).last() == f.values@[n.ind - 1]@);
                }
            }
            let id = self.next.result();
            match id {
                Some(id) => {
                    match id.key() {
                        Some(v) => {
                            let pos = match key_position(&self.keys, v) {
                                Some(p) => {
                                    proof {
                                        assert(values_view(self.keys@)[p as int] == v@);
                                    }
                                    p
                                },
                                None => {
                                    let ghost before = values_view(self.keys@);
                                    self.keys.push(v.copy());
                                    self.values.push(Vec::new());
                                    proof {
                                        assert(values_view(self.keys@) =~= before.push(v@));
                                    }
                                    self.values.len() - 1
                                },
                            };
                            proof {
                                if *old(self).next is Fixed {
                                    let f = old(self).next->Fixed_0;
                                    let n = self.next->Fixed_0;
                                    assert(id@ == f.values@[n.ind - 1]@);
                                    assert(values_view(self.keys@) == first_keys(refs_view(f.values@).subrange(f.ind as int, n.ind as int)));
                                }
                            }
                            proof {
                                assert(ids.push(x.spec_result()->0).drop_last() =~= ids);
                                assert(values_view(self.keys@) == first_keys(ids.push(x.spec_result()->0)));
                            }
                            let mut tags = TagMap::new();
                            self.next.tag_results(&mut tags);
                            let mut bucket: Vec<MaterializeResult> = Vec::new();
                            std::mem::swap(&mut bucket, &mut self.values[pos]);
                            bucket.push(MaterializeResult { id: id.copy(), tags });
                            self.values.set(pos, bucket);
                            let ghost r1 = self.next.rank();
                            let ghost mut k: nat = 0;
                            proof {
                                assert(paths_advanced(x, *self.next, 0, qb@));
                            }
                            loop
                                invariant_except_break
                                    !self.aborted ==> paths_advanced(x, *self.next, k, qb@),
                                    !self.aborted,
                                invariant
                                    kept_walk(*old(self).next, pre, ids, c0, n, qb@),
                                    pre.next_step(x, true, qb@),
                                    at_keyed(x),
                                    i == c0 + 1 + k,
                                    self.aborted ==> walk_meets(*old(self).next, i as nat, qb@) && i == MATERIALIZE_LIMIT + 1,
                                    qb@ == qs.quad_bound(),
                                    self.next.wf(qb@),
                                    self.next.height() <= self.sub.height(),
                                    self.next.height() <= old(self).next.height(),
                                    self.sub == old(self).sub,
                                    self.bound == old(self).bound,
                                    !self.has_run,
                                    0 <= i <= MATERIALIZE_LIMIT + 1,
                                    !self.aborted ==> i <= MATERIALIZE_LIMIT,
                                    self.index is None,
                                    pos < self.values@.len(),
                                    self.keys@.len() == self.values@.len(),
                                    forall|j: int| 0 <= j < self.values@.len() ==> (#[trigger] self.values@[j])@.len() > 0,
                                    self.values@.len() + r1 <= r0,
                                    self.next.rank() <= r1,
                                    forall|j: int| 0 <= j < self.values@.len() ==> (#[trigger] self.values@[j])@.len() <= i,
                                    values_view(self.keys@).no_duplicates(),
                                    filed_by_key(self.keys@, self.values@),
                                    ref_key(id@) == Some(self.keys@[pos as int]@),
                                    values_view(self.keys@) == first_keys(ids.push(x.spec_result()->0)),
                                    !self.aborted ==> fixed_keys_gathered(*old(self).next, *self.next, values_view(self.keys@)),
                                ensures
                                    kept_walk(*old(self).next, pre, ids, c0, n, qb@),
                                    pre.next_step(x, true, qb@),
                                    at_keyed(x),
                                    i == c0 + 1 + k,
                                    self.aborted ==> walk_meets(*old(self).next, i as nat, qb@) && i == MATERIALIZE_LIMIT + 1,
                                    qb@ == qs.quad_bound(),
                                    self.next.wf(qb@),
                                    self.next.height() <= self.sub.height(),
                                    self.next.height() <= old(self).next.height(),
                                    self.sub == old(self).sub,
                                    self.bound == old(self).bound,
                                    !self.has_run,
                                    0 <= i <= MATERIALIZE_LIMIT + 1,
                                    !self.aborted ==> i <= MATERIALIZE_LIMIT,
                                    self.index is None,
                                    pos < self.values@.len(),
                                    self.keys@.len() == self.values@.len(),
                                    forall|j: int| 0 <= j < self.values@.len() ==> (#[trigger] self.values@[j])@.len() > 0,
                                    self.values@.len() + r1 <= r0,
                                    self.next.rank() <= r1,
                                    forall|j: int| 0 <= j < self.values@.len() ==> (#[trigger] self.values@[j])@.len() <= i,
                                    values_view(self.keys@).no_duplicates(),
                                    filed_by_key(self.keys@, self.values@),
                                    ref_key(id@) == Some(self.keys@[pos as int]@),
                                    values_view(self.keys@) == first_keys(ids.push(x.spec_result()->0)),
                                    !self.aborted ==> fixed_keys_gathered(*old(self).next, *self.next, values_view(self.keys@)),
                                    !self.aborted ==> kept_walk(*old(self).next, *self.next, ids.push(x.spec_result()->0), i as nat, (n + 1) as nat, qb@),
                                decreases self.next.path_rank(),
                            {
                                if self.aborted {
                                    break;
                                }
                                let ghost py = *self.next;
                                if !self.next.next_path(qs) {
                                    proof {
                                        assert(kept_walk(*old(self).next, *self.next, ids.push(x.spec_result()->0), (c0 + 1 + k) as nat, (n + 1) as nat, qb@)) by {
                                            assert(paths_advanced(x, py, k, qb@) && py.path_step(*self.next, false, qb@));
                                            assert((c0 + 1 + k - 1 - k) as nat == c0);
                                            assert(ids.push(x.spec_result()->0).drop_last() =~= ids);
                                        }
                                    }
                                    break;
                                }
                                proof {
                                    lemma_paths_advanced_push(x, py, *self.next, k, qb@);
                                    k = k + 1;
                                }
                                i = i + 1;
                                if i > MATERIALIZE_LIMIT {
                                    self.aborted = true;
                                    assert(paths_advanced(x, *self.next, k, qb@) && c0 + 1 + k == i as nat);
                                    break;
                                }
                                let mut tags = TagMap::new();
                                self.next.tag_results(&mut tags);
                                let mut bucket: Vec<MaterializeResult> = Vec::new();
                                std::mem::swap(&mut bucket, &mut self.values[pos]);
                                bucket.push(MaterializeResult { id: id.copy(), tags });
                                self.values.set(pos, bucket);
                            }
                            if self.aborted {
                                break;
                            }
                            proof {
                                n = n + 1;
                                ids = ids.push(x.spec_result()->0);
                            }
                        },
                        None => {
                            proof {
                                assert(!at_keyed(x));
                                assert(kept_walk(*old(self).next, *self.next, ids, i as nat, (n + 1) as nat, qb@));
                                n = n + 1;
                            }
                        },
                    }
                },
                None => {
                    proof {
                        assert(!at_keyed(x));
                        assert(kept_walk(*old(self).next, *self.next, ids, i as nat, (n + 1) as nat, qb@));
                        n = n + 1;
                    }
                },
            }
        }
        proof {
            if *old(self).next is Fixed && !self.aborted {
                crate::graph::iterator::lemma_ended_below(*self.next, qb@, old(self).next.height());
                crate::graph::iterator::lemma_ended_fixed(*self.next, qb@);
                let f = old(self).next->Fixed_0;
                assert(refs_view(f.values@).subrange(f.ind as int, f.values@.len() as int) =~= refs_view(f.values@).skip(f.ind as int));
            }
        }
        self.err = self.next.err();
        if self.err.is_none() && self.aborted {
            self.values = Vec::new();
            self.keys = Vec::new();
            let _ = self.next.close();
            self.next = Box::new(self.sub.iterate(qs));
        }
        self.has_run = true;
    }

    /// The position of the key after `index` (the first one at the start).
    pub open spec fn next_key_index(index: Option<usize>) -> int {
        match index {
            None => 0,
            Some(i) => i + 1,
        }
    }

    /// Moves to the next key gathered (or, after a walk given up, to the
    /// next result of the new walk). The first call runs the walk.
    pub fn next<Q: QuadStore>(&mut self, qs: &Q) -> (r: bool)
        requires
            old(self).wf(qs.quad_bound()),
        ensures
            final(self).wf(qs.quad_bound()),
            final(self).height() <= old(self).height(),
            r ==> final(self).rank() < old(self).rank(),
            !r ==> final(self).rank() <= old(self).rank(),
            final(self).has_run,
            r && !final(self).aborted ==> (final(self).index matches Some(i) && i < final(self).values@.len()
                && final(self).sub_index == 0),
            r && !final(self).aborted ==> Scanner::Materialize(*final(self)).spec_result()
                == Some(final(self).values@[final(self).index->0 as int]@[0].id@),
            old(self).has_run && old(self).err is Some ==> !r && *final(self) == *old(self),
            old(self).has_run && old(self).err is None && !old(self).aborted ==> (r <==> Self::next_key_index(old(self).index) < old(self).values@.len())
                && final(self).keys == old(self).keys && final(self).values == old(self).values
                && final(self).aborted == old(self).aborted
                && (r ==> final(self).index == Some(Self::next_key_index(old(self).index) as usize)),
            old(self).has_run && old(self).err is None && old(self).aborted
                ==> old(self).next.next_step(*final(self).next, r, qs.quad_bound())
                && final(self).err is Some == final(self).next.spec_failed()
                && crate::graph::iterator::opt_text(final(self).err) == final(self).next.spec_err(),
            !old(self).has_run && !final(self).aborted ==> crate::graph::iterator::ended_below(*final(self).next, qs.quad_bound(), old(self).next.height()),
            !old(self).has_run ==> (*old(self).next matches Scanner::Fixed(f) ==> (!final(self).aborted
                ==> values_view(final(self).keys@) == first_keys(refs_view(f.values@).skip(f.ind as int)))),
            !old(self).has_run && !final(self).aborted ==> (r <==> final(self).err is None && final(self).values@.len() > 0),
        decreases old(self).height(), 0nat,
    {
        if !self.has_run {
            self.materialize_set(qs);
        }
        if self.err.is_some() {
            return false;
        }
        if self.aborted {
            let n = self.next.next(qs);
            self.err = self.next.err();
            return n;
        }
        let i: usize = match self.index {
            None => 0,
            Some(i) => {
                if i >= self.values.len() {
                    return false;
                }
                i + 1
            },
        };
        self.index = Some(i);
        self.sub_index = 0;
        i < self.values.len()
    }

    /// Moves to the next path of the current key. Before any walk, the
    /// walk is run and there is no path.
    pub fn next_path<Q: QuadStore>(&mut self, qs: &Q) -> (r: bool)
        requires
            old(self).wf(qs.quad_bound()),
        ensures
            final(self).sub == old(self).sub,
            final(self).aborted == old(self).aborted,
            final(self).has_run == old(self).has_run,
            final(self).wf(qs.quad_bound()),
            final(self).height() <= old(self).height(),
            final(self).rank() <= old(self).rank(),
            r ==> final(self).path_rank() < old(self).path_rank(),
            !r ==> final(self).path_rank() <= old(self).path_rank(),
            !old(self).has_run || old(self).err is Some ==> !r && *final(self) == *old(self),
            old(self).has_run && old(self).err is None && old(self).aborted
                ==> old(self).next.path_step(*final(self).next, r, qs.quad_bound()),
            old(self).has_run && old(self).err is None && !old(self).aborted ==> (r <==> (old(self).index matches Some(i)
                && i < old(self).values@.len() && old(self).sub_index + 1 < old(self).values@[i as int]@.len()))
                && (r ==> final(self).sub_index == old(self).sub_index + 1 && final(self).index == old(self).index)
                && (!r ==> *final(self) == *old(self)),
        decreases old(self).height(), 0nat,
    {
        if !self.has_run {
            return false;
        }
        if self.err.is_some() {
            return false;
        }
        if self.aborted {
            return self.next.next_path(qs);
        }
        match self.index {
            Some(i) => {
                if i < self.values.len() && self.sub_index < self.values[i].len() - 1 {
                    self.sub_index = self.sub_index + 1;
                    true
                } else {
                    false
                }
            },
            None => false,
        }
    }

    /// The result at the current key and path (that of the new walk, after
    /// a walk given up).
    pub fn result(&self) -> (r: Option<Ref>)
        ensures
            crate::graph::iterator::opt_ref_view(r) == Scanner::Materialize(*self).spec_result(),
        decreases self.height(), 0nat,
    {
        if self.aborted {
            return self.next.result();
        }
        match self.index {
            Some(i) => {
                if i < self.values.len() && self.sub_index < self.values[i].len() {
                    Some(self.values[i][self.sub_index].id.copy())
                } else {
                    None
                }
            },
            None => None,
        }
    }

    pub fn err(&self) -> (r: Option<String>)
        ensures
            crate::graph::iterator::opt_text(r) == crate::graph::iterator::opt_text(self.err),
            r is Some == self.err is Some,
    {
        match &self.err {
            Some(e) => Some(copy_string(e)),
            None => None,
        }
    }

    /// Once the walk has run, nothing is added; before, the tags of the
    /// current path, if any.
    pub fn tag_results(&self, dst: &mut TagMap)
        ensures
            self.has_run ==> *final(dst) == *old(dst),
            !self.has_run && !self.aborted ==> final(dst)@ == (match self.index {
                Some(i) => if i < self.values@.len() && self.sub_index < self.values@[i as int]@.len() {
                    old(dst)@.union_prefer_right(self.values@[i as int]@[self.sub_index as int].tags@)
                } else {
                    old(dst)@
                },
                None => old(dst)@,
            }),
        decreases self.height(), 0nat,
    {
        if self.has_run {
            return;
        }
        if self.aborted {
            self.next.tag_results(dst);
        }
        match self.index {
            Some(i) => {
                if i < self.values.len() && self.sub_index < self.values[i].len() {
                    dst.extend(&self.values[i][self.sub_index].tags);
                }
            },
            None => {},
        }
    }

    /// What closing `self`, leaving `after` and answering `r`, does: the
    /// gathered keys and values are dropped, the walk is to be made again,
    /// and the scanner over the results is closed.
    pub open spec fn close_step(self, after: MaterializeNext, r: Result<(), String>) -> bool {
        &&& after.height() <= self.height()
        &&& after.values@.len() == 0
        &&& after.keys@.len() == 0
        &&& !after.has_run
        &&& self.next.close_step(*after.next, r)
    }

    /// Drops what was gathered, so that the next call walks again.
    pub fn close(&mut self) -> (r: Result<(), String>)
        ensures
            old(self).close_step(*final(self), r),
        decreases old(self).height(), 0nat,
    {
        self.values = Vec::new();
        self.keys = Vec::new();
        self.has_run = false;
        self.next.close()
    }
}

/// Checks membership among the keys gathered from a walk; after a walk given
/// up, against an index over `sub` instead.
pub struct MaterializeContains {
    pub next: MaterializeNext,
    pub sub: Option<Box<Index>>,
    /// The bound on quad iterator sizes of the store it was made for.
    pub qb: Ghost<nat>,
}

impl MaterializeContains {
    pub open spec fn height(&self) -> nat {
        1 + max_nat(self.next.height(), match self.sub { Some(s) => s.height(), None => 0 })
    }

    pub open spec fn wf(&self, qb: nat) -> bool {
        &&& self.next.wf(qb)
        &&& self.sub matches Some(s) ==> s.wf(qb) && s.height() <= self.next.sub.height()
            && s.path_bound() <= self.next.sub.max_path(self.qb@)
        &&& self.sub is Some ==> self.next.has_run
        &&& self.next.aborted ==> self.sub is Some
        &&& self.qb@ == qb
    }

    pub open spec fn path_bound(&self) -> nat {
        max_nat(self.next.sub.max_path(self.qb@), (MATERIALIZE_LIMIT + 1) as nat)
    }

    pub open spec fn path_rank(&self) -> nat {
        match self.sub {
            Some(s) => s.path_rank(),
            None => self.next.path_rank(),
        }
    }

    /// Runs the walk; when it was given up, makes an index over `sub`.
    fn run<Q: QuadStore>(&mut self, qs: &Q)
        requires
            old(self).wf(qs.quad_bound()),
            !old(self).next.has_run,
        ensures
            final(self).wf(qs.quad_bound()),
            final(self).next.has_run,
            final(self).height() == old(self).height(),
            final(self).path_bound() == old(self).path_bound(),
        decreases old(self).next.next.height(), 3nat,
    {
        self.next.materialize_set(qs);
        if self.next.aborted {
            self.sub = Some(Box::new(self.next.sub.lookup(qs)));
        }
    }

    /// Runs the walk first if needed; then checks `v` by its key (or with
    /// the index over `sub`, after a walk given up). A key found becomes the
    /// current one.
    pub fn contains<Q: QuadStore>(&mut self, qs: &Q, v: &Ref) -> (r: bool)
        requires
            old(self).wf(qs.quad_bound()),
        ensures
            final(self).wf(qs.quad_bound()),
            final(self).height() <= old(self).height(),
            final(self).path_bound() == old(self).path_bound(),
            final(self).sub is None && final(self).next.err is None ==> r == (ref_key(v@) matches Some(k)
                && values_view(final(self).next.keys@).contains(k)),
            final(self).next.err is Some ==> !r,
            final(self).next.has_run,
        decreases old(self).height(), 0nat,
    {
        if !self.next.has_run {
            self.run(qs);
        }
        if self.next.err.is_some() {
            return false;
        }
        match &mut self.sub {
            Some(s) => {
                return s.contains(qs, v);
            },
            None => {},
        }
        match v.key() {
            Some(k) => {
                match key_position(&self.next.keys, k) {
                    Some(i) => {
                        proof {
                            assert(values_view(self.next.keys@)[i as int] == k@);
                        }
                        self.next.index = Some(i);
                        self.next.sub_index = 0;
                        true
                    },
                    None => false,
                }
            },
            None => false,
        }
    }

    pub fn next_path<Q: QuadStore>(&mut self, qs: &Q) -> (r: bool)
        requires
            old(self).wf(qs.quad_bound()),
        ensures
            final(self).wf(qs.quad_bound()),
            final(self).height() <= old(self).height(),
            r ==> final(self).path_rank() < old(self).path_rank(),
            !r ==> final(self).path_rank() <= old(self).path_rank(),
            final(self).path_bound() == old(self).path_bound(),
            !old(self).next.has_run || old(self).next.err is Some ==> !r && *final(self) == *old(self),
            old(self).next.has_run && old(self).next.err is None ==> (old(self).sub matches Some(s)
                ==> s.path_step(*final(self).sub->0, r, qs.quad_bound()) && final(self).next == old(self).next),
        decreases old(self).height(), 0nat,
    {
        if !self.next.has_run {
            return false;
        }
        if self.next.err.is_some() {
            return false;
        }
        match &mut self.sub {
            Some(s) => {
                return s.next_path(qs);
            },
            None => {},
        }
        self.next.next_path(qs)
    }

    pub fn result(&self) -> (r: Option<Ref>)
        ensures
            crate::graph::iterator::opt_ref_view(r) == Index::Materialize(*self).spec_result(),
        decreases self.height(), 0nat,
    {
        match &self.sub {
            Some(s) => s.result(),
            None => self.next.result(),
        }
    }

    /// The walk's error, else the index's.
    pub fn err(&self) -> (r: Option<String>)
        ensures
            crate::graph::iterator::opt_text(r) == Index::Materialize(*self).spec_err(),
            r is Some == (self.next.err is Some || (self.sub matches Some(x) && x.spec_failed())),
        decreases self.height(), 0nat,
    {
        let e = self.next.err();
        if e.is_some() {
            return e;
        }
        match &self.sub {
            Some(s) => s.err(),
            None => None,
        }
    }

    pub fn tag_results(&self, dst: &mut TagMap)
        ensures
            self.sub matches Some(s) ==> s.tags_step(old(dst)@, final(dst)@),
            self.sub is None && self.next.has_run ==> *final(dst) == *old(dst),
        decreases self.height(), 0nat,
    {
        match &self.sub {
            Some(s) => s.tag_results(dst),
            None => self.next.tag_results(dst),
        }
    }

    /// Closes the walk and the index; the walk's error comes first.
    pub fn close(&mut self) -> (r: Result<(), String>)
        ensures
            final(self).height() <= old(self).height(),
            old(self).sub is None ==> old(self).next.close_step(final(self).next, r),
            old(self).sub matches Some(sb) ==> exists|r1: Result<(), String>, r2: Result<(), String>|
                #[trigger] old(self).next.close_step(final(self).next, r1)
                && #[trigger] sb.close_step(*final(self).sub->0, r2)
                && r == (if r2 is Err && r1 is Ok { r2 } else { r1 }),
        decreases old(self).height(), 0nat,
    {
        let res = self.next.close();
        match &mut self.sub {
            Some(s) => {
                let res2 = s.close();
                if res2.is_err() && res.is_ok() {
                    return res2;
                }
            },
            None => {},
        }
        res
    }
}

} // verus!
