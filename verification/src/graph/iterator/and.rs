//! Intersection: the results of the first sub-iterator that all others contain.
use vstd::prelude::*;
use crate::graph::refs::{Ref, RefV, ref_key};
use crate::graph::quad::QuadStore;
use crate::graph::iterator::{
    Shape, Scanner, Index, Null, max_nat, scans_as, checks_as, known_costs, all_known, shape_seq_height, lemma_shape_seq_height,
    index_seq_height, index_seq_wf, index_seq_path_rank, lemma_index_seq_height,
    lemma_index_seq_height_bound, lemma_index_seq_height_pointwise,
    lemma_index_seq_path_rank_pointwise, lemma_index_seq_path_bound_same, index_seq_path_bound,
    shape_seq_max_path, lemma_index_seq_path_bound_below, lemma_index_seq_all_below,
};
use crate::graph::iterator::tags::TagMap;
use crate::strutil::copy_string;
use crate::graph::iterator::Costs;
use crate::graph::iterator::costs::{and_costs, and_costs_of};

verus! {

/// The intersection of `sub`; the results of `opt`, when they contain the
/// result, add their tags.
pub struct And {
    pub sub: Vec<Shape>,
    pub check_list: Option<Vec<Shape>>,
    pub opt: Option<Vec<Shape>>,
}

/// The largest height in an optional list of shapes.
pub open spec fn opt_shapes_height(o: Option<Vec<Shape>>) -> nat
{
    match o {
        Some(v) => shape_seq_height(v@, 0),
        None => 0,
    }
}

/// Makes an index for every shape of `s`.
pub fn lookup_all<Q: QuadStore>(s: &Vec<Shape>, from: usize, qs: &Q) -> (r: Vec<Index>)
    requires
        from <= s@.len(),
    ensures
        index_seq_wf(r@, qs.quad_bound()),
        index_seq_height(r@, 0) <= shape_seq_height(s@, 0),
        r@.len() == s@.len() - from,
        index_seq_path_bound(r@, 0) <= shape_seq_max_path(s@, from as int, qs.quad_bound()),
        forall|j: int| 0 <= j < r@.len() ==> crate::graph::iterator::checks_as(s@[j + from], #[trigger] r@[j]),
    decreases s, 0nat,
{
    let mut r: Vec<Index> = Vec::new();
    let mut i: usize = from;
    while i < s.len()
        invariant
            from <= i <= s@.len(),
            r@.len() == i - from,
            index_seq_wf(r@, qs.quad_bound()),
            forall|j: int| 0 <= j < r@.len() ==> (#[trigger] r@[j]).height() <= shape_seq_height(s@, 0),
            forall|j: int| 0 <= j < r@.len() ==> (#[trigger] r@[j]).path_bound() <= s@[j + from].max_path(qs.quad_bound()),
            forall|j: int| 0 <= j < r@.len() ==> crate::graph::iterator::checks_as(s@[j + from], #[trigger] r@[j]),
        decreases s@.len() - i,
    {
        let x = s[i].lookup(qs);
        proof {
            lemma_shape_seq_height(s@, 0, i as int);
        }
        r.push(x);
        i = i + 1;
    }
    proof {
        lemma_index_seq_height_bound(r@, 0, shape_seq_height(s@, 0));
        lemma_index_seq_path_bound_below(r@, s@, 0, from as int, qs.quad_bound());
    }
    r
}

/// The costs of every shape of `s`; the first error stops.
pub fn stats_of_all<Q: QuadStore>(s: &Vec<Shape>, qs: &Q) -> (r: Result<Vec<Costs>, String>)
    ensures
        r matches Ok(c) ==> c@.len() == s@.len(),
        r matches Ok(c) ==> forall|j: int| 0 <= j < s@.len() && (#[trigger] known_costs(s@[j])) is Some
            ==> Some(c@[j]) == known_costs(s@[j]),
        all_known(s@) ==> (r matches Ok(c) && c@ == known_seq(s@)),
    decreases s, 0nat,
{
    let mut r: Vec<Costs> = Vec::new();
    let mut i: usize = 0;
    while i < s.len()
        invariant
            i <= s@.len(),
            r@.len() == i,
            forall|j: int| 0 <= j < i && (#[trigger] known_costs(s@[j])) is Some ==> Some(r@[j]) == known_costs(s@[j]),
            all_known(s@) ==> r@ == known_seq(s@).take(i as int),
        decreases s@.len() - i,
    {
        match s[i].stats(qs) {
            Ok(c) => {
                r.push(c);
                proof {
                    if all_known(s@) {
                        assert(known_costs(s@[i as int]) is Some);
                        assert(r@ =~= known_seq(s@).take(i + 1));
                    }
                }
            },
            Err(e) => {
                proof {
                    assert(known_costs(s@[i as int]) is None);
                }
                return Err(e);
            },
        }
        i = i + 1;
    }
    proof {
        if all_known(s@) {
            assert(known_seq(s@).take(s@.len() as int) =~= known_seq(s@));
        }
    }
    Ok(r)
}

/// The known costs of the shapes of `s`, in order.
pub open spec fn known_seq(s: Seq<Shape>) -> Seq<Costs> {
    s.map_values(|x: Shape| known_costs(x)->0)
}

/// The costs of the sub-iterators `its`, and the costs of their
/// intersection (all zero, with an exact size of zero, when there is none).
pub fn get_stats_for_slice<Q: QuadStore>(its: &Vec<Shape>, qs: &Q) -> (r: Result<(Costs, Vec<Costs>), String>)
    ensures
        r matches Ok(p) ==> p.1@.len() == its@.len(),
        r matches Ok(p) ==> (its@.len() > 0 ==> p.0 == and_costs(p.1@, its@.len() as int)),
        r matches Ok(p) ==> (its@.len() == 0 ==> p.0 == Costs::spec_new()),
        all_known(its@) ==> (r matches Ok(p) && p.1@ == known_seq(its@)),
    decreases its, 1nat,
{
    let c = stats_of_all(its, qs)?;
    if c.len() == 0 {
        return Ok((Costs::new(), c));
    }
    let total = and_costs_of(&c);
    Ok((total, c))
}

impl And {
    pub fn new(sub: Vec<Shape>) -> (r: And)
        ensures
            r.sub@ == sub@,
            r.check_list is None,
            r.opt is None,
    {
        And { sub, check_list: None, opt: None }
    }

    pub fn add_sub_iterator(&mut self, sub: Shape)
        ensures
            final(self).sub@ == old(self).sub@.push(sub),
            final(self).check_list == old(self).check_list,
            final(self).opt == old(self).opt,
    {
        self.sub.push(sub);
    }

    pub fn add_optional_iterator(&mut self, sub: Shape)
        ensures
            final(self).sub == old(self).sub,
            final(self).check_list == old(self).check_list,
            final(self).opt matches Some(o) && o@ == (match old(self).opt {
                Some(p) => p@,
                None => Seq::<Shape>::empty(),
            }).push(sub),
    {
        match self.opt.take() {
            Some(mut o) => {
                o.push(sub);
                self.opt = Some(o);
            },
            None => {
                let mut o: Vec<Shape> = Vec::new();
                o.push(sub);
                self.opt = Some(o);
            },
        }
    }

    pub open spec fn height(&self) -> nat
    {
        2 + max_nat(
            shape_seq_height(self.sub@, 0),
            max_nat(opt_shapes_height(self.check_list), opt_shapes_height(self.opt)),
        )
    }

    /// The costs of the intersection of the sub-iterators (the optional ones
    /// play no part).
    pub fn stats<Q: QuadStore>(&self, qs: &Q) -> (r: Result<Costs, String>)
        ensures
            all_known(self.sub@) ==> r == Ok::<Costs, String>(if self.sub@.len() == 0 {
                Costs::spec_new()
            } else {
                and_costs(known_seq(self.sub@), self.sub@.len() as int)
            }),
        decreases self, 2nat,
    {
        match get_stats_for_slice(&self.sub, qs) {
            Ok(p) => Ok(p.0),
            Err(e) => Err(e),
        }
    }

    /// Lists the results of the first sub-iterator that the others contain.
    pub fn iterate<Q: QuadStore>(&self, qs: &Q) -> (r: Scanner)
        ensures
            r.wf(qs.quad_bound()),
            r.height() <= self.height(),
            r.rank() <= (if self.sub@.len() == 0 { 0 } else { self.sub@[0].max_rank(qs.quad_bound()) }),
            self.sub@.len() == 0 ==> r is Null,
            self.sub@.len() > 0 ==> (r matches Scanner::And(n) && scans_as(self.sub@[0], *n.primary)
                && (*n.secondary matches Index::And(c) && c.sub@.len() == self.sub@.len() - 1
                    && c.opt@.len() == (match self.opt { Some(o) => o@.len(), None => 0 })
                    && (forall|j: int| 0 <= j < c.sub@.len() ==> checks_as(self.sub@[j + 1], #[trigger] c.sub@[j]))
                    && (self.opt matches Some(o) ==> forall|j: int| 0 <= j < c.opt@.len() ==> checks_as(o@[j], #[trigger] c.opt@[j])))),
        decreases self, 0nat,
    {
        if self.sub.len() == 0 {
            return Scanner::Null(Null {});
        }
        let sub = lookup_all(&self.sub, 1, qs);
        let opt = match &self.opt {
            Some(o) => lookup_all(o, 0, qs),
            None => Vec::new(),
        };
        let primary = self.sub[0].iterate(qs);
        proof {
            lemma_shape_seq_height(self.sub@, 0, 0);
        }
        let secondary = Index::And(AndContains::new(sub, opt));
        proof {
            assert(secondary.wf(qs.quad_bound()));
            assert(secondary.height() <= self.height() - 1);
        }
        Scanner::And(AndNext::new(primary, secondary))
    }

    /// Checks membership in every sub-iterator (in the order of the check
    /// list when there is one).
    pub fn lookup<Q: QuadStore>(&self, qs: &Q) -> (r: Index)
        ensures
            r.wf(qs.quad_bound()),
            r.height() <= self.height(),
            r.path_bound() <= Shape::And(*self).max_path(qs.quad_bound()),
            self.sub@.len() == 0 ==> r is Null,
            self.sub@.len() > 0 ==> (r matches Index::And(c)
                && c.sub@.len() == (match self.check_list { Some(l) => l@.len(), None => self.sub@.len() })
                && c.opt@.len() == (match self.opt { Some(o) => o@.len(), None => 0 })
                && (forall|j: int| 0 <= j < c.sub@.len() ==> checks_as(match self.check_list { Some(l) => l@[j], None => self.sub@[j] }, #[trigger] c.sub@[j]))
                && (self.opt matches Some(o) ==> forall|j: int| 0 <= j < c.opt@.len() ==> checks_as(o@[j], #[trigger] c.opt@[j]))),
        decreases self, 0nat,
    {
        if self.sub.len() == 0 {
            return Index::Null(Null {});
        }
        let sub = match &self.check_list {
            Some(c) => lookup_all(c, 0, qs),
            None => lookup_all(&self.sub, 0, qs),
        };
        let opt = match &self.opt {
            Some(o) => lookup_all(o, 0, qs),
            None => Vec::new(),
        };
        proof {
            assert(index_seq_height(sub@, 0) <= max_nat(shape_seq_height(self.sub@, 0), opt_shapes_height(self.check_list)));
            assert(index_seq_height(opt@, 0) <= opt_shapes_height(self.opt));
        }
        Index::And(AndContains::new(sub, opt))
    }
}

/// Whether `n` successful steps of the scanner, from `p0` to `p`, each
/// met a result that the index (from `s0` to `s`) answered `passed` for,
/// or no result at all (the index then left as it was).
pub open spec fn checked_run(p0: Scanner, s0: Index, p: Scanner, s: Index, n: nat, passed: bool, qb: nat) -> bool
    decreases n,
{
    if n == 0 {
        p0 == p && s0 == s
    } else {
        exists|pm: Scanner| #[trigger] pm.next_step(p, true, qb)
            && (p.spec_result() is None ==> checked_run(p0, s0, pm, s, (n - 1) as nat, passed, qb))
            && (p.spec_result() matches Some(c) ==> exists|sm: Index| #[trigger] sm.contains_step(s, c, passed, qb)
                && checked_run(p0, s0, pm, sm, (n - 1) as nat, passed, qb))
    }
}

/// Whether a step of a filtered walk from (`p0`, `s0`) to (`p`, `s`)
/// answered `r`: after results the index answered `passed` for, the
/// scanner moved either to a result the index answered otherwise (`r`
/// true), or to its end (`r` false, the index left as it was).
pub open spec fn checked_step(p0: Scanner, s0: Index, p: Scanner, s: Index, r: bool, passed: bool, qb: nat) -> bool {
    exists|pm: Scanner, sm: Index, n: nat| #[trigger] checked_run(p0, s0, pm, sm, n, passed, qb)
        && (r ==> pm.next_step(p, true, qb) && (p.spec_result() matches Some(c) && sm.contains_step(s, c, !passed, qb)))
        && (!r ==> pm.next_step(p, false, qb) && s == sm)
}

/// Whether the checks of `v` by the indexes `before`, leaving `after`,
/// were refused at position `c`: those before it accepted `v` (from the
/// states `mids`, which a later step may have moved on), the one at `c`
/// declined it, and those after it were not asked.
pub open spec fn refused_at(before: Seq<Index>, mids: Seq<Index>, after: Seq<Index>, v: RefV, qb: nat, c: int) -> bool {
    &&& 0 <= c < before.len()
    &&& mids.len() == before.len() && after.len() == before.len()
    &&& forall|j: int| 0 <= j < c ==> (#[trigger] before[j]).contains_step(mids[j], v, true, qb)
    &&& before[c].contains_step(after[c], v, false, qb)
    &&& forall|j: int| c < j < before.len() ==> #[trigger] after[j] == before[j]
}

/// Whether some index of `before` declined `v` after the ones before it
/// accepted it, leaving `after`.
pub open spec fn and_refused(before: Seq<Index>, after: Seq<Index>, v: RefV, qb: nat) -> bool {
    exists|mids: Seq<Index>, c: int| #[trigger] refused_at(before, mids, after, v, qb, c)
}

/// Lists the results of the primary scanner that the secondary index contains.
pub struct AndNext {
    pub primary: Box<Scanner>,
    pub secondary: Box<Index>,
    pub result: Option<Ref>,
}

impl AndNext {
    pub fn new(pri: Scanner, sec: Index) -> (r: AndNext)
        ensures
            *r.primary == pri,
            *r.secondary == sec,
            r.result is None,
    {
        AndNext { primary: Box::new(pri), secondary: Box::new(sec), result: None }
    }

    pub open spec fn height(&self) -> nat
    {
        1 + max_nat(self.primary.height(), self.secondary.height())
    }

    pub open spec fn wf(&self, qb: nat) -> bool
    {
        self.primary.wf(qb) && self.secondary.wf(qb)
    }

    pub open spec fn rank(&self) -> nat
    {
        self.primary.rank()
    }

    pub open spec fn path_rank(&self) -> nat
    {
        self.primary.path_rank() + self.secondary.path_rank()
    }

    /// Moves the primary scanner until the secondary index contains its result.
    pub fn next<Q: QuadStore>(&mut self, qs: &Q) -> (r: bool)
        requires
            old(self).wf(qs.quad_bound()),
        ensures
            final(self).wf(qs.quad_bound()),
            final(self).height() <= old(self).height(),
            r ==> final(self).rank() < old(self).rank(),
            !r ==> final(self).rank() <= old(self).rank(),
            r ==> final(self).result is Some
                && crate::graph::iterator::opt_ref_view(final(self).result) == final(self).primary.spec_result(),
            !r ==> final(self).result == old(self).result,
            (*old(self).primary is Null || *old(self).primary is Error) ==> !r && *final(self) == *old(self),
            r ==> crate::graph::iterator::accepted_below(*final(self).secondary, final(self).result->0@, qs.quad_bound(), old(self).secondary.height()),
            checked_step(*old(self).primary, *old(self).secondary, *final(self).primary, *final(self).secondary, r, false, qs.quad_bound()),
            !r ==> crate::graph::iterator::ended_below(*final(self).primary, qs.quad_bound(), old(self).primary.height()),
            (*old(self).primary is Fixed && *old(self).secondary is Fixed) ==> (*final(self).primary matches Scanner::Fixed(n)
                && (!r ==> fixed_and_at(*old(self).primary, *old(self).secondary, *final(self).primary, *final(self).secondary)
                    && n.ind == n.values@.len())
                && n.values == old(self).primary->Fixed_0.values
                && (r ==> old(self).primary->Fixed_0.ind < n.ind && fixed_has_key(*old(self).secondary, n.values@[n.ind - 1]@)
                    && (forall|idx: int| old(self).primary->Fixed_0.ind <= idx < n.ind - 1
                        ==> !fixed_has_key(*old(self).secondary, #[trigger] n.values@[idx]@)))),
        decreases old(self).height(), 0nat,
    {
        let ghost mut n: nat = 0;
        proof {
            assert(checked_run(*old(self).primary, *old(self).secondary, *self.primary, *self.secondary, 0, false, qs.quad_bound()));
        }
        loop
            invariant
                checked_run(*old(self).primary, *old(self).secondary, *self.primary, *self.secondary, n, false, qs.quad_bound()),
                fixed_and_at(*old(self).primary, *old(self).secondary, *self.primary, *self.secondary),
                self.result == old(self).result,
                (*old(self).primary is Null || *old(self).primary is Error) ==> *self == *old(self),
                self.primary.wf(qs.quad_bound()),
                self.secondary.wf(qs.quad_bound()),
                self.primary.height() <= old(self).primary.height(),
                self.secondary.height() <= old(self).secondary.height(),
                self.primary.rank() <= old(self).primary.rank(),
            decreases self.primary.rank(),
        {
            let ghost pre = *self.primary;
            let ghost pre_s = *self.secondary;
            if !self.primary.next(qs) {
                assert(pre.height() <= old(self).primary.height());
                assert(checked_run(*old(self).primary, *old(self).secondary, pre, pre_s, n, false, qs.quad_bound()));
                return false;
            }
            let cur = self.primary.result();
            match cur {
                Some(c) => {
                    if self.secondary.contains(qs, &c) {
                        self.result = Some(c);
                        assert(checked_run(*old(self).primary, *old(self).secondary, pre, pre_s, n, false, qs.quad_bound()));
                        return true;
                    }
                    proof {
                        assert(pre_s.contains_step(*self.secondary, self.primary.spec_result()->0, false, qs.quad_bound()));
                        n = n + 1;
                        assert(checked_run(*old(self).primary, *old(self).secondary, *self.primary, *self.secondary, n, false, qs.quad_bound()));
                    }
                },
                None => {
                    proof {
                        n = n + 1;
                        assert(checked_run(*old(self).primary, *old(self).secondary, *self.primary, *self.secondary, n, false, qs.quad_bound()));
                    }
                },
            }
        }
    }

    pub fn next_path<Q: QuadStore>(&mut self, qs: &Q) -> (r: bool)
        requires
            old(self).wf(qs.quad_bound()),
        ensures
            final(self).wf(qs.quad_bound()),
            final(self).height() <= old(self).height(),
            final(self).rank() <= old(self).rank(),
            r ==> final(self).path_rank() < old(self).path_rank(),
            !r ==> final(self).path_rank() <= old(self).path_rank(),
            exists|q: bool| #[trigger] old(self).primary.path_step(*final(self).primary, q, qs.quad_bound())
                && (q ==> r && final(self).secondary == old(self).secondary)
                && (!q && final(self).primary.spec_failed() ==> !r && final(self).secondary == old(self).secondary)
                && (!q && !final(self).primary.spec_failed() ==> old(self).secondary.path_step(*final(self).secondary, r, qs.quad_bound())),
        decreases old(self).height(), 0nat,
    {
        if self.primary.next_path(qs) {
            return true;
        } else if self.primary.err().is_some() {
            return false;
        }
        if self.secondary.next_path(qs) {
            return true;
        }
        false
    }

    pub fn result(&self) -> (r: Option<Ref>)
        ensures
            crate::graph::iterator::opt_ref_view(r) == crate::graph::iterator::opt_ref_view(self.result),
        decreases self.height(), 0nat,
    {
        match &self.result {
            Some(v) => Some(v.copy()),
            None => None,
        }
    }

    /// The error of the primary scanner, else that of the secondary index.
    pub fn err(&self) -> (r: Option<String>)
        ensures
            crate::graph::iterator::opt_text(r) == (if self.primary.spec_err() is Some { self.primary.spec_err() } else { self.secondary.spec_err() }),
            r is Some == (self.primary.spec_failed() || self.secondary.spec_failed()),
        decreases self.height(), 0nat,
    {
        let e = self.primary.err();
        if e.is_some() {
            return e;
        }
        self.secondary.err()
    }

    pub fn tag_results(&self, tags: &mut TagMap)
        ensures
            exists|m: Map<Seq<char>, RefV>| self.primary.tags_step(old(tags)@, m) && #[trigger] self.secondary.tags_step(m, final(tags)@),
        decreases self.height(), 0nat,
    {
        self.primary.tag_results(tags);
        let ghost m = tags@;
        self.secondary.tag_results(tags);
        assert(self.secondary.tags_step(m, tags@));
    }

    /// Closes both parts; reports the primary's error first.
    pub fn close(&mut self) -> (r: Result<(), String>)
        ensures
            final(self).height() <= old(self).height(),
            exists|r1: Result<(), String>, r2: Result<(), String>|
                #[trigger] old(self).primary.close_step(*final(self).primary, r1)
                && #[trigger] old(self).secondary.close_step(*final(self).secondary, r2)
                && r == (if r1 is Err { r1 } else { r2 }),
        decreases old(self).height(), 0nat,
    {
        let err = self.primary.close();
        let err2 = self.secondary.close();
        if err.is_err() {
            err
        } else {
            err2
        }
    }
}

/// Whether the fixed index `ix` holds the key of `v`.
pub open spec fn fixed_has_key(ix: Index, v: RefV) -> bool {
    exists|i: int| 0 <= i < ix->Fixed_0.keys@.len() && ref_key(v) == Some(#[trigger] ix->Fixed_0.keys@[i]@)
}

/// Whether an intersection of the fixed list `start` with the fixed index
/// `sec` has moved the list to `pri`, passing over values that `sec` lacks.
pub open spec fn fixed_and_at(start: Scanner, sec0: Index, pri: Scanner, sec: Index) -> bool {
    (start is Fixed && sec0 is Fixed) ==> (pri matches Scanner::Fixed(n) && n.values == start->Fixed_0.values
        && start->Fixed_0.ind <= n.ind <= n.values@.len()
        && sec is Fixed && sec->Fixed_0.keys == sec0->Fixed_0.keys
        && forall|idx: int| start->Fixed_0.ind <= idx < n.ind ==> !fixed_has_key(sec0, #[trigger] n.values@[idx]@))
}

/// Checks that every sub-index contains a reference; the optional ones are
/// then checked too, for their tags.
pub struct AndContains {
    pub sub: Vec<Index>,
    pub opt: Vec<Index>,
    /// After the first success, one entry per optional index: whether it
    /// contained the last accepted reference.
    pub opt_check: Vec<bool>,
    pub result: Option<Ref>,
    pub err: Option<String>,
}

impl AndContains {
    /// A bound on `path_rank` that no operation changes.
    pub open spec fn path_bound(&self) -> nat {
        index_seq_path_bound(self.sub@, 0) + index_seq_path_bound(self.opt@, 0)
    }

    pub fn new(sub: Vec<Index>, opt: Vec<Index>) -> (r: AndContains)
        ensures
            r.sub@ == sub@,
            r.opt@ == opt@,
            r.opt_check@.len() == 0,
            r.result is None,
            r.err is None,
    {
        AndContains { sub, opt, opt_check: Vec::new(), result: None, err: None }
    }

    pub open spec fn height(&self) -> nat
    {
        1 + max_nat(index_seq_height(self.sub@, 0), index_seq_height(self.opt@, 0))
    }

    pub open spec fn wf(&self, qb: nat) -> bool
    {
        index_seq_wf(self.sub@, qb) && index_seq_wf(self.opt@, qb)
    }

    pub open spec fn path_rank(&self) -> nat
    {
        index_seq_path_rank(self.sub@, 0) + index_seq_path_rank(self.opt@, 0)
    }

    /// Whether every sub-index contains `val`. When one does not, the
    /// indexes before it are moved back to the previous result.
    pub fn contains<Q: QuadStore>(&mut self, qs: &Q, val: &Ref) -> (r: bool)
        requires
            old(self).wf(qs.quad_bound()),
        ensures
            final(self).path_bound() == old(self).path_bound(),
            final(self).wf(qs.quad_bound()),
            final(self).height() <= old(self).height(),
            final(self).sub@.len() == old(self).sub@.len(),
            final(self).opt@.len() == old(self).opt@.len(),
            r ==> (final(self).result matches Some(x) && x@ == val@),
            r ==> final(self).opt_check@.len() == old(self).opt@.len(),
            !r ==> final(self).result == old(self).result,
            old(self).sub@.len() == 0 ==> r,
            r ==> forall|j: int| 0 <= j < old(self).sub@.len()
                ==> (#[trigger] old(self).sub@[j]).contains_step(final(self).sub@[j], val@, true, qs.quad_bound()),
            r ==> forall|j: int| 0 <= j < old(self).opt@.len()
                ==> (#[trigger] old(self).opt@[j]).contains_step(final(self).opt@[j], val@, final(self).opt_check@[j], qs.quad_bound()),
            !r ==> and_refused(old(self).sub@, final(self).sub@, val@, qs.quad_bound()),
        decreases old(self).height(), 0nat,
    {
        let qb = Ghost(qs.quad_bound());
        let prev = match &self.result {
            Some(p) => Some(p.copy()),
            None => None,
        };
        proof {
            lemma_index_seq_all_below(old(self).sub@);
            lemma_index_seq_all_below(old(self).opt@);
        }
        let mut i: usize = 0;
        while i < self.sub.len()
            invariant
                i <= self.sub@.len(),
                self.sub@.len() == old(self).sub@.len(),
                self.opt == old(self).opt,
                qb@ == qs.quad_bound(),
                index_seq_wf(self.sub@, qb@),
                index_seq_wf(self.opt@, qb@),
                forall|j: int| 0 <= j < self.sub@.len() ==> (#[trigger] self.sub@[j]).height() <= old(self).sub@[j].height(),
                forall|j: int| 0 <= j < self.sub@.len() ==> (#[trigger] self.sub@[j]).path_bound() == old(self).sub@[j].path_bound(),
                forall|j: int| 0 <= j < old(self).sub@.len() ==> (#[trigger] old(self).sub@[j]).height() <= index_seq_height(old(self).sub@, 0),
                self.result == old(self).result,
                forall|j: int| i <= j < self.sub@.len() ==> self.sub@[j] == old(self).sub@[j],
                forall|j: int| 0 <= j < i ==> (#[trigger] old(self).sub@[j]).contains_step(self.sub@[j], val@, true, qb@),
            decreases self.sub@.len() - i,
        {
            let ok = self.sub[i].contains(qs, val);
            if !ok {
                let ghost mids = self.sub@;
                proof {
                    assert(refused_at(old(self).sub@, mids, self.sub@, val@, qb@, i as int));
                }
                let err = self.sub[i].err();
                if err.is_some() {
                    self.err = err;
                    proof {
                        lemma_index_seq_height_pointwise(self.sub@, old(self).sub@, 0);
                        lemma_index_seq_path_bound_same(self.sub@, old(self).sub@, 0);
                    }
                    return false;
                }
                match &prev {
                    Some(p) => {
                        let mut j: usize = 0;
                        while j < i
                            invariant
                                j <= i < self.sub@.len(),
                                self.sub@.len() == old(self).sub@.len(),
                                self.opt == old(self).opt,
                                qb@ == qs.quad_bound(),
                                index_seq_wf(self.sub@, qb@),
                                index_seq_wf(self.opt@, qb@),
                                forall|k: int| 0 <= k < self.sub@.len() ==> (#[trigger] self.sub@[k]).height() <= old(self).sub@[k].height(),
                                forall|k: int| 0 <= k < self.sub@.len() ==> (#[trigger] self.sub@[k]).path_bound() == old(self).sub@[k].path_bound(),
                                forall|k: int| 0 <= k < old(self).sub@.len() ==> (#[trigger] old(self).sub@[k]).height() <= index_seq_height(old(self).sub@, 0),
                                self.result == old(self).result,
                                refused_at(old(self).sub@, mids, self.sub@, val@, qb@, i as int),
                            decreases i - j,
                        {
                            self.sub[j].contains(qs, p);
                            assert(refused_at(old(self).sub@, mids, self.sub@, val@, qb@, i as int));
                            let e = self.sub[j].err();
                            if e.is_some() {
                                self.err = e;
                                proof {
                                    lemma_index_seq_height_pointwise(self.sub@, old(self).sub@, 0);
                                    lemma_index_seq_path_bound_same(self.sub@, old(self).sub@, 0);
                                }
                                return false;
                            }
                            j = j + 1;
                        }
                    },
                    None => {},
                }
                proof {
                    lemma_index_seq_height_pointwise(self.sub@, old(self).sub@, 0);
                    lemma_index_seq_path_bound_same(self.sub@, old(self).sub@, 0);
                }
                return false;
            }
            i = i + 1;
        }
        self.result = Some(val.copy());
        let mut checks: Vec<bool> = Vec::new();
        let mut k: usize = 0;
        let ghost sub_done = self.sub@;
        while k < self.opt.len()
            invariant
                self.sub@ == sub_done,
                forall|j: int| 0 <= j < sub_done.len() ==> (#[trigger] old(self).sub@[j]).contains_step(sub_done[j], val@, true, qb@),
                forall|j: int| k <= j < self.opt@.len() ==> self.opt@[j] == old(self).opt@[j],
                forall|j: int| 0 <= j < k ==> (#[trigger] old(self).opt@[j]).contains_step(self.opt@[j], val@, checks@[j], qb@),
                k <= self.opt@.len(),
                self.opt@.len() == old(self).opt@.len(),
                qb@ == qs.quad_bound(),
                index_seq_wf(self.sub@, qb@),
                index_seq_wf(self.opt@, qb@),
                forall|j: int| 0 <= j < self.sub@.len() ==> (#[trigger] self.sub@[j]).height() <= old(self).sub@[j].height(),
                forall|j: int| 0 <= j < self.sub@.len() ==> (#[trigger] self.sub@[j]).path_bound() == old(self).sub@[j].path_bound(),
                self.sub@.len() == old(self).sub@.len(),
                forall|j: int| 0 <= j < self.opt@.len() ==> (#[trigger] self.opt@[j]).height() <= old(self).opt@[j].height(),
                forall|j: int| 0 <= j < self.opt@.len() ==> (#[trigger] self.opt@[j]).path_bound() == old(self).opt@[j].path_bound(),
                forall|j: int| 0 <= j < old(self).opt@.len() ==> (#[trigger] old(self).opt@[j]).height() <= index_seq_height(old(self).opt@, 0),
                checks@.len() == k,
                self.result matches Some(x) && x@ == val@,
            decreases self.opt@.len() - k,
        {
            let c = self.opt[k].contains(qs, val);
            checks.push(c);
            k = k + 1;
        }
        self.opt_check = checks;
        proof {
            lemma_index_seq_height_pointwise(self.sub@, old(self).sub@, 0);
            lemma_index_seq_path_bound_same(self.sub@, old(self).sub@, 0);
            lemma_index_seq_height_pointwise(self.opt@, old(self).opt@, 0);
            lemma_index_seq_path_bound_same(self.opt@, old(self).opt@, 0);
        }
        true
    }

    /// Moves the first sub-index (then checked optional index) that has
    /// another path; stops at the first error.
    pub fn next_path<Q: QuadStore>(&mut self, qs: &Q) -> (r: bool)
        requires
            old(self).wf(qs.quad_bound()),
        ensures
            final(self).path_bound() == old(self).path_bound(),
            final(self).wf(qs.quad_bound()),
            final(self).height() <= old(self).height(),
            r ==> final(self).path_rank() < old(self).path_rank(),
            !r ==> final(self).path_rank() <= old(self).path_rank(),
            final(self).sub@.len() == old(self).sub@.len(),
            !r ==> forall|j: int| 0 <= j < old(self).sub@.len()
                && (forall|k: int| 0 <= k < j ==> !(#[trigger] final(self).sub@[k]).spec_failed())
                ==> (#[trigger] old(self).sub@[j]).path_step(final(self).sub@[j], false, qs.quad_bound()),
            r ==> (forall|j: int| 0 <= j < old(self).sub@.len() ==> (#[trigger] old(self).sub@[j]).path_step(final(self).sub@[j], false, qs.quad_bound()))
                || exists|c: int| 0 <= c < old(self).sub@.len()
                    && (forall|j: int| 0 <= j < c ==> (#[trigger] old(self).sub@[j]).path_step(final(self).sub@[j], false, qs.quad_bound()))
                    && #[trigger] old(self).sub@[c].path_step(final(self).sub@[c], true, qs.quad_bound()),
        decreases old(self).height(), 0nat,
    {
        let qb = Ghost(qs.quad_bound());
        proof {
            lemma_index_seq_all_below(old(self).sub@);
            lemma_index_seq_all_below(old(self).opt@);
        }
        let mut i: usize = 0;
        while i < self.sub.len()
            invariant
                forall|j: int| i <= j < self.sub@.len() ==> self.sub@[j] == old(self).sub@[j],
                forall|j: int| 0 <= j < i ==> (#[trigger] old(self).sub@[j]).path_step(self.sub@[j], false, qb@),
                forall|j: int| 0 <= j < i ==> !(#[trigger] self.sub@[j]).spec_failed(),
                i <= self.sub@.len(),
                self.sub@.len() == old(self).sub@.len(),
                self.opt == old(self).opt,
                qb@ == qs.quad_bound(),
                index_seq_wf(self.sub@, qb@),
                index_seq_wf(self.opt@, qb@),
                forall|j: int| 0 <= j < self.sub@.len() ==> (#[trigger] self.sub@[j]).height() <= old(self).sub@[j].height(),
                forall|j: int| 0 <= j < self.sub@.len() ==> (#[trigger] self.sub@[j]).path_bound() == old(self).sub@[j].path_bound(),
                forall|j: int| 0 <= j < self.sub@.len() ==> (#[trigger] self.sub@[j]).path_rank() <= old(self).sub@[j].path_rank(),
                forall|j: int| 0 <= j < old(self).sub@.len() ==> (#[trigger] old(self).sub@[j]).height() <= index_seq_height(old(self).sub@, 0),
            decreases self.sub@.len() - i,
        {
            if self.sub[i].next_path(qs) {
                proof {
                    assert(old(self).sub@[i as int].path_step(self.sub@[i as int], true, qb@));
                    lemma_index_seq_height_pointwise(self.sub@, old(self).sub@, 0);
                    lemma_index_seq_path_bound_same(self.sub@, old(self).sub@, 0);
                    lemma_index_seq_path_rank_pointwise(self.sub@, old(self).sub@, 0, i as int);
                }
                return true;
            }
            let err = self.sub[i].err();
            if err.is_some() {
                self.err = err;
                proof {
                    lemma_index_seq_height_pointwise(self.sub@, old(self).sub@, 0);
                    lemma_index_seq_path_bound_same(self.sub@, old(self).sub@, 0);
                    lemma_index_seq_path_rank_pointwise(self.sub@, old(self).sub@, 0, i as int);
                }
                return false;
            }
            i = i + 1;
        }
        proof {
            lemma_index_seq_height_pointwise(self.sub@, old(self).sub@, 0);
            lemma_index_seq_path_bound_same(self.sub@, old(self).sub@, 0);
            lemma_index_seq_path_rank_pointwise(self.sub@, old(self).sub@, 0, 0);
        }
        let mut k: usize = 0;
        let ghost sub_done = self.sub@;
        while k < self.opt.len()
            invariant
                self.sub@ == sub_done,
                sub_done.len() == old(self).sub@.len(),
                forall|j: int| 0 <= j < sub_done.len() ==> (#[trigger] old(self).sub@[j]).path_step(sub_done[j], false, qb@),
                k <= self.opt@.len(),
                self.opt@.len() == old(self).opt@.len(),
                qb@ == qs.quad_bound(),
                index_seq_wf(self.sub@, qb@),
                index_seq_wf(self.opt@, qb@),
                index_seq_height(self.sub@, 0) <= index_seq_height(old(self).sub@, 0),
                index_seq_path_rank(self.sub@, 0) <= index_seq_path_rank(old(self).sub@, 0),
                index_seq_path_bound(self.sub@, 0) == index_seq_path_bound(old(self).sub@, 0),
                forall|j: int| 0 <= j < self.opt@.len() ==> (#[trigger] self.opt@[j]).height() <= old(self).opt@[j].height(),
                forall|j: int| 0 <= j < self.opt@.len() ==> (#[trigger] self.opt@[j]).path_bound() == old(self).opt@[j].path_bound(),
                forall|j: int| 0 <= j < self.opt@.len() ==> (#[trigger] self.opt@[j]).path_rank() <= old(self).opt@[j].path_rank(),
                forall|j: int| 0 <= j < old(self).opt@.len() ==> (#[trigger] old(self).opt@[j]).height() <= index_seq_height(old(self).opt@, 0),
            decreases self.opt@.len() - k,
        {
            if k < self.opt_check.len() {
                if self.opt[k].next_path(qs) {
                    proof {
                        lemma_index_seq_height_pointwise(self.opt@, old(self).opt@, 0);
                        lemma_index_seq_path_bound_same(self.opt@, old(self).opt@, 0);
                        lemma_index_seq_path_rank_pointwise(self.opt@, old(self).opt@, 0, k as int);
                    }
                    return true;
                }
                let err = self.opt[k].err();
                if err.is_some() {
                    self.err = err;
                    proof {
                        lemma_index_seq_height_pointwise(self.opt@, old(self).opt@, 0);
                        lemma_index_seq_path_bound_same(self.opt@, old(self).opt@, 0);
                        lemma_index_seq_path_rank_pointwise(self.opt@, old(self).opt@, 0, k as int);
                    }
                    return false;
                }
            }
            k = k + 1;
        }
        proof {
            lemma_index_seq_height_pointwise(self.opt@, old(self).opt@, 0);
            lemma_index_seq_path_bound_same(self.opt@, old(self).opt@, 0);
            lemma_index_seq_path_rank_pointwise(self.opt@, old(self).opt@, 0, 0);
        }
        false
    }

    pub fn result(&self) -> (r: Option<Ref>)
        ensures
            crate::graph::iterator::opt_ref_view(r) == crate::graph::iterator::opt_ref_view(self.result),
        decreases self.height(), 0nat,
    {
        match &self.result {
            Some(v) => Some(v.copy()),
            None => None,
        }
    }

    /// Its own error, else the first error of a sub-index, else of an
    /// optional index.
    pub fn err(&self) -> (r: Option<String>)
        ensures
            crate::graph::iterator::opt_text(r) == Index::And(*self).spec_err(),
            r is Some == Index::And(*self).spec_failed(),
        decreases self.height(), 0nat,
    {
        match &self.err {
            Some(e) => {
                return Some(copy_string(e));
            },
            None => {},
        }
        proof {
            lemma_index_seq_all_below(self.sub@);
            lemma_index_seq_all_below(self.opt@);
        }
        let mut i: usize = 0;
        while i < self.sub.len()
            invariant
                i <= self.sub@.len(),
                forall|j: int| 0 <= j < self.sub@.len() ==> (#[trigger] self.sub@[j]).height() <= index_seq_height(self.sub@, 0),
                forall|j: int| 0 <= j < i ==> !(#[trigger] self.sub@[j]).spec_failed(),
                self.err is None,
                crate::graph::iterator::index_seq_err(self.sub@, 0) == crate::graph::iterator::index_seq_err(self.sub@, i as int),
            decreases self.sub@.len() - i,
        {
            let e = self.sub[i].err();
            if e.is_some() {
                proof {
                    assert(self.sub@[i as int].spec_failed());
                }
                return e;
            }
            i = i + 1;
        }
        let mut k: usize = 0;
        while k < self.opt.len()
            invariant
                k <= self.opt@.len(),
                forall|j: int| 0 <= j < self.opt@.len() ==> (#[trigger] self.opt@[j]).height() <= index_seq_height(self.opt@, 0),
                forall|j: int| 0 <= j < k ==> !(#[trigger] self.opt@[j]).spec_failed(),
                self.err is None,
                crate::graph::iterator::index_seq_err(self.sub@, 0) is None,
                crate::graph::iterator::index_seq_err(self.opt@, 0) == crate::graph::iterator::index_seq_err(self.opt@, k as int),
            decreases self.opt@.len() - k,
        {
            let e = self.opt[k].err();
            if e.is_some() {
                proof {
                    assert(self.opt@[k as int].spec_failed());
                }
                return e;
            }
            k = k + 1;
        }
        None
    }

    /// The tags of every sub-index, then of the checked optional ones.
    pub fn tag_results(&self, dst: &mut TagMap)
        ensures
            exists|ms: Seq<Map<Seq<char>, RefV>>| #![trigger ms.len()]
                ms.len() == self.sub@.len() + self.opt@.len() + 1 && ms[0] == old(dst)@
                && (forall|j: int| 0 <= j < self.sub@.len() ==> (#[trigger] self.sub@[j]).tags_step(ms[j], ms[j + 1]))
                && (forall|k: int| 0 <= k < self.opt@.len() ==> (k < self.opt_check@.len()
                    ==> (#[trigger] self.opt@[k]).tags_step(ms[self.sub@.len() + k], ms[self.sub@.len() + k + 1])))
                && (forall|k: int| 0 <= k < self.opt@.len() && k >= self.opt_check@.len()
                    ==> #[trigger] ms[self.sub@.len() + k + 1] == ms[self.sub@.len() + k])
                && final(dst)@ == ms[(self.sub@.len() + self.opt@.len()) as int],
        decreases self.height(), 0nat,
    {
        proof {
            lemma_index_seq_all_below(self.sub@);
            lemma_index_seq_all_below(self.opt@);
        }
        let ghost mut ms: Seq<Map<Seq<char>, RefV>> = seq![dst@];
        let mut i: usize = 0;
        while i < self.sub.len()
            invariant
                i <= self.sub@.len(),
                ms.len() == i + 1,
                ms[0] == old(dst)@,
                ms[i as int] == dst@,
                forall|j: int| 0 <= j < i ==> (#[trigger] self.sub@[j]).tags_step(ms[j], ms[j + 1]),
                forall|j: int| 0 <= j < self.sub@.len() ==> (#[trigger] self.sub@[j]).height() <= index_seq_height(self.sub@, 0),
            decreases self.sub@.len() - i,
        {
            self.sub[i].tag_results(dst);
            proof {
                ms = ms.push(dst@);
            }
            i = i + 1;
        }
        let mut k: usize = 0;
        while k < self.opt.len()
            invariant
                ms.len() == self.sub@.len() + k + 1,
                ms[0] == old(dst)@,
                ms[(self.sub@.len() + k) as int] == dst@,
                forall|j: int| 0 <= j < self.sub@.len() ==> (#[trigger] self.sub@[j]).tags_step(ms[j], ms[j + 1]),
                forall|kk: int| 0 <= kk < k ==> (kk < self.opt_check@.len()
                    ==> (#[trigger] self.opt@[kk]).tags_step(ms[self.sub@.len() + kk], ms[self.sub@.len() + kk + 1])),
                forall|kk: int| 0 <= kk < k && kk >= self.opt_check@.len()
                    ==> #[trigger] ms[self.sub@.len() + kk + 1] == ms[self.sub@.len() + kk],
                k <= self.opt@.len(),
                forall|j: int| 0 <= j < self.opt@.len() ==> (#[trigger] self.opt@[j]).height() <= index_seq_height(self.opt@, 0),
            decreases self.opt@.len() - k,
        {
            if k < self.opt_check.len() {
                self.opt[k].tag_results(dst);
            }
            proof {
                ms = ms.push(dst@);
            }
            k = k + 1;
        }
    }

    /// Closes the sub-indexes, then the optional ones; stops at the first error.
    pub fn close(&mut self) -> (r: Result<(), String>)
        ensures
            final(self).height() <= old(self).height(),
            (forall|j: int| 0 <= j < old(self).sub@.len() ==> (#[trigger] old(self).sub@[j]).is_plain())
                && (forall|j: int| 0 <= j < old(self).opt@.len() ==> (#[trigger] old(self).opt@[j]).is_plain()) ==> r is Ok,
            (exists|j: int| 0 <= j < old(self).sub@.len() && (#[trigger] old(self).sub@[j]).is_error()) ==> r is Err,
        decreases old(self).height(), 0nat,
    {
        proof {
            lemma_index_seq_all_below(old(self).sub@);
            lemma_index_seq_all_below(old(self).opt@);
        }
        let mut i: usize = 0;
        while i < self.sub.len()
            invariant
                i <= self.sub@.len(),
                self.sub@.len() == old(self).sub@.len(),
                self.opt == old(self).opt,
                forall|j: int| i <= j < self.sub@.len() ==> self.sub@[j] == old(self).sub@[j],
                forall|j: int| 0 <= j < i ==> !(#[trigger] old(self).sub@[j]).is_error(),
                forall|j: int| 0 <= j < self.sub@.len() ==> (#[trigger] self.sub@[j]).height() <= old(self).sub@[j].height(),
                forall|j: int| 0 <= j < old(self).sub@.len() ==> (#[trigger] old(self).sub@[j]).height() <= index_seq_height(old(self).sub@, 0),
            decreases self.sub@.len() - i,
        {
            let res = self.sub[i].close();
            proof {
                lemma_index_seq_height_pointwise(self.sub@, old(self).sub@, 0);
            }
            if res.is_err() {
                return res;
            }
            i = i + 1;
        }
        proof {
            lemma_index_seq_height_pointwise(self.sub@, old(self).sub@, 0);
        }
        let mut k: usize = 0;
        while k < self.opt.len()
            invariant
                k <= self.opt@.len(),
                self.opt@.len() == old(self).opt@.len(),
                self.sub@.len() == old(self).sub@.len(),
                forall|j: int| 0 <= j < self.sub@.len() ==> !(#[trigger] old(self).sub@[j]).is_error(),
                forall|j: int| k <= j < self.opt@.len() ==> self.opt@[j] == old(self).opt@[j],
                index_seq_height(self.sub@, 0) <= index_seq_height(old(self).sub@, 0),
                forall|j: int| 0 <= j < self.opt@.len() ==> (#[trigger] self.opt@[j]).height() <= old(self).opt@[j].height(),
                forall|j: int| 0 <= j < old(self).opt@.len() ==> (#[trigger] old(self).opt@[j]).height() <= index_seq_height(old(self).opt@, 0),
            decreases self.opt@.len() - k,
        {
            let res = self.opt[k].close();
            proof {
                lemma_index_seq_height_pointwise(self.opt@, old(self).opt@, 0);
            }
            if res.is_err() {
                return res;
            }
            k = k + 1;
        }
        proof {
            lemma_index_seq_height_pointwise(self.opt@, old(self).opt@, 0);
        }
        Ok(())
    }
}

} // verus!
