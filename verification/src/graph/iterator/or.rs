//! Union: the results of every sub-iterator in turn.
use vstd::prelude::*;
use crate::graph::refs::Ref;
use crate::graph::quad::QuadStore;
use crate::graph::iterator::{
    Shape, Scanner, Index, shape_seq_height, lemma_shape_seq_height, shape_seq_max_rank,
    scanner_seq_height, scanner_seq_wf, scanner_seq_rank, scanner_seq_path_rank,
    lemma_scanner_seq_all_below, lemma_scanner_seq_height_pointwise, lemma_scanner_seq_height_bound,
    lemma_scanner_seq_rank_pointwise, lemma_scanner_seq_path_rank_pointwise,
    lemma_scanner_seq_rank_below, lemma_scanner_seq_rank_mono, index_seq_height, index_seq_wf,
    index_seq_path_rank, lemma_index_seq_all_below, lemma_index_seq_height_pointwise,
    lemma_index_seq_path_rank_pointwise, lemma_index_seq_path_bound_same, index_seq_path_bound,
    shape_seq_max_path, lemma_index_seq_path_bound_below,
};
use crate::graph::iterator::and::lookup_all;
use crate::graph::iterator::tags::TagMap;
use crate::strutil::copy_string;
use crate::graph::iterator::and::stats_of_all;
use crate::graph::iterator::Costs;
use crate::graph::iterator::costs::{or_costs, or_costs_of};

verus! {

/// The union of `sub`. A short-circuiting union lists only the results of
/// the first sub-iterator that has any.
pub struct Or {
    pub is_short_circuiting: bool,
    pub sub: Vec<Shape>,
}

/// Makes a scanner for every shape of `s`.
pub fn iterate_all<Q: QuadStore>(s: &Vec<Shape>, qs: &Q) -> (r: Vec<Scanner>)
    ensures
        scanner_seq_wf(r@, qs.quad_bound()),
        scanner_seq_height(r@, 0) <= shape_seq_height(s@, 0),
        scanner_seq_rank(r@, 0) <= shape_seq_max_rank(s@, 0, qs.quad_bound()),
        r@.len() == s@.len(),
        forall|j: int| 0 <= j < r@.len() ==> (#[trigger] r@[j]).rank() <= s@[j].max_rank(qs.quad_bound()),
        forall|j: int| 0 <= j < r@.len() ==> crate::graph::iterator::scans_as(s@[j], #[trigger] r@[j]),
    decreases s, 0nat,
{
    let mut r: Vec<Scanner> = Vec::new();
    let mut i: usize = 0;
    while i < s.len()
        invariant
            i <= s@.len(),
            r@.len() == i,
            scanner_seq_wf(r@, qs.quad_bound()),
            forall|j: int| 0 <= j < r@.len() ==> (#[trigger] r@[j]).height() <= shape_seq_height(s@, 0),
            forall|j: int| 0 <= j < r@.len() ==> (#[trigger] r@[j]).rank() <= s@[j].max_rank(qs.quad_bound()),
            forall|j: int| 0 <= j < r@.len() ==> crate::graph::iterator::scans_as(s@[j], #[trigger] r@[j]),
        decreases s@.len() - i,
    {
        let x = s[i].iterate(qs);
        proof {
            lemma_shape_seq_height(s@, 0, i as int);
        }
        r.push(x);
        i = i + 1;
    }
    proof {
        lemma_scanner_seq_height_bound(r@, 0, shape_seq_height(s@, 0));
        lemma_scanner_seq_rank_below(r@, s@, 0, qs.quad_bound());
    }
    r
}

impl Or {
    pub fn new(sub: Vec<Shape>) -> (r: Or)
        ensures
            r.sub@ == sub@,
            !r.is_short_circuiting,
    {
        Or { is_short_circuiting: false, sub }
    }

    pub fn new_short_circuit(sub: Vec<Shape>) -> (r: Or)
        ensures
            r.sub@ == sub@,
            r.is_short_circuiting,
    {
        Or { is_short_circuiting: true, sub }
    }

    pub fn add_sub_iterator(&mut self, sub: Shape)
        ensures
            final(self).sub@ == old(self).sub@.push(sub),
            final(self).is_short_circuiting == old(self).is_short_circuiting,
    {
        self.sub.push(sub);
    }

    pub open spec fn height(&self) -> nat {
        1 + shape_seq_height(self.sub@, 0)
    }

    /// Costs add up; so do sizes, except that a short-circuiting union is as
    /// large as its largest sub-iterator.
    pub fn stats<Q: QuadStore>(&self, qs: &Q) -> (r: Result<Costs, String>)
        ensures
            r matches Ok(c) ==> exists|s: Seq<Costs>| s.len() == self.sub@.len()
                && c == or_costs(s, s.len() as int, self.is_short_circuiting),
            crate::graph::iterator::all_known(self.sub@) ==> r == Ok::<Costs, String>(
                or_costs(crate::graph::iterator::and::known_seq(self.sub@), self.sub@.len() as int, self.is_short_circuiting)),
        decreases self, 2nat,
    {
        let c = stats_of_all(&self.sub, qs)?;
        let r = or_costs_of(&c, self.is_short_circuiting);
        proof {
            assert(c@.len() == self.sub@.len() && r == or_costs(c@, c@.len() as int, self.is_short_circuiting));
        }
        Ok(r)
    }

    pub fn iterate<Q: QuadStore>(&self, qs: &Q) -> (r: OrNext)
        ensures
            r.wf(qs.quad_bound()),
            r.height() <= self.height(),
            r.rank() <= shape_seq_max_rank(self.sub@, 0, qs.quad_bound()),
            r.sub@.len() == self.sub@.len(),
            r.short_circuit == self.is_short_circuiting,
            r.cur_ind is None,
            r.result is None,
            forall|j: int| 0 <= j < self.sub@.len() ==> crate::graph::iterator::scans_as(#[trigger] self.sub@[j], r.sub@[j]),
        decreases self, 0nat,
    {
        let sub = iterate_all(&self.sub, qs);
        OrNext { short_circuit: self.is_short_circuiting, sub, cur_ind: None, result: None, err: None }
    }

    pub fn lookup<Q: QuadStore>(&self, qs: &Q) -> (r: OrContains)
        ensures
            index_seq_path_bound(r.sub@, 0) <= shape_seq_max_path(self.sub@, 0, qs.quad_bound()),
            r.wf(qs.quad_bound()),
            r.height() <= self.height(),
            r.sub@.len() == self.sub@.len(),
            r.cur_ind is None,
            r.result is None,
            forall|j: int| 0 <= j < self.sub@.len() ==> crate::graph::iterator::checks_as(#[trigger] self.sub@[j], r.sub@[j]),
        decreases self, 0nat,
    {
        let sub = lookup_all(&self.sub, 0, qs);
        OrContains { short_circuit: self.is_short_circuiting, sub, cur_ind: None, result: None, err: None }
    }
}

/// Where a union scanner resumes: its current sub-scanner, or the first.
pub open spec fn or_start(cur: Option<usize>) -> int {
    match cur {
        Some(c) => c as int,
        None => 0,
    }
}

/// Lists the results of the sub-scanners, one sub-scanner after the other.
pub struct OrNext {
    pub short_circuit: bool,
    pub sub: Vec<Scanner>,
    pub cur_ind: Option<usize>,
    pub result: Option<Ref>,
    pub err: Option<String>,
}

impl OrNext {
    pub open spec fn height(&self) -> nat {
        1 + scanner_seq_height(self.sub@, 0)
    }

    pub open spec fn wf(&self, qb: nat) -> bool {
        &&& scanner_seq_wf(self.sub@, qb)
        &&& self.cur_ind matches Some(c) ==> c <= self.sub@.len()
    }

    pub open spec fn rank(&self) -> nat {
        scanner_seq_rank(self.sub@, or_start(self.cur_ind))
    }

    pub open spec fn path_rank(&self) -> nat {
        scanner_seq_path_rank(self.sub@, 0)
    }

    /// Moves the current sub-scanner; when it is exhausted, goes on with the
    /// next one (a short-circuiting union stops instead, unless this is the
    /// first call). Stops at the first error.
    pub fn next<Q: QuadStore>(&mut self, qs: &Q) -> (r: bool)
        requires
            old(self).wf(qs.quad_bound()),
        ensures
            final(self).wf(qs.quad_bound()),
            final(self).height() <= old(self).height(),
            r ==> final(self).rank() < old(self).rank(),
            !r ==> final(self).rank() <= old(self).rank(),
            final(self).sub@.len() == old(self).sub@.len(),
            final(self).short_circuit == old(self).short_circuit,
            r ==> (final(self).cur_ind matches Some(c) && c < final(self).sub@.len()),
            old(self).cur_ind matches Some(o) ==> (final(self).cur_ind matches Some(n) && o <= n),
            old(self).short_circuit && old(self).cur_ind is Some ==> final(self).cur_ind == old(self).cur_ind,
            r ==> crate::graph::iterator::opt_ref_view(final(self).result) == final(self).sub@[final(self).cur_ind->0 as int].spec_result(),
            old(self).sub@.len() == 0 ==> !r && *final(self) == *old(self),
            (old(self).cur_ind matches Some(c) && c >= old(self).sub@.len()) ==> !r && *final(self) == *old(self),
            r ==> (final(self).cur_ind matches Some(c) && forall|j: int| or_start(old(self).cur_ind) <= j < c
                ==> crate::graph::iterator::ended(#[trigger] final(self).sub@[j], qs.quad_bound())),
            !r && final(self).err is None && !(old(self).short_circuit && old(self).cur_ind is Some)
                ==> forall|j: int| or_start(old(self).cur_ind) <= j < old(self).sub@.len()
                    ==> crate::graph::iterator::ended(#[trigger] final(self).sub@[j], qs.quad_bound()),
            !r && final(self).err is None ==> (old(self).cur_ind matches Some(c) ==> (c < old(self).sub@.len()
                ==> crate::graph::iterator::ended(final(self).sub@[c as int], qs.quad_bound()))),
            old(self).sub@.len() > 0 ==> final(self).cur_ind is Some,
            final(self).cur_ind matches Some(n) ==> forall|j: int| 0 <= j < old(self).sub@.len()
                && (j < or_start(old(self).cur_ind) || j > n) ==> #[trigger] final(self).sub@[j] == old(self).sub@[j],
            final(self).cur_ind matches Some(n) ==> forall|j: int| or_start(old(self).cur_ind) <= j < n && j < old(self).sub@.len()
                ==> (#[trigger] old(self).sub@[j]).next_step(final(self).sub@[j], false, qs.quad_bound()),
            final(self).cur_ind matches Some(n) ==> (n < old(self).sub@.len()
                ==> old(self).sub@[n as int].next_step(final(self).sub@[n as int], r, qs.quad_bound())),
            final(self).cur_ind matches Some(n) ==> (!r && n < old(self).sub@.len()
                ==> crate::graph::iterator::opt_text(final(self).err) == final(self).sub@[n as int].spec_err()),
            final(self).err is Some && final(self).err != old(self).err
                ==> !r && (final(self).cur_ind matches Some(n) && n < old(self).sub@.len()),
        decreases old(self).height(), 0nat,
    {
        let qb = Ghost(qs.quad_bound());
        let len = self.sub.len();
        match self.cur_ind {
            Some(c) => {
                if c >= len {
                    return false;
                }
            },
            None => {},
        }
        if len == 0 {
            return false;
        }
        let mut first = false;
        let mut c: usize = match self.cur_ind {
            Some(c) => c,
            None => {
                first = true;
                0
            },
        };
        self.cur_ind = Some(c);
        proof {
            lemma_scanner_seq_all_below(old(self).sub@);
        }
        loop
            invariant
                c < len,
                len == self.sub@.len(),
                len == old(self).sub@.len(),
                self.cur_ind == Some(c),
                qb@ == qs.quad_bound(),
                old(self).wf(qb@),
                self.short_circuit == old(self).short_circuit,
                scanner_seq_wf(self.sub@, qb@),
                or_start(old(self).cur_ind) <= c,
                first == (old(self).cur_ind is None),
                old(self).cur_ind matches Some(o) ==> o <= c,
                old(self).short_circuit && old(self).cur_ind is Some ==> old(self).cur_ind == Some(c),
                scanner_seq_rank(self.sub@, c as int) <= old(self).rank(),
                forall|j: int| or_start(old(self).cur_ind) <= j < c ==> crate::graph::iterator::ended(#[trigger] self.sub@[j], qb@),
                forall|j: int| 0 <= j < len ==> (#[trigger] self.sub@[j]).height() <= old(self).sub@[j].height(),
                forall|j: int| 0 <= j < len ==> (#[trigger] old(self).sub@[j]).height() <= scanner_seq_height(old(self).sub@, 0),
                forall|j: int| 0 <= j < len && (j < or_start(old(self).cur_ind) || j >= c) ==> #[trigger] self.sub@[j] == old(self).sub@[j],
                forall|j: int| or_start(old(self).cur_ind) <= j < c ==> (#[trigger] old(self).sub@[j]).next_step(self.sub@[j], false, qb@),
                self.err == old(self).err || self.err is None,
            decreases len - c,
        {
            let ghost before = self.sub@;
            let ok = self.sub[c].next(qs);
            proof {
                lemma_scanner_seq_height_pointwise(self.sub@, old(self).sub@, 0);
                assert forall|j: int| 0 <= j < len implies (#[trigger] self.sub@[j]).rank() <= before[j].rank() by {}
                lemma_scanner_seq_rank_pointwise(self.sub@, before, c as int, c as int);
            }
            if ok {
                self.result = self.sub[c].result();
                return true;
            }
            self.err = self.sub[c].err();
            if self.err.is_some() {
                return false;
            }
            if self.short_circuit && !first {
                return false;
            }
            c = c + 1;
            self.cur_ind = Some(c);
            if c >= len {
                return false;
            }
        }
    }

    /// Moves the current sub-scanner to another path.
    pub fn next_path<Q: QuadStore>(&mut self, qs: &Q) -> (r: bool)
        requires
            old(self).wf(qs.quad_bound()),
        ensures
            final(self).wf(qs.quad_bound()),
            final(self).height() <= old(self).height(),
            final(self).rank() <= old(self).rank(),
            r ==> final(self).path_rank() < old(self).path_rank(),
            !r ==> final(self).path_rank() <= old(self).path_rank(),
            final(self).cur_ind == old(self).cur_ind,
            final(self).sub@.len() == old(self).sub@.len(),
            !(old(self).cur_ind matches Some(c) && c < old(self).sub@.len()) ==> !r && *final(self) == *old(self),
            old(self).cur_ind matches Some(c) ==> (c < old(self).sub@.len() ==> old(self).sub@[c as int].path_step(final(self).sub@[c as int], r, qs.quad_bound())
                && forall|j: int| 0 <= j < old(self).sub@.len() && j != c ==> final(self).sub@[j] == old(self).sub@[j]),
        decreases old(self).height(), 0nat,
    {
        match self.cur_ind {
            Some(c) => {
                if c < self.sub.len() {
                    proof {
                        lemma_scanner_seq_all_below(old(self).sub@);
                    }
                    let ok = self.sub[c].next_path(qs);
                    proof {
                        lemma_scanner_seq_height_pointwise(self.sub@, old(self).sub@, 0);
                        lemma_scanner_seq_rank_pointwise(self.sub@, old(self).sub@, c as int, c as int);
                        lemma_scanner_seq_path_rank_pointwise(self.sub@, old(self).sub@, 0, c as int);
                    }
                    if !ok {
                        self.err = self.sub[c].err();
                    }
                    ok
                } else {
                    false
                }
            },
            None => false,
        }
    }

    pub fn result(&self) -> (r: Option<Ref>)
        ensures
            match (r, self.result) {
                (Some(a), Some(b)) => a@ == b@,
                (None, None) => true,
                _ => false,
            },
    {
        match &self.result {
            Some(v) => Some(v.copy()),
            None => None,
        }
    }

    pub fn err(&self) -> (r: Option<String>)
        ensures
            crate::graph::iterator::opt_text(r) == crate::graph::iterator::opt_text(self.err),
            match (r, self.err) {
                (Some(a), Some(b)) => a@ == b@,
                (None, None) => true,
                _ => false,
            },
    {
        match &self.err {
            Some(e) => Some(copy_string(e)),
            None => None,
        }
    }

    /// The tags of the current sub-scanner.
    pub fn tag_results(&self, dst: &mut TagMap)
        ensures
            self.cur_ind matches Some(c) ==> (c < self.sub@.len() ==> self.sub@[c as int].tags_step(old(dst)@, final(dst)@)),
            !(self.cur_ind matches Some(c) && c < self.sub@.len()) ==> *final(dst) == *old(dst),
        decreases self.height(), 0nat,
    {
        match self.cur_ind {
            Some(c) => {
                if c < self.sub.len() {
                    proof {
                        lemma_scanner_seq_all_below(self.sub@);
                    }
                    self.sub[c].tag_results(dst);
                }
            },
            None => {},
        }
    }

    /// Closes every sub-scanner; reports the first error.
    pub fn close(&mut self) -> (r: Result<(), String>)
        ensures
            final(self).height() <= old(self).height(),
            (forall|j: int| 0 <= j < old(self).sub@.len() ==> (#[trigger] old(self).sub@[j]).is_plain()) ==> r is Ok,
            (exists|j: int| 0 <= j < old(self).sub@.len() && (#[trigger] old(self).sub@[j]).is_error()) ==> r is Err,
        decreases old(self).height(), 0nat,
    {
        proof {
            lemma_scanner_seq_all_below(old(self).sub@);
        }
        let mut res: Result<(), String> = Ok(());
        let mut i: usize = 0;
        while i < self.sub.len()
            invariant
                i <= self.sub@.len(),
                self.sub@.len() == old(self).sub@.len(),
                forall|j: int| i <= j < self.sub@.len() ==> self.sub@[j] == old(self).sub@[j],
                (forall|j: int| 0 <= j < i ==> (#[trigger] old(self).sub@[j]).is_plain()) ==> res is Ok,
                (exists|j: int| 0 <= j < i && (#[trigger] old(self).sub@[j]).is_error()) ==> res is Err,
                forall|j: int| 0 <= j < self.sub@.len() ==> (#[trigger] self.sub@[j]).height() <= old(self).sub@[j].height(),
                forall|j: int| 0 <= j < old(self).sub@.len() ==> (#[trigger] old(self).sub@[j]).height() <= scanner_seq_height(old(self).sub@, 0),
            decreases self.sub@.len() - i,
        {
            let r = self.sub[i].close();
            if r.is_err() && res.is_ok() {
                res = r;
            }
            i = i + 1;
        }
        proof {
            lemma_scanner_seq_height_pointwise(self.sub@, old(self).sub@, 0);
        }
        res
    }
}

/// Checks membership in the sub-indexes, in order, until one contains.
pub struct OrContains {
    pub short_circuit: bool,
    pub sub: Vec<Index>,
    pub cur_ind: Option<usize>,
    pub result: Option<Ref>,
    pub err: Option<String>,
}

impl OrContains {
    /// A bound on `path_rank` that no operation changes.
    pub open spec fn path_bound(&self) -> nat {
        index_seq_path_bound(self.sub@, 0)
    }

    pub open spec fn height(&self) -> nat {
        1 + index_seq_height(self.sub@, 0)
    }

    pub open spec fn wf(&self, qb: nat) -> bool {
        &&& index_seq_wf(self.sub@, qb)
        &&& self.cur_ind matches Some(c) ==> c < self.sub@.len()
    }

    pub open spec fn path_rank(&self) -> nat {
        index_seq_path_rank(self.sub@, 0)
    }

    /// Whether some sub-index contains `val`; that one becomes the current
    /// sub-index and `val` the result. The first error stops the search.
    pub fn contains<Q: QuadStore>(&mut self, qs: &Q, val: &Ref) -> (r: bool)
        requires
            old(self).wf(qs.quad_bound()),
        ensures
            final(self).path_bound() == old(self).path_bound(),
            final(self).wf(qs.quad_bound()),
            final(self).height() <= old(self).height(),
            final(self).sub@.len() == old(self).sub@.len(),
            r ==> (final(self).result matches Some(v) && v@ == val@),
            r ==> final(self).cur_ind is Some,
            !r ==> final(self).result == old(self).result,
            r ==> (final(self).cur_ind matches Some(c)
                && old(self).sub@[c as int].contains_step(final(self).sub@[c as int], val@, true, qs.quad_bound())
                && forall|j: int| 0 <= j < c ==> (#[trigger] old(self).sub@[j]).contains_step(final(self).sub@[j], val@, false, qs.quad_bound())),
            r ==> (final(self).cur_ind matches Some(c) && forall|j: int| c < j < old(self).sub@.len()
                ==> #[trigger] final(self).sub@[j] == old(self).sub@[j]),
            !r ==> forall|j: int| 0 <= j < old(self).sub@.len()
                && (forall|k: int| 0 <= k < j ==> !(#[trigger] final(self).sub@[k]).spec_failed())
                ==> (#[trigger] old(self).sub@[j]).contains_step(final(self).sub@[j], val@, false, qs.quad_bound()),
        decreases old(self).height(), 0nat,
    {
        let qb = Ghost(qs.quad_bound());
        proof {
            lemma_index_seq_all_below(old(self).sub@);
        }
        let mut i: usize = 0;
        while i < self.sub.len()
            invariant
                i <= self.sub@.len(),
                self.sub@.len() == old(self).sub@.len(),
                qb@ == qs.quad_bound(),
                index_seq_wf(self.sub@, qb@),
                self.cur_ind == old(self).cur_ind,
                self.result == old(self).result,
                old(self).wf(qb@),
                forall|j: int| i <= j < self.sub@.len() ==> self.sub@[j] == old(self).sub@[j],
                forall|j: int| 0 <= j < i ==> (#[trigger] old(self).sub@[j]).contains_step(self.sub@[j], val@, false, qb@),
                forall|j: int| 0 <= j < i ==> !(#[trigger] self.sub@[j]).spec_failed(),
                forall|j: int| 0 <= j < self.sub@.len() ==> (#[trigger] self.sub@[j]).height() <= old(self).sub@[j].height(),
                forall|j: int| 0 <= j < self.sub@.len() ==> (#[trigger] self.sub@[j]).path_bound() == old(self).sub@[j].path_bound(),
                forall|j: int| 0 <= j < old(self).sub@.len() ==> (#[trigger] old(self).sub@[j]).height() <= index_seq_height(old(self).sub@, 0),
            decreases self.sub@.len() - i,
        {
            if self.sub[i].contains(qs, val) {
                self.cur_ind = Some(i);
                self.result = Some(val.copy());
                proof {
                    lemma_index_seq_height_pointwise(self.sub@, old(self).sub@, 0);
                    lemma_index_seq_path_bound_same(self.sub@, old(self).sub@, 0);
                }
                return true;
            }
            let e = self.sub[i].err();
            if e.is_some() {
                self.err = e;
                proof {
                    lemma_index_seq_height_pointwise(self.sub@, old(self).sub@, 0);
                    lemma_index_seq_path_bound_same(self.sub@, old(self).sub@, 0);
                }
                return false;
            }
            i = i + 1;
        }
        proof {
            lemma_index_seq_height_pointwise(self.sub@, old(self).sub@, 0);
            lemma_index_seq_path_bound_same(self.sub@, old(self).sub@, 0);
        }
        false
    }

    /// Moves the current sub-index to another path.
    pub fn next_path<Q: QuadStore>(&mut self, qs: &Q) -> (r: bool)
        requires
            old(self).wf(qs.quad_bound()),
        ensures
            final(self).path_bound() == old(self).path_bound(),
            final(self).wf(qs.quad_bound()),
            final(self).height() <= old(self).height(),
            r ==> final(self).path_rank() < old(self).path_rank(),
            !r ==> final(self).path_rank() <= old(self).path_rank(),
            final(self).cur_ind == old(self).cur_ind,
            old(self).cur_ind is None ==> !r && *final(self) == *old(self),
            old(self).cur_ind matches Some(c) ==> old(self).sub@[c as int].path_step(final(self).sub@[c as int], r, qs.quad_bound())
                && forall|j: int| 0 <= j < old(self).sub@.len() && j != c ==> final(self).sub@[j] == old(self).sub@[j],
        decreases old(self).height(), 0nat,
    {
        match self.cur_ind {
            Some(c) => {
                proof {
                    lemma_index_seq_all_below(old(self).sub@);
                }
                let ok = self.sub[c].next_path(qs);
                proof {
                    lemma_index_seq_height_pointwise(self.sub@, old(self).sub@, 0);
                    lemma_index_seq_path_bound_same(self.sub@, old(self).sub@, 0);
                    lemma_index_seq_path_rank_pointwise(self.sub@, old(self).sub@, 0, c as int);
                }
                if !ok {
                    self.err = self.sub[c].err();
                }
                ok
            },
            None => false,
        }
    }

    pub fn result(&self) -> (r: Option<Ref>)
        ensures
            match (r, self.result) {
                (Some(a), Some(b)) => a@ == b@,
                (None, None) => true,
                _ => false,
            },
    {
        match &self.result {
            Some(v) => Some(v.copy()),
            None => None,
        }
    }

    pub fn err(&self) -> (r: Option<String>)
        ensures
            crate::graph::iterator::opt_text(r) == crate::graph::iterator::opt_text(self.err),
            match (r, self.err) {
                (Some(a), Some(b)) => a@ == b@,
                (None, None) => true,
                _ => false,
            },
    {
        match &self.err {
            Some(e) => Some(copy_string(e)),
            None => None,
        }
    }

    /// The tags of the current sub-index.
    pub fn tag_results(&self, dst: &mut TagMap)
        ensures
            self.cur_ind matches Some(c) ==> (c < self.sub@.len() ==> self.sub@[c as int].tags_step(old(dst)@, final(dst)@)),
            !(self.cur_ind matches Some(c) && c < self.sub@.len()) ==> *final(dst) == *old(dst),
        decreases self.height(), 0nat,
    {
        match self.cur_ind {
            Some(c) => {
                if c < self.sub.len() {
                    proof {
                        lemma_index_seq_all_below(self.sub@);
                    }
                    self.sub[c].tag_results(dst);
                }
            },
            None => {},
        }
    }

    /// Closes every sub-index; reports the first error.
    pub fn close(&mut self) -> (r: Result<(), String>)
        ensures
            final(self).height() <= old(self).height(),
            (forall|j: int| 0 <= j < old(self).sub@.len() ==> (#[trigger] old(self).sub@[j]).is_plain()) ==> r is Ok,
            (exists|j: int| 0 <= j < old(self).sub@.len() && (#[trigger] old(self).sub@[j]).is_error()) ==> r is Err,
        decreases old(self).height(), 0nat,
    {
        proof {
            lemma_index_seq_all_below(old(self).sub@);
        }
        let mut res: Result<(), String> = Ok(());
        let mut i: usize = 0;
        while i < self.sub.len()
            invariant
                i <= self.sub@.len(),
                self.sub@.len() == old(self).sub@.len(),
                forall|j: int| i <= j < self.sub@.len() ==> self.sub@[j] == old(self).sub@[j],
                (forall|j: int| 0 <= j < i ==> (#[trigger] old(self).sub@[j]).is_plain()) ==> res is Ok,
                (exists|j: int| 0 <= j < i && (#[trigger] old(self).sub@[j]).is_error()) ==> res is Err,
                forall|j: int| 0 <= j < self.sub@.len() ==> (#[trigger] self.sub@[j]).height() <= old(self).sub@[j].height(),
                forall|j: int| 0 <= j < old(self).sub@.len() ==> (#[trigger] old(self).sub@[j]).height() <= index_seq_height(old(self).sub@, 0),
            decreases self.sub@.len() - i,
        {
            let r = self.sub[i].close();
            if r.is_err() && res.is_ok() {
                res = r;
            }
            i = i + 1;
        }
        proof {
            lemma_index_seq_height_pointwise(self.sub@, old(self).sub@, 0);
        }
        res
    }
}

} // verus!
