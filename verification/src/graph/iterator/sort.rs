//! Lists the results of another iterator ordered by the printed form of the
//! value that the store gives each.
use vstd::prelude::*;
use crate::graph::refs::{Ref, RefV};
use crate::graph::value::Value;
use crate::graph::iterator::fixed::refs_view;
use crate::graph::quad::QuadStore;
use crate::graph::iterator::{Shape, Scanner, Costs};
use crate::graph::iterator::count::{paths_advanced, lemma_paths_advanced_push};
use crate::graph::iterator::costs::sort_costs;
use crate::graph::iterator::materialize::MaterializeResult;
use crate::graph::iterator::tags::TagMap;
use crate::strutil::{
    copy_string, seq_lt, str_lt, lemma_seq_lt_irreflexive, lemma_seq_lt_transitive, lemma_seq_lt_total,
};

verus! {

broadcast use vstd::seq_lib::group_to_multiset_ensures;

/// The results of `it`, ordered by name.
pub struct Sort {
    pub it: Box<Shape>,
}

/// A result with its name and its further paths.
pub struct SortValue {
    pub result: MaterializeResult,
    pub string: String,
    pub paths: Vec<MaterializeResult>,
}

/// The names of a list of sort values.
pub open spec fn sort_keys(s: Seq<SortValue>) -> Seq<Seq<char>> {
    s.map_values(|x: SortValue| x.string@)
}

/// The results of a list of sort values, as views.
pub open spec fn sort_ids(s: Seq<SortValue>) -> Seq<RefV> {
    s.map_values(|x: SortValue| x.result.id@)
}

/// The references of `s` that the store gives a name, in order.
pub open spec fn named_refs<Q: QuadStore>(qs: Q, s: Seq<RefV>) -> Seq<RefV>
    decreases s.len(),
{
    if s.len() == 0 {
        s
    } else if qs.spec_name_of(s.last()) is Some {
        named_refs(qs, s.drop_last()).push(s.last())
    } else {
        named_refs(qs, s.drop_last())
    }
}

/// Whether the store names the result of `x`, and `x` carries the printed
/// form of that name.
pub open spec fn named_value<Q: QuadStore>(qs: Q, x: SortValue) -> bool {
    exists|y: Value| qs.spec_name_of(x.result.id@) == Some(y@) && x.string@ == #[trigger] y.spec_text()
}

/// Whether a walk of the scanner `sc`, from `start`, has gathered the
/// results `ids` so far: for a fixed list, the values the store names,
/// from `start`'s position up to the current one.
pub open spec fn fixed_gathered<Q: QuadStore>(qs: Q, start: Scanner, sc: Scanner, ids: Seq<RefV>) -> bool {
    start matches Scanner::Fixed(f) ==> sc matches Scanner::Fixed(n) && n.values == f.values
        && f.ind <= n.ind <= n.values@.len()
        && ids == named_refs(qs, refs_view(f.values@).subrange(f.ind as int, n.ind as int))
}

/// Whether the store names the result `res`.
pub open spec fn named_result<Q: QuadStore>(qs: Q, res: Option<RefV>) -> bool {
    res matches Some(x) && qs.spec_name_of(x) is Some
}

/// Whether a walk from `a` that moves to each result, and through the
/// further paths of each result the store names, reaches `b`, having
/// gathered the named results `ids` in order.
pub open spec fn gathered_walk<Q: QuadStore>(qs: Q, a: Scanner, b: Scanner, ids: Seq<RefV>, n: nat, qb: nat) -> bool
    decreases n,
{
    if n == 0 {
        a == b && ids.len() == 0
    } else {
        exists|m: Scanner, x: Scanner| #[trigger] m.next_step(x, true, qb)
            && (named_result(qs, x.spec_result()) ==> ids.len() > 0 && ids.last() == x.spec_result()->0
                && gathered_walk(qs, a, m, ids.drop_last(), (n - 1) as nat, qb)
                && exists|y: Scanner, k: nat| #[trigger] paths_advanced(x, y, k, qb) && y.path_step(b, false, qb))
            && (!named_result(qs, x.spec_result()) ==> gathered_walk(qs, a, m, ids, (n - 1) as nat, qb) && b == x)
    }
}

/// Whether the walk of `start` that ran out at `end` gathered, once
/// ordered by name, the results of `ordered`, and `err` is the error that
/// the walk reported.
pub open spec fn sorted_walk<Q: QuadStore>(qs: Q, start: Scanner, end: Scanner,
    ordered: Option<Vec<SortValue>>, err: Option<String>, qb: nat) -> bool
{
    exists|m: Scanner, ids: Seq<RefV>, n: nat|
        #![trigger gathered_walk(qs, start, m, ids, n, qb)]
        gathered_walk(qs, start, m, ids, n, qb) && m.next_step(end, false, qb)
        && (ordered matches Some(o) ==> sort_ids(o@).to_multiset() == ids.to_multiset() && keys_sorted(sort_keys(o@)))
        && (err matches Some(e) ==> Some(e@) == end.spec_err())
}

/// Whether no name comes before an earlier one.
pub open spec fn keys_sorted(k: Seq<Seq<char>>) -> bool {
    forall|i: int, j: int| 0 <= i < j < k.len() ==> !seq_lt(#[trigger] k[j], #[trigger] k[i])
}

/// Orders `v` by name; values with the same name keep their order.
pub fn sort_by_name(v: Vec<SortValue>) -> (r: Vec<SortValue>)
    ensures
        keys_sorted(sort_keys(r@)),
        sort_keys(r@).to_multiset() == sort_keys(v@).to_multiset(),
        sort_ids(r@).to_multiset() == sort_ids(v@).to_multiset(),
        r@.len() == v@.len(),
        forall|i: int| 0 <= i < r@.len() ==> v@.contains(#[trigger] r@[i]),
{
    let mut v = v;
    let ghost orig = v@;
    let mut out: Vec<SortValue> = Vec::new();
    proof {
        assert(sort_keys(out@) =~= Seq::<Seq<char>>::empty());
        assert(sort_keys(out@).to_multiset() =~= vstd::multiset::Multiset::empty());
        assert(sort_ids(out@) =~= Seq::<RefV>::empty());
        assert(sort_ids(out@).to_multiset() =~= vstd::multiset::Multiset::empty());
    }
    while v.len() > 0
        invariant
            keys_sorted(sort_keys(out@)),
            sort_keys(out@).to_multiset().add(sort_keys(v@).to_multiset()) == sort_keys(orig).to_multiset(),
            sort_ids(out@).to_multiset().add(sort_ids(v@).to_multiset()) == sort_ids(orig).to_multiset(),
            forall|i: int| 0 <= i < out@.len() ==> orig.contains(#[trigger] out@[i]),
            orig.take(v@.len() as int) == v@,
            out@.len() + v@.len() == orig.len(),
        decreases v@.len(),
    {
        let ghost before = v@;
        let x = v.pop().unwrap();
        proof {
            assert(before =~= v@.push(x));
            assert(sort_keys(before) =~= sort_keys(v@).push(x.string@));
            assert(sort_ids(before) =~= sort_ids(v@).push(x.result.id@));
            assert(orig[v@.len() as int] == x);
            assert(orig.take(v@.len() as int) =~= v@);
        }
        let mut p: usize = 0;
        while p < out.len() && str_lt(&out[p].string, &x.string)
            invariant
                p <= out@.len(),
                forall|i: int| 0 <= i < p ==> seq_lt(#[trigger] sort_keys(out@)[i], x.string@),
            decreases out@.len() - p,
        {
            p = p + 1;
        }
        let ghost k = sort_keys(out@);
        let ghost ids = sort_ids(out@);
        let ghost out0 = out@;
        out.insert(p, x);
        proof {
            let k2 = sort_keys(out@);
            assert(k2 =~= k.insert(p as int, x.string@));
            assert forall|i: int, j: int| 0 <= i < j < k2.len() implies !seq_lt(#[trigger] k2[j], #[trigger] k2[i]) by {
                if i < p && j == p {
                    if seq_lt(x.string@, k[i]) {
                        lemma_seq_lt_transitive(x.string@, k[i], x.string@);
                        lemma_seq_lt_irreflexive(x.string@);
                    }
                } else if i == p && j > p {
                    let y = k[j - 1];
                    if seq_lt(y, x.string@) {
                        assert(!seq_lt(k[p as int], x.string@));
                        assert(!seq_lt(y, k[p as int]));
                        lemma_seq_lt_total(y, k[p as int]);
                        if y != k[p as int] {
                            lemma_seq_lt_transitive(k[p as int], y, x.string@);
                        }
                    }
                } else if i < p && j > p {
                    assert(k2[j] == k[j - 1]);
                    assert(k2[i] == k[i]);
                } else if j < p {
                    assert(k2[j] == k[j]);
                } else {
                    assert(k2[j] == k[j - 1]);
                    assert(k2[i] == k[i - 1]);
                }
            }
            vstd::seq_lib::to_multiset_insert(k, p as int, x.string@);
            vstd::seq_lib::to_multiset_build(sort_keys(v@), x.string@);
            assert(sort_keys(out@).to_multiset().add(sort_keys(v@).to_multiset())
                =~= sort_keys(orig).to_multiset());
            assert(sort_ids(out@) =~= ids.insert(p as int, x.result.id@));
            vstd::seq_lib::to_multiset_insert(ids, p as int, x.result.id@);
            vstd::seq_lib::to_multiset_build(sort_ids(v@), x.result.id@);
            assert(sort_ids(out@).to_multiset().add(sort_ids(v@).to_multiset())
                =~= sort_ids(orig).to_multiset());
            assert forall|i: int| 0 <= i < out@.len() implies orig.contains(#[trigger] out@[i]) by {
                if i < p {
                    assert(out@[i] == out0[i]);
                } else if i > p {
                    assert(out@[i] == out0[i - 1]);
                }
            }
        }
    }
    out
}

impl Sort {
    pub fn new(it: Shape) -> (r: Sort)
        ensures
            *r.it == it,
    {
        Sort { it: Box::new(it) }
    }

    pub open spec fn height(&self) -> nat {
        1 + self.it.height()
    }

    pub fn stats<Q: QuadStore>(&self, qs: &Q) -> (r: Result<Costs, String>)
        ensures
            crate::graph::iterator::known_costs(*self.it) matches Some(x) ==> r == Ok::<Costs, String>(crate::graph::iterator::costs::sort_costs_spec(x)),
        decreases self, 2nat,
    {
        let c = self.it.stats(qs)?;
        Ok(sort_costs(c))
    }

    pub fn iterate<Q: QuadStore>(&self, qs: &Q) -> (r: SortNext)
        ensures
            r.wf(qs.quad_bound()),
            r.height() <= self.height(),
            r.rank() <= self.it.max_rank(qs.quad_bound()) + 1,
            r.ordered is None,
            crate::graph::iterator::scans_as(*self.it, *r.it),
        decreases self, 0nat,
    {
        SortNext { it: Box::new(self.it.iterate(qs)), ordered: None, result: None, err: None, index: 0, path_index: 0 }
    }
}

/// Walks the scanner, gathering each result with its tags, its name and
/// its further paths; results that the store cannot name are left out. The
/// scanner's error, if any, is the outcome. The values come back ordered by
/// name.
pub fn get_sorted_values<Q: QuadStore>(qs: &Q, it: &mut Scanner) -> (r: Result<Vec<SortValue>, String>)
    requires
        old(it).wf(qs.quad_bound()),
    ensures
        final(it).wf(qs.quad_bound()),
        final(it).height() <= old(it).height(),
        final(it).rank() <= old(it).rank(),
        r matches Ok(v) ==> keys_sorted(sort_keys(v@)) && v@.len() <= old(it).rank(),
        r is Ok == !final(it).spec_failed(),
        r matches Ok(v) ==> forall|i: int| 0 <= i < v@.len() ==> named_value(*qs, #[trigger] v@[i]),
        *old(it) matches Scanner::Fixed(f) ==> (r matches Ok(v)
            && sort_ids(v@).to_multiset() == named_refs(*qs, refs_view(f.values@).skip(f.ind as int)).to_multiset()),
        exists|m: Scanner, ids: Seq<RefV>, n: nat|
            #![trigger gathered_walk(*qs, *old(it), m, ids, n, qs.quad_bound())]
            gathered_walk(*qs, *old(it), m, ids, n, qs.quad_bound())
            && m.next_step(*final(it), false, qs.quad_bound())
            && (r matches Ok(v) ==> sort_ids(v@).to_multiset() == ids.to_multiset()),
        r matches Err(e) ==> Some(e@) == final(it).spec_err(),
    decreases old(it).height(), 2nat,
{
    let qb = Ghost(qs.quad_bound());
    let ghost r0 = it.rank();
    let mut v: Vec<SortValue> = Vec::new();
    let ghost mut n: nat = 0;
    let ghost mut last = *it;
    proof {
        assert(sort_ids(v@) =~= Seq::<RefV>::empty());
        assert(gathered_walk(*qs, *old(it), *it, sort_ids(v@), 0, qb@));
        if *old(it) is Fixed {
            let f = old(it)->Fixed_0;
            assert(refs_view(f.values@).subrange(f.ind as int, f.ind as int) =~= Seq::<RefV>::empty());
            assert(sort_ids(v@) =~= Seq::<RefV>::empty());
        }
    }
    loop
        invariant_except_break
            gathered_walk(*qs, *old(it), *it, sort_ids(v@), n, qb@),
        invariant
            forall|i: int| 0 <= i < v@.len() ==> named_value(*qs, #[trigger] v@[i]),
            fixed_gathered(*qs, *old(it), *it, sort_ids(v@)),
            qb@ == qs.quad_bound(),
            it.wf(qb@),
            it.height() <= old(it).height(),
            v@.len() + it.rank() <= r0,
            r0 == old(it).rank(),
        ensures
            forall|i: int| 0 <= i < v@.len() ==> named_value(*qs, #[trigger] v@[i]),
            fixed_gathered(*qs, *old(it), *it, sort_ids(v@)),
            qb@ == qs.quad_bound(),
            it.wf(qb@),
            it.height() <= old(it).height(),
            v@.len() + it.rank() <= r0,
            r0 == old(it).rank(),
            *old(it) is Fixed ==> it->Fixed_0.ind == it->Fixed_0.values@.len(),
            gathered_walk(*qs, *old(it), last, sort_ids(v@), n, qb@),
            last.next_step(*it, false, qb@),
        decreases it.rank(),
    {
        let ghost v0 = v@;
        let ghost pre = *it;
        if !it.next(qs) {
            proof {
                last = pre;
            }
            proof {
                if *old(it) is Fixed {
                    crate::graph::iterator::lemma_ended_fixed(*it, qb@);
                }
            }
            break;
        }
        let ghost r1 = it.rank();
        let ghost it1 = *it;
        proof {
            if *old(it) is Fixed {
                let f = old(it)->Fixed_0;
                let n = it->Fixed_0;
                let vs = refs_view(f.values@);
                assert(vs.subrange(f.ind as int, n.ind as int).drop_last() =~= vs.subrange(f.ind as int, n.ind - 1));
                assert(vs.subrange(f.ind as int, n.ind as int).last() == f.values@[n.ind - 1]@);
            }
        }
        match it.result() {
            Some(id) => {
                match qs.name_of(&id) {
                    Some(name) => {
                        let string = name.to_string();
                        let mut tags = TagMap::new();
                        it.tag_results(&mut tags);
                        let mut paths: Vec<MaterializeResult> = Vec::new();
                        let ghost mut k: nat = 0;
                        let ghost mut y = *it;
                        proof {
                            assert(paths_advanced(it1, *it, 0, qb@));
                        }
                        loop
                            invariant_except_break
                                paths_advanced(it1, *it, k, qb@),
                            invariant
                                qb@ == qs.quad_bound(),
                                it.wf(qb@),
                                it.height() <= old(it).height(),
                                it.rank() <= r1,
                                *old(it) is Fixed ==> *it == it1 && it1 is Fixed,
                            ensures
                                it.wf(qb@),
                                it.height() <= old(it).height(),
                                it.rank() <= r1,
                                *old(it) is Fixed ==> *it == it1 && it1 is Fixed,
                                paths_advanced(it1, y, k, qb@),
                                y.path_step(*it, false, qb@),
                            decreases it.path_rank(),
                        {
                            let ghost py = *it;
                            if !it.next_path(qs) {
                                proof {
                                    y = py;
                                }
                                break;
                            }
                            proof {
                                lemma_paths_advanced_push(it1, py, *it, k, qb@);
                                k = k + 1;
                            }
                            let mut t = TagMap::new();
                            it.tag_results(&mut t);
                            paths.push(MaterializeResult { id: id.copy(), tags: t });
                        }
                        let ghost idv = id@;
                        v.push(SortValue { result: MaterializeResult { id, tags }, string, paths });
                        proof {
                            assert(sort_ids(v@) =~= sort_ids(v0).push(idv));
                            assert(named_value(*qs, v@[v@.len() - 1]));
                            assert(named_result(*qs, it1.spec_result()));
                            assert(sort_ids(v@).drop_last() =~= sort_ids(v0));
                            assert(paths_advanced(it1, y, k, qb@) && y.path_step(*it, false, qb@));
                            assert(gathered_walk(*qs, *old(it), pre, sort_ids(v0), n, qb@));
                            assert(gathered_walk(*qs, *old(it), *it, sort_ids(v@), (n + 1) as nat, qb@));
                            n = n + 1;
                        }
                    },
                    None => {
                        proof {
                            assert(!named_result(*qs, it1.spec_result()));
                            assert(gathered_walk(*qs, *old(it), pre, sort_ids(v0), n, qb@));
                            assert(gathered_walk(*qs, *old(it), *it, sort_ids(v@), (n + 1) as nat, qb@));
                            n = n + 1;
                        }
                    },
                }
            },
            None => {
                proof {
                    assert(!named_result(*qs, it1.spec_result()));
                    assert(gathered_walk(*qs, *old(it), pre, sort_ids(v0), n, qb@));
                    assert(gathered_walk(*qs, *old(it), *it, sort_ids(v@), (n + 1) as nat, qb@));
                    n = n + 1;
                }
            },
        }
    }
    proof {
        if *old(it) is Fixed {
            let f = old(it)->Fixed_0;
            assert(refs_view(f.values@).subrange(f.ind as int, f.values@.len() as int) =~= refs_view(f.values@).skip(f.ind as int));
        }
    }
    match it.err() {
        Some(e) => Err(e),
        None => {
            let ghost gathered = v@;
            let sorted = sort_by_name(v);
            proof {
                assert forall|i: int| 0 <= i < sorted@.len() implies named_value(*qs, #[trigger] sorted@[i]) by {
                    let j = choose|j: int| 0 <= j < gathered.len() && gathered[j] == sorted@[i];
                }
            }
            Ok(sorted)
        },
    }
}

/// Lists, in order of name, the results gathered on the first call.
pub struct SortNext {
    pub it: Box<Scanner>,
    pub ordered: Option<Vec<SortValue>>,
    pub result: Option<MaterializeResult>,
    pub err: Option<String>,
    pub index: usize,
    /// The number of further paths of the value at `index` listed so far.
    pub path_index: usize,
}

impl SortNext {
    pub open spec fn height(&self) -> nat {
        1 + self.it.height()
    }

    pub open spec fn wf(&self, qb: nat) -> bool {
        &&& self.it.wf(qb)
        &&& self.ordered matches Some(o) ==> keys_sorted(sort_keys(o@))
        &&& self.ordered matches Some(o) ==> (self.index < o@.len() ==> self.path_index <= o@[self.index as int].paths@.len())
    }

    pub open spec fn rank(&self) -> nat {
        match self.ordered {
            None => self.it.rank() + 1,
            Some(o) => if self.index <= o@.len() { (o@.len() - self.index) as nat } else { 0 },
        }
    }

    pub open spec fn path_rank(&self) -> nat {
        match self.ordered {
            Some(o) => if self.index < o@.len() {
                (o@[self.index as int].paths@.len() - self.path_index) as nat
            } else {
                0
            },
            None => 0,
        }
    }

    /// The first call gathers and orders the results (an error stops it);
    /// each call then moves to the next value in order.
    pub fn next<Q: QuadStore>(&mut self, qs: &Q) -> (r: bool)
        requires
            old(self).wf(qs.quad_bound()),
        ensures
            final(self).wf(qs.quad_bound()),
            final(self).height() <= old(self).height(),
            r ==> final(self).rank() < old(self).rank(),
            !r ==> final(self).rank() <= old(self).rank(),
            r ==> (final(self).ordered matches Some(o) && final(self).index >= 1
                && (final(self).result matches Some(x) && x.id@ == o@[final(self).index - 1].result.id@)),
            !r ==> final(self).result == old(self).result,
            old(self).err is Some ==> !r && *final(self) == *old(self),
            old(self).err is None && old(self).ordered is None ==> final(self).ordered is Some || final(self).err is Some,
            old(self).err is None && old(self).ordered is None
                ==> sorted_walk(*qs, *old(self).it, *final(self).it, final(self).ordered, final(self).err, qs.quad_bound()),
            old(self).err is None && old(self).ordered is Some ==> final(self).err is None && final(self).it == old(self).it,
            old(self).err is None ==> (old(self).ordered matches Some(o) ==> (r <==> old(self).index < o@.len())
                && final(self).ordered == old(self).ordered
                && (r ==> final(self).index == old(self).index + 1 && final(self).path_index == 0)),
        decreases old(self).height(), 0nat,
    {
        if self.err.is_some() {
            return false;
        }
        if self.ordered.is_none() {
            match get_sorted_values(qs, &mut self.it) {
                Err(e) => {
                    self.err = Some(e);
                    return false;
                },
                Ok(val) => {
                    self.ordered = Some(val);
                },
            }
        }
        match &self.ordered {
            Some(o) => {
                if self.index >= o.len() {
                    return false;
                }
                self.path_index = 0;
                self.result = Some(o[self.index].result.copy());
                self.index = self.index + 1;
                true
            },
            None => false,
        }
    }

    /// Moves to the next path of the value at the current position.
    pub fn next_path<Q: QuadStore>(&mut self, qs: &Q) -> (r: bool)
        requires
            old(self).wf(qs.quad_bound()),
        ensures
            final(self).wf(qs.quad_bound()),
            final(self).height() <= old(self).height(),
            final(self).rank() <= old(self).rank(),
            r ==> final(self).path_rank() < old(self).path_rank(),
            !r ==> final(self).path_rank() <= old(self).path_rank(),
            !r ==> *final(self) == *old(self),
            final(self).ordered == old(self).ordered,
            final(self).index == old(self).index,
            old(self).ordered is None ==> !r,
            old(self).ordered matches Some(o) ==> (r <==> old(self).index < o@.len()
                && old(self).path_index < o@[old(self).index as int].paths@.len()),
            r ==> (old(self).ordered matches Some(o) && final(self).path_index == old(self).path_index + 1
                && (final(self).result matches Some(x)
                    && x.id@ == o@[old(self).index as int].paths@[old(self).path_index as int].id@)),
    {
        match &self.ordered {
            Some(o) => {
                if self.index >= o.len() {
                    return false;
                }
                let paths = &o[self.index].paths;
                if self.path_index >= paths.len() {
                    return false;
                }
                self.result = Some(paths[self.path_index].copy());
                self.path_index = self.path_index + 1;
                true
            },
            None => false,
        }
    }

    pub fn result(&self) -> (r: Option<Ref>)
        ensures
            match (r, self.result) {
                (Some(a), Some(b)) => a@ == b.id@,
                (None, None) => true,
                _ => false,
            },
    {
        match &self.result {
            Some(x) => Some(x.id.copy()),
            None => None,
        }
    }

    pub fn err(&self) -> (r: Option<String>)
        ensures
            crate::graph::iterator::opt_text(r) == crate::graph::iterator::opt_text(self.err),
            r is Some == self.err is Some,
    {
        match &self.err {
            Some(e) => Some(copy_string(e)),
            None => None,
        }
    }

    /// The tags of the current value.
    pub fn tag_results(&self, dst: &mut TagMap)
        ensures
            self.result matches Some(x) ==> final(dst)@ == old(dst)@.union_prefer_right(x.tags@),
            self.result is None ==> final(dst)@ == old(dst)@,
    {
        match &self.result {
            Some(x) => dst.extend(&x.tags),
            None => {},
        }
    }

    /// Drops the ordered values and closes the scanner.
    pub fn close(&mut self) -> (r: Result<(), String>)
        ensures
            final(self).height() <= old(self).height(),
        decreases old(self).height(), 0nat,
    {
        self.ordered = None;
        self.it.close()
    }
}

} // verus!
