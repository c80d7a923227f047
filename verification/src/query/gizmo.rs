//! The query interface: a session over a store, and paths built step by
//! step from a start and run to a list of values or of tagged values.
use vstd::prelude::*;
use crate::graph::value::{Value, ValueV};
use crate::graph::refs::{Ref, RefV};
use crate::graph::iterator::fixed::refs_view;
use crate::graph::iterator::unique::values_view;
use crate::graph::quad::{Quad, QuadStore, QuadWriter, IgnoreOptions, add_delta};
use crate::graph::graphmock;
use crate::graph::iterator::save::tag as tag_shape;
use crate::graph::iterator::iterate::{each_results, each_tags};
use crate::graph::iterator::tags::{TagMap, entries_view, tag_map_of, last_under_name, lemma_tag_map_last, lemma_tag_map_key_last};
use crate::graph::iterator::value_filter::{Operator, regex_valid};
use crate::query::path;
use crate::query::path::Via;
use crate::query::morphism::Morphism;
use crate::query::filter::{ValueFilter, Regexp, Wildcard, Comparison};
use crate::strutil::string_of;

verus! {

/// A store, the writer that adds quads to it, and the limit on the results
/// of a query (none when not positive).
pub struct Session<Q: QuadStore> {
    pub qs: Q,
    pub qw: QuadWriter,
    pub limit: i64,
}

/// A graph and its session.
pub struct GraphWrapper {
    pub g: Graph,
    pub s: Session<graphmock::Store>,
}

/// A graph in memory: a list of quads, duplicates and missing quads
/// ignored when writing, and no limit on results.
pub fn new_memory_graph() -> (r: GraphWrapper)
    ensures
        r.s.qs.data@.len() == 0,
        r.s.qw.ignore_opts.ignore_dup,
        r.s.qw.ignore_opts.ignore_missing,
        r.s.limit == -1,
{
    let s = Session {
        qs: graphmock::Store::new(),
        qw: QuadWriter::new(IgnoreOptions { ignore_dup: true, ignore_missing: true }),
        limit: -1,
    };
    GraphWrapper { g: Graph::new(), s }
}

impl GraphWrapper {
    /// The start of queries on this graph.
    pub fn graph(&mut self) -> (r: &mut Graph) {
        &mut self.g
    }

    /// The start of queries on this graph (a shorter name).
    pub fn g(&mut self) -> (r: &mut Graph) {
        &mut self.g
    }
}

/// Writing `quads` one after the other to the store `a`, each as a batch of
/// one addition, may leave the store `b` and answer `r`: the first refusal
/// ends the writing with its error.
pub open spec fn written<Q: QuadStore>(a: Q, quads: Seq<Quad>, opts: IgnoreOptions, b: Q, r: Result<(), String>) -> bool
    decreases quads.len(),
{
    if quads.len() == 0 {
        b == a && r is Ok
    } else {
        exists|m: Q, r1: Result<(), String>| #[trigger] a.applied(seq![add_delta(quads[0])], opts, m, r1)
            && match r1 {
                Err(_) => b == m && r == r1,
                Ok(_) => written(m, quads.drop_first(), opts, b, r),
            }
    }
}

/// Writing to a graph in memory never fails, and the store then holds the
/// quads it held, followed by the quads written, in order.
pub proof fn lemma_memory_write_appends(a: graphmock::Store, quads: Seq<Quad>, opts: IgnoreOptions, b: graphmock::Store, r: Result<(), String>)
    requires
        written(a, quads, opts, b, r),
    ensures
        r is Ok,
        graphmock::quads_view(b.data@) == graphmock::quads_view(a.data@) + graphmock::quads_view(quads),
    decreases quads.len(),
{
    if quads.len() == 0 {
        assert(graphmock::quads_view(quads) =~= Seq::<crate::graph::quad::QuadV>::empty());
        assert(graphmock::quads_view(a.data@) + graphmock::quads_view(quads) =~= graphmock::quads_view(a.data@));
    } else {
        let (m, r1) = choose|m: graphmock::Store, r1: Result<(), String>| #[trigger] a.applied(seq![add_delta(quads[0])], opts, m, r1)
            && match r1 {
                Err(_) => b == m && r == r1,
                Ok(_) => written(m, quads.drop_first(), opts, b, r),
            };
        let ds = seq![add_delta(quads[0])];
        assert(ds.drop_last() =~= Seq::<crate::graph::quad::Delta>::empty());
        assert(ds.last() == add_delta(quads[0]));
        assert(graphmock::mock_apply(graphmock::quads_view(a.data@), ds.drop_last()) == Some(graphmock::quads_view(a.data@)));
        assert(graphmock::mock_apply(graphmock::quads_view(a.data@), ds)
            == Some(graphmock::quads_view(a.data@).push(quads[0]@)));
        assert(r1 is Ok);
        lemma_memory_write_appends(m, quads.drop_first(), opts, b, r);
        assert(graphmock::quads_view(quads) =~= seq![quads[0]@] + graphmock::quads_view(quads.drop_first()));
        assert(graphmock::quads_view(b.data@) =~= graphmock::quads_view(a.data@) + graphmock::quads_view(quads));
    }
}

impl<Q: QuadStore> Session<Q> {
    /// Adds the quads, one after the other, each as a batch of one
    /// addition; stops at the first the store refuses, with its error.
    pub fn write(&mut self, quads: Vec<Quad>) -> (r: Result<(), String>)
        ensures
            written(old(self).qs, quads@, old(self).qw.ignore_opts, final(self).qs, r),
            final(self).qw == old(self).qw,
            final(self).limit == old(self).limit,
    {
        let ghost all = quads@;
        let ghost opts = self.qw.ignore_opts;
        let mut pending = quads;
        while pending.len() > 0
            invariant
                self.qw == old(self).qw,
                self.limit == old(self).limit,
                opts == self.qw.ignore_opts,
                all == quads@,
                forall|b: Q, rr: Result<(), String>| written(self.qs, pending@, opts, b, rr)
                    ==> #[trigger] written(old(self).qs, all, opts, b, rr),
            decreases pending@.len(),
        {
            let ghost before = self.qs;
            let ghost rest = pending@;
            let q = pending.remove(0);
            let res = self.qw.add_quad(&mut self.qs, q);
            proof {
                assert(rest[0] == q);
                assert(rest.drop_first() =~= pending@);
            }
            if res.is_err() {
                proof {
                    assert(before.applied(seq![add_delta(rest[0])], opts, self.qs, res));
                    assert(written(before, rest, opts, self.qs, res));
                    assert(written(old(self).qs, all, opts, self.qs, res));
                }
                return res;
            }
            proof {
                assert forall|b: Q, rr: Result<(), String>| written(self.qs, pending@, opts, b, rr)
                    implies #[trigger] written(old(self).qs, all, opts, b, rr) by {
                    assert(before.applied(seq![add_delta(rest[0])], opts, self.qs, res));
                    assert(written(before, rest, opts, b, rr));
                }
            }
        }
        proof {
            assert(written(self.qs, pending@, opts, self.qs, Ok(())));
            assert(written(old(self).qs, all, opts, self.qs, Ok(())));
        }
        Ok(())
    }
}

/// The start of queries.
pub struct Graph {}

impl Graph {
    pub fn new() -> (r: Graph) {
        Graph {}
    }

    /// A query that starts at the nodes with the given values (at all nodes
    /// when there are none).
    pub fn v(&self, qv: Values) -> (r: Path)
        ensures
            r.finals,
            r.path.stack@.len() == 1,
            r.path.stack@[0] matches Morphism::Is(m) && m.nodes@ == qv.spec_to_vec(),
    {
        Path::new(true, path::Path::start_path(qv.to_vec()))
    }

    /// A morphism: a path to be followed from elsewhere.
    pub fn m(&self) -> (r: Path)
        ensures
            !r.finals,
            r.path.stack@.len() == 1,
            r.path.stack@[0] matches Morphism::Is(m) && m.nodes@.len() == 0,
    {
        Path::new(false, path::Path::start_morphism(Vec::new()))
    }
}

/// A query path, and whether it may be run (rather than only followed).
pub struct Path {
    pub finals: bool,
    pub path: path::Path,
}

/// The value the store gives a reference.
fn ref_to_value<Q: QuadStore>(r: &Ref, qs: &Q) -> (v: Option<Value>)
    ensures
        match qs.spec_name_of(r@) {
            Some(x) => v matches Some(y) && y@ == x,
            None => v is None,
        },
{
    qs.name_of(r)
}

/// The tags of a result as values (each tag once, with the reference last
/// recorded under it), leaving out those the store cannot name; none when
/// none is left.
fn tags_to_value_map<Q: QuadStore>(m: &TagMap, qs: &Q) -> (r: Option<Vec<(String, Value)>>)
    ensures
        r matches Some(v) ==> v@.len() > 0,
        r matches Some(v) ==> forall|t: int| 0 <= t < v@.len() ==> m@.contains_key((#[trigger] v@[t]).0@)
            && qs.spec_name_of(m@[v@[t].0@]) == Some(v@[t].1@),
        r is None ==> forall|k: Seq<char>| #[trigger] m@.contains_key(k) ==> qs.spec_name_of(m@[k]) is None,
{
    let ghost s = entries_view(m.entries@);
    let ghost n = m.entries@.len() as int;
    let mut out: Vec<(String, Value)> = Vec::new();
    let mut seen: Vec<String> = Vec::new();
    let mut i: usize = m.entries.len();
    while i > 0
        invariant
            i <= m.entries@.len(),
            s == entries_view(m.entries@),
            n == s.len(),
            forall|l: int| i <= l < n ==> names_view(seen@).contains(#[trigger] s[l].0),
            forall|t: int| #![trigger seen@[t]] 0 <= t < seen@.len() ==> exists|l: int| i <= l < n && (#[trigger] s[l]).0 == seen@[t]@,
            forall|t: int| 0 <= t < out@.len() ==> tag_map_of(s).contains_key((#[trigger] out@[t]).0@)
                && qs.spec_name_of(tag_map_of(s)[out@[t].0@]) == Some(out@[t].1@),
            out@.len() == 0 ==> forall|l: int| i <= l < n && last_under_name(s, l) ==> qs.spec_name_of((#[trigger] s[l]).1) is None,
        decreases i,
    {
        i = i - 1;
        let mut dup = false;
        let mut j: usize = 0;
        while j < seen.len()
            invariant
                j <= seen@.len(),
                i < m.entries@.len(),
                s == entries_view(m.entries@),
                dup <==> exists|t: int| 0 <= t < j && (#[trigger] seen@[t])@ == s[i as int].0,
            decreases seen@.len() - j,
        {
            if crate::strutil::str_eq(&seen[j], &m.entries[i].0) {
                dup = true;
            }
            j = j + 1;
        }
        let ghost old_seen = seen@;
        if !dup {
            proof {
                assert forall|l: int| i < l < n implies (#[trigger] s[l]).0 != s[i as int].0 by {
                    if s[l].0 == s[i as int].0 {
                        let t = choose|t: int| 0 <= t < names_view(seen@).len() && names_view(seen@)[t] == s[l].0;
                        assert(seen@[t]@ == s[i as int].0);
                    }
                }
                lemma_tag_map_last(s, i as int);
            }
            let name = m.entries[i].0.clone();
            seen.push(name);
            proof {
                assert(names_view(seen@) =~= names_view(old_seen).push(s[i as int].0));
                assert forall|l: int| i <= l < n implies names_view(seen@).contains(#[trigger] s[l].0) by {
                    if l == i {
                        assert(names_view(seen@)[old_seen.len() as int] == s[l].0);
                    } else {
                        let t = choose|t: int| 0 <= t < names_view(old_seen).len() && names_view(old_seen)[t] == s[l].0;
                        assert(names_view(seen@)[t] == s[l].0);
                    }
                }
            }
            match qs.name_of(&m.entries[i].1) {
                Some(v) => out.push((m.entries[i].0.clone(), v)),
                None => {},
            }
        } else {
            proof {
                let t = choose|t: int| 0 <= t < j && (#[trigger] seen@[t])@ == s[i as int].0;
                assert(names_view(seen@)[t] == s[i as int].0);
                let l = choose|l: int| i + 1 <= l < n && (#[trigger] s[l]).0 == seen@[t]@;
                assert(!last_under_name(s, i as int));
            }
        }
    }
    proof {
        assert(m@ == tag_map_of(s));
        if out@.len() == 0 {
            assert forall|k: Seq<char>| #[trigger] m@.contains_key(k) implies qs.spec_name_of(m@[k]) is None by {
                lemma_tag_map_key_last(s, k);
                let l = choose|l: int| 0 <= l < s.len() && (#[trigger] s[l]).0 == k && last_under_name(s, l);
                lemma_tag_map_last(s, l);
            }
        }
    }
    if out.len() == 0 {
        return None;
    }
    Some(out)
}

/// Whether `it` is the iterator tree that the path `p` builds over `qs`.
pub open spec fn builds<Q: QuadStore>(p: path::Path, qs: &Q, it: crate::graph::iterator::Shape) -> bool {
    exists|s: crate::query::shape::Shape| #[trigger] crate::query::shape::built_top(qs, s, it)
        && (if p.stack@.len() == 0 { s is AllNodes } else {
            exists|input: crate::query::shape::Shape| #[trigger] crate::query::morphism::applied_top(p.stack@.last(), input, s) })
}

/// The values the store gives the references of `s`, in order, leaving out
/// those it cannot name.
pub open spec fn named_values<Q: QuadStore>(qs: Q, s: Seq<RefV>) -> Seq<ValueV>
    decreases s.len(),
{
    if s.len() == 0 {
        Seq::empty()
    } else {
        let p = named_values(qs, s.drop_last());
        match qs.spec_name_of(s.last()) {
            Some(x) => p.push(x),
            None => p,
        }
    }
}

/// Whether `it` is the shape `b` with its results saved under the tag
/// `name` too.
pub open spec fn saved_as(b: crate::graph::iterator::Shape, it: crate::graph::iterator::Shape, name: Seq<char>) -> bool {
    it matches crate::graph::iterator::Shape::Save(s) && s.tags.tags@.len() > 0 && s.tags.tags@.last()@ == name
        && match b {
            crate::graph::iterator::Shape::Save(o) => s.it == o.it && s.tags.tags@.drop_last() == o.tags.tags@
                && s.tags.fixed_tags@ == o.tags.fixed_tags@,
            _ => *s.it == b && s.tags.tags@.len() == 1 && s.tags.fixed_tags@.len() == 0,
        }
}

/// The view of a result given as tagged values.
pub open spec fn pairs_view(v: Vec<(String, Value)>) -> Seq<(Seq<char>, ValueV)> {
    v@.map_values(|p: (String, Value)| (p.0@, p.1@))
}

/// Whether the store names a reference recorded in the tag map `m`.
pub open spec fn names_some_tag<Q: QuadStore>(qs: Q, m: Map<Seq<char>, RefV>) -> bool {
    exists|k: Seq<char>| #[trigger] m.contains_key(k) && qs.spec_name_of(m[k]) is Some
}

/// Whether the tagged values `v` are named tags of the map `m`, with the
/// values the store gives them, and there is at least one.
pub open spec fn values_of_tags<Q: QuadStore>(qs: Q, m: Map<Seq<char>, RefV>, v: Seq<(Seq<char>, ValueV)>) -> bool {
    v.len() > 0 && forall|t: int| 0 <= t < v.len() ==> m.contains_key(#[trigger] v[t].0) && qs.spec_name_of(m[v[t].0]) == Some(v[t].1)
}

/// Whether `r` is what converting the tag maps `maps` gives, in order: the
/// named tags of each map that has some, as values; nothing for the others.
pub open spec fn converted<Q: QuadStore>(qs: Q, maps: Seq<Map<Seq<char>, RefV>>, r: Seq<Seq<(Seq<char>, ValueV)>>) -> bool
    decreases maps.len(),
{
    if maps.len() == 0 {
        r.len() == 0
    } else if names_some_tag(qs, maps.last()) {
        r.len() > 0 && values_of_tags(qs, maps.last(), r.last()) && converted(qs, maps.drop_last(), r.drop_last())
    } else {
        converted(qs, maps.drop_last(), r)
    }
}

/// The views of a list of results given as tagged values.
pub open spec fn results_view(r: Seq<Vec<(String, Value)>>) -> Seq<Seq<(Seq<char>, ValueV)>> {
    r.map_values(|v: Vec<(String, Value)>| pairs_view(v))
}

/// Whether the store names the reference `r`.
pub open spec fn qs_named<Q: QuadStore>(qs: Q, r: RefV) -> bool {
    qs.spec_name_of(r) is Some
}

/// The names of a list of strings, as views.
pub open spec fn names_view(s: Seq<String>) -> Seq<Seq<char>> {
    s.map_values(|x: String| x@)
}

impl Path {
    fn new(finals: bool, path: path::Path) -> (r: Path)
        ensures
            r.finals == finals,
            r.path == path,
    {
        Path { finals, path }
    }

    /// The iterator tree of the path over the session's store.
    fn build_iterator_tree<Q: QuadStore>(&self, s: &Session<Q>) -> (r: crate::graph::iterator::Shape)
        ensures
            builds(self.path, &s.qs, r),
    {
        self.path.build_iterator_on(&s.qs)
    }

    /// The results, each as its tags (and the node itself under `id`) with
    /// the values the store gives them; at most `limit` when positive.
    /// The limit is kept for the session's later queries.
    pub fn get_limit<Q: QuadStore>(&self, s: &mut Session<Q>, limit: i64) -> (r: Vec<Vec<(String, Value)>>)
        ensures
            final(s).qs == old(s).qs,
            final(s).qw == old(s).qw,
            final(s).limit == limit,
            limit > 0 ==> r@.len() <= limit,
            exists|b: crate::graph::iterator::Shape, it: crate::graph::iterator::Shape, maps: Seq<Map<Seq<char>, RefV>>|
                builds(self.path, &old(s).qs, b) && #[trigger] saved_as(b, it, "id"@)
                && #[trigger] crate::graph::iterator::iterate::tags_run(it, maps, limit, old(s).qs.quad_bound())
                && converted(old(s).qs, maps, results_view(r@)),
    {
        let b = self.build_iterator_tree(s);
        let ghost gb = b;
        proof {
            reveal_strlit("id");
        }
        let idn = string_of("id");
        let ghost gn = idn;
        let it = tag_shape(b, idn);
        proof {
            assert(gn@ == "id"@);
            if gb is Save {
                assert(it->Save_0.tags.tags@.drop_last() =~= gb->Save_0.tags.tags@);
            }
            assert(saved_as(gb, it, "id"@));
        }
        s.limit = limit;
        let maps = each_tags(&s.qs, &it, limit);
        let ghost mv = crate::graph::iterator::iterate::maps_view(maps@);
        let mut out: Vec<Vec<(String, Value)>> = Vec::new();
        let mut i: usize = 0;
        proof {
            assert(mv.take(0) =~= Seq::<Map<Seq<char>, RefV>>::empty());
            assert(results_view(out@) =~= Seq::<Seq<(Seq<char>, ValueV)>>::empty());
        }
        while i < maps.len()
            invariant
                i <= maps@.len(),
                out@.len() <= i,
                limit > 0 ==> maps@.len() <= limit,
                mv == crate::graph::iterator::iterate::maps_view(maps@),
                converted(s.qs, mv.take(i as int), results_view(out@)),
            decreases maps@.len() - i,
        {
            let ghost before = results_view(out@);
            let c = tags_to_value_map(&maps[i], &s.qs);
            proof {
                assert(mv.take(i + 1).drop_last() =~= mv.take(i as int));
                assert(mv.take(i + 1).last() == maps@[i as int]@);
            }
            match c {
                Some(m) => {
                    proof {
                        assert(maps@[i as int]@.contains_key(m@[0].0@));
                        assert(names_some_tag(s.qs, maps@[i as int]@));
                    }
                    out.push(m);
                    proof {
                        assert(results_view(out@).drop_last() =~= before);
                        assert(results_view(out@).last() == pairs_view(out@.last()));
                        assert(values_of_tags(s.qs, maps@[i as int]@, pairs_view(out@.last())));
                    }
                },
                None => {
                    proof {
                        assert(!names_some_tag(s.qs, maps@[i as int]@));
                    }
                },
            }
            i = i + 1;
        }
        proof {
            assert(mv.take(maps@.len() as int) =~= mv);
        }
        out
    }

    /// The results as tagged values, with the session's limit.
    pub fn all<Q: QuadStore>(&self, s: &mut Session<Q>) -> (r: Vec<Vec<(String, Value)>>)
        ensures
            final(s).qs == old(s).qs,
            final(s).qw == old(s).qw,
            final(s).limit == old(s).limit,
            old(s).limit > 0 ==> r@.len() <= old(s).limit,
            exists|b: crate::graph::iterator::Shape, it: crate::graph::iterator::Shape, maps: Seq<Map<Seq<char>, RefV>>|
                builds(self.path, &old(s).qs, b) && #[trigger] saved_as(b, it, "id"@)
                && #[trigger] crate::graph::iterator::iterate::tags_run(it, maps, old(s).limit, old(s).qs.quad_bound())
                && converted(old(s).qs, maps, results_view(r@)),
    {
        let limit = s.limit;
        self.get_limit(s, limit)
    }

    /// The values of the results (those the store can name); at most
    /// `limit` when positive. The limit is kept for the session's later
    /// queries.
    pub fn get_limit_values<Q: QuadStore>(&self, s: &mut Session<Q>, limit: i64) -> (r: Vec<Value>)
        ensures
            final(s).qs == old(s).qs,
            final(s).qw == old(s).qw,
            final(s).limit == limit,
            limit > 0 ==> r@.len() <= limit,
            exists|it: crate::graph::iterator::Shape, refs: Seq<RefV>| builds(self.path, &old(s).qs, it)
                && #[trigger] crate::graph::iterator::iterate::run_lists(it, refs, limit, old(s).qs.quad_bound())
                && values_view(r@) == named_values(old(s).qs, refs),
    {
        let it = self.build_iterator_tree(s);
        s.limit = limit;
        let refs = each_results(&s.qs, &it, limit);
        let ghost rv = refs_view(refs@);
        let mut out: Vec<Value> = Vec::new();
        let mut i: usize = 0;
        proof {
            assert(rv.take(0) =~= Seq::<RefV>::empty());
            assert(values_view(out@) =~= Seq::<ValueV>::empty());
        }
        while i < refs.len()
            invariant
                i <= refs@.len(),
                out@.len() <= i,
                limit > 0 ==> refs@.len() <= limit,
                rv == refs_view(refs@),
                values_view(out@) == named_values(s.qs, rv.take(i as int)),
            decreases refs@.len() - i,
        {
            let ghost before = values_view(out@);
            match ref_to_value(&refs[i], &s.qs) {
                Some(v) => out.push(v),
                None => {},
            }
            proof {
                assert(rv.take(i + 1).drop_last() =~= rv.take(i as int));
                assert(rv.take(i + 1).last() == refs@[i as int]@);
                if qs_named(s.qs, refs@[i as int]@) {
                    assert(values_view(out@) =~= before.push(out@.last()@));
                } else {
                    assert(values_view(out@) =~= before);
                }
            }
            i = i + 1;
        }
        proof {
            assert(rv.take(refs@.len() as int) =~= rv);
        }
        out
    }

    /// The values of the results, with the session's limit.
    pub fn all_values<Q: QuadStore>(&self, s: &mut Session<Q>) -> (r: Vec<Value>)
        ensures
            final(s).qs == old(s).qs,
            final(s).qw == old(s).qw,
            final(s).limit == old(s).limit,
            old(s).limit > 0 ==> r@.len() <= old(s).limit,
            exists|it: crate::graph::iterator::Shape, refs: Seq<RefV>| builds(self.path, &old(s).qs, it)
                && #[trigger] crate::graph::iterator::iterate::run_lists(it, refs, old(s).limit, old(s).qs.quad_bound())
                && values_view(r@) == named_values(old(s).qs, refs),
    {
        let limit = s.limit;
        self.get_limit_values(s, limit)
    }

    /// Keeps the nodes with the given values.
    pub fn is(self, nodes: Values) -> (r: Path)
        ensures
            r.finals == self.finals,
            r.path.stack@.len() == self.path.stack@.len() + 1,
            r.path.stack@.drop_last() == self.path.stack@,
            r.path.stack@.last() matches Morphism::Is(m) && m.nodes@ == nodes.spec_to_vec(),
    {
        let mut p = self;
        p.path.is(nodes.to_vec());
        p
    }

    /// Goes from objects to subjects along quads with a predicate in `via`.
    pub fn in_(self, via: Via, tags: Tags) -> (r: Path)
        ensures
            r.finals == self.finals,
            r.path.stack@.len() == self.path.stack@.len() + 1,
            r.path.stack@.drop_last() == self.path.stack@,
            r.path.stack@.last() is In,
            r.path.base_context == self.path.base_context,
            r.path.stack@.last() matches Morphism::In(m) && m.via == via
                && (m.tags matches Some(t) && t@ == tags.spec_to_vec()),
    {
        let mut p = self;
        p.path.in_with_tags(tags.to_vec(), via);
        p
    }

    /// Goes from subjects to objects along quads with a predicate in `via`.
    pub fn out(self, via: Via, tags: Tags) -> (r: Path)
        ensures
            r.finals == self.finals,
            r.path.stack@.len() == self.path.stack@.len() + 1,
            r.path.stack@.drop_last() == self.path.stack@,
            r.path.stack@.last() is Out,
            r.path.base_context == self.path.base_context,
            r.path.stack@.last() matches Morphism::Out(m) && m.via == via
                && (m.tags matches Some(t) && t@ == tags.spec_to_vec()),
    {
        let mut p = self;
        p.path.out_with_tags(tags.to_vec(), via);
        p
    }

    /// Goes both ways along quads with a predicate in `via`.
    pub fn both(self, via: Via, tags: Tags) -> (r: Path)
        ensures
            r.finals == self.finals,
            r.path.stack@.len() == self.path.stack@.len() + 1,
            r.path.stack@.drop_last() == self.path.stack@,
            r.path.stack@.last() is Both,
            r.path.base_context == self.path.base_context,
            r.path.stack@.last() matches Morphism::Both(m) && m.via == via
                && (m.tags matches Some(t) && t@ == tags.spec_to_vec()),
    {
        let mut p = self;
        p.path.both_with_tags(tags.to_vec(), via);
        p
    }

    /// Follows another path.
    pub fn follow(self, ep: &Path) -> (r: Path)
        ensures
            r.finals == self.finals,
            r.path.stack@.len() == self.path.stack@.len() + 1,
            r.path.stack@.drop_last() == self.path.stack@,
            r.path.stack@.last() is Follow,
            r.path.stack@.last() matches Morphism::Follow(m) && m.path.stack@.len() == ep.path.stack@.len()
                && forall|i: int| 0 <= i < ep.path.stack@.len()
                    ==> path::same_morphism_kind(#[trigger] m.path.stack@[i], ep.path.stack@[i]),
    {
        let mut p = self;
        p.path.follow(ep.path.copy());
        p
    }

    /// Follows another path backwards.
    pub fn follow_r(self, ep: &Path) -> (r: Path)
        ensures
            r.finals == self.finals,
            r.path.stack@.len() == self.path.stack@.len() + 1,
            r.path.stack@.drop_last() == self.path.stack@,
            r.path.stack@.last() is Follow,
            r.path.stack@.last() matches Morphism::Follow(m) && path::kinds_reversed(m.path.stack@, ep.path.stack@),
    {
        let mut p = self;
        let ghost e = ep.path.stack@;
        let c = ep.path.copy();
        let ghost cs = c.stack@;
        p.path.follow_reverse(c);
        proof {
            let m = p.path.stack@.last()->Follow_0;
            assert forall|i: int| 0 <= i < m.path.stack@.len() implies path::reversed_kind(#[trigger] m.path.stack@[i], e[e.len() - 1 - i]) by {
                assert(path::reversed_kind(m.path.stack@[i], cs[cs.len() - 1 - i]));
                assert(path::same_morphism_kind(cs[cs.len() - 1 - i], e[e.len() - 1 - i]));
            }
        }
        p
    }

    /// Follows another path again and again, up to `max_depth` steps (fifty
    /// when not given).
    pub fn follow_recursive_path(self, path: &Path, max_depth: Option<i32>, tags: Tags) -> (r: Path)
        ensures
            r.finals == self.finals,
            r.path.stack@.len() == self.path.stack@.len() + 1,
            r.path.stack@.drop_last() == self.path.stack@,
            r.path.stack@.last() matches Morphism::FollowRecursive(f)
                && f.max_depth == (match max_depth { Some(d) => d, None => 50i32 }),
            r.path.stack@.last() matches Morphism::FollowRecursive(f)
                && f.depth_tags@ == tags.spec_to_vec()
                && f.path.stack@.len() == path.path.stack@.len()
                && forall|i: int| 0 <= i < path.path.stack@.len()
                    ==> path::same_morphism_kind(#[trigger] f.path.stack@[i], path.path.stack@[i]),
    {
        let via = Via::Path(path.path.copy());
        let d = match max_depth {
            Some(d) => d,
            None => 50,
        };
        let mut p = self;
        p.path.follow_recursive(via, d, tags.to_vec());
        p
    }

    /// Follows the predicate `value` again and again, up to `max_depth`
    /// steps (fifty when not given).
    pub fn follow_recursive_value(self, value: Value, max_depth: Option<i32>, tags: Tags) -> (r: Path)
        ensures
            r.finals == self.finals,
            r.path.stack@.len() == self.path.stack@.len() + 1,
            r.path.stack@.drop_last() == self.path.stack@,
            r.path.stack@.last() matches Morphism::FollowRecursive(f)
                && f.max_depth == (match max_depth { Some(d) => d, None => 50i32 }),
            r.path.stack@.last() matches Morphism::FollowRecursive(f)
                && f.depth_tags@ == tags.spec_to_vec()
                && f.path.stack@.len() == 1
                && (f.path.stack@[0] matches Morphism::Is(m) && m.nodes@ == seq![value]),
    {
        let mut v: Vec<Value> = Vec::new();
        v.push(value);
        let d = match max_depth {
            Some(d) => d,
            None => 50,
        };
        let mut p = self;
        p.path.follow_recursive(Via::Values(v), d, tags.to_vec());
        p
    }

    /// Keeps the nodes also reached by another path.
    pub fn and(self, path: &Path) -> (r: Path)
        ensures
            r.finals == self.finals,
            r.path.stack@.len() == self.path.stack@.len() + 1,
            r.path.stack@.drop_last() == self.path.stack@,
            r.path.stack@.last() is And,
            r.path.stack@.last() matches Morphism::And(m) && m.path.stack@.len() == path.path.stack@.len()
                && forall|i: int| 0 <= i < path.path.stack@.len()
                    ==> path::same_morphism_kind(#[trigger] m.path.stack@[i], path.path.stack@[i]),
    {
        self.intersect(path)
    }

    /// Keeps the nodes also reached by another path.
    pub fn intersect(self, path: &Path) -> (r: Path)
        ensures
            r.finals == self.finals,
            r.path.stack@.len() == self.path.stack@.len() + 1,
            r.path.stack@.drop_last() == self.path.stack@,
            r.path.stack@.last() is And,
            r.path.stack@.last() matches Morphism::And(m) && m.path.stack@.len() == path.path.stack@.len()
                && forall|i: int| 0 <= i < path.path.stack@.len()
                    ==> path::same_morphism_kind(#[trigger] m.path.stack@[i], path.path.stack@[i]),
    {
        let mut p = self;
        p.path.and(path.path.copy());
        p
    }

    /// Adds the nodes reached by another path.
    pub fn or(self, path: &Path) -> (r: Path)
        ensures
            r.finals == self.finals,
            r.path.stack@.len() == self.path.stack@.len() + 1,
            r.path.stack@.drop_last() == self.path.stack@,
            r.path.stack@.last() is Or,
            r.path.stack@.last() matches Morphism::Or(m) && m.path.stack@.len() == path.path.stack@.len()
                && forall|i: int| 0 <= i < path.path.stack@.len()
                    ==> path::same_morphism_kind(#[trigger] m.path.stack@[i], path.path.stack@[i]),
    {
        self.union(path)
    }

    /// Adds the nodes reached by another path.
    pub fn union(self, path: &Path) -> (r: Path)
        ensures
            r.finals == self.finals,
            r.path.stack@.len() == self.path.stack@.len() + 1,
            r.path.stack@.drop_last() == self.path.stack@,
            r.path.stack@.last() is Or,
            r.path.stack@.last() matches Morphism::Or(m) && m.path.stack@.len() == path.path.stack@.len()
                && forall|i: int| 0 <= i < path.path.stack@.len()
                    ==> path::same_morphism_kind(#[trigger] m.path.stack@[i], path.path.stack@[i]),
    {
        let mut p = self;
        p.path.or(path.path.copy());
        p
    }

    /// Goes back to the nodes tagged `tag` (see `path::Path::back`); with
    /// no such tag, the path becomes its reverse.
    pub fn back(self, tag: String) -> (r: Path)
        ensures
            r.finals == self.finals,
            (r.path.stack@.len() == self.path.stack@.len() && path::kinds_reversed(r.path.stack@, self.path.stack@))
                || (r.path.stack@.len() <= self.path.stack@.len() + 1 && r.path.stack@.last() is And),
            !(exists|k: int| 0 <= k < self.path.stack@.len() && path::records_tag(#[trigger] self.path.stack@[k], tag@))
                ==> r.path.stack@.len() == self.path.stack@.len() && path::kinds_reversed(r.path.stack@, self.path.stack@),
            (exists|k: int| 0 <= k < self.path.stack@.len() && path::records_tag(#[trigger] self.path.stack@[k], tag@))
                ==> exists|k: int| 0 <= k < self.path.stack@.len() && path::records_tag(#[trigger] self.path.stack@[k], tag@)
                    && r.path.stack@.len() == k + 2 && r.path.stack@.last() is And
                    && r.path.stack@.take(k + 1) == self.path.stack@.take(k + 1),
    {
        let mut p = self;
        match p.path.back(tag) {
            Some(np) => {
                p.path = np;
            },
            None => {},
        }
        p
    }

    /// Records the nodes under tags.
    pub fn tag(self, tags: Tags) -> (r: Path)
        ensures
            r.finals == self.finals,
            r.path.stack@.len() == self.path.stack@.len() + 1,
            r.path.stack@.drop_last() == self.path.stack@,
            r.path.stack@.last() matches Morphism::Tag(t) && t.tags@ == tags.spec_to_vec(),
    {
        let mut p = self;
        p.path.tag(tags.to_vec());
        p
    }

    /// Records the nodes under tags.
    pub fn as_(self, tags: Tags) -> (r: Path)
        ensures
            r.finals == self.finals,
            r.path.stack@.len() == self.path.stack@.len() + 1,
            r.path.stack@.drop_last() == self.path.stack@,
            r.path.stack@.last() matches Morphism::Tag(t) && t.tags@ == tags.spec_to_vec(),
    {
        self.tag(tags)
    }

    /// Keeps the subjects of quads along `predicate` to the given objects
    /// (or to objects that pass the filters).
    pub fn has(self, predicate: Via, object: HasObject) -> (r: Path)
        ensures
            r.finals == self.finals,
            r.path.stack@.len() == self.path.stack@.len() + 1,
            r.path.stack@.drop_last() == self.path.stack@,
            r.path.stack@.last() matches Morphism::HasShape(h) && !h.rev && h.via == predicate
                && match object {
                    HasObject::Values(v) => (v.spec_to_vec().len() == 0 ==> h.nodes is AllNodes)
                        && (v.spec_to_vec().len() > 0 ==> (h.nodes matches crate::query::shape::Shape::Lookup(l) && l.0@ == v.spec_to_vec())),
                    HasObject::ValueFilters(f) => (f.filters@.len() == 0 ==> h.nodes is AllNodes)
                        && (f.filters@.len() > 0 ==> (h.nodes matches crate::query::shape::Shape::Filter(g) && *g.from is AllNodes
                            && g.filters@ == f.filters@)),
                },
    {
        let mut p = self;
        match object {
            HasObject::ValueFilters(f) => p.path.has_filter(predicate, false, f.filters),
            HasObject::Values(v) => p.path.has(predicate, false, v.to_vec()),
        }
        p
    }

    /// Keeps the objects of quads along `predicate` from the given subjects
    /// (or from subjects that pass the filters).
    pub fn has_r(self, predicate: Via, object: HasObject) -> (r: Path)
        ensures
            r.finals == self.finals,
            r.path.stack@.len() == self.path.stack@.len() + 1,
            r.path.stack@.drop_last() == self.path.stack@,
            r.path.stack@.last() matches Morphism::HasShape(h) && h.rev && h.via == predicate
                && match object {
                    HasObject::Values(v) => (v.spec_to_vec().len() == 0 ==> h.nodes is AllNodes)
                        && (v.spec_to_vec().len() > 0 ==> (h.nodes matches crate::query::shape::Shape::Lookup(l) && l.0@ == v.spec_to_vec())),
                    HasObject::ValueFilters(f) => (f.filters@.len() == 0 ==> h.nodes is AllNodes)
                        && (f.filters@.len() > 0 ==> (h.nodes matches crate::query::shape::Shape::Filter(g) && *g.from is AllNodes
                            && g.filters@ == f.filters@)),
                },
    {
        let mut p = self;
        match object {
            HasObject::ValueFilters(f) => p.path.has_filter(predicate, true, f.filters),
            HasObject::Values(v) => p.path.has(predicate, true, v.to_vec()),
        }
        p
    }

    /// Drops the nodes reached by another path.
    pub fn except(self, path: &Path) -> (r: Path)
        ensures
            r.finals == self.finals,
            r.path.stack@.len() == self.path.stack@.len() + 1,
            r.path.stack@.drop_last() == self.path.stack@,
            r.path.stack@.last() is Except,
    {
        let mut p = self;
        p.path.except(path.path.copy());
        p
    }

    /// Keeps each node once.
    pub fn unique(self) -> (r: Path)
        ensures
            r.finals == self.finals,
            r.path.stack@ == self.path.stack@.push(Morphism::Unique(crate::query::morphism::UniqueMorphism())),
    {
        let mut p = self;
        p.path.unique();
        p
    }

    /// Records, under `tag` (the predicate itself when none is given), the
    /// object of each quad along `predicate` from the nodes; nodes without
    /// such a quad are dropped.
    pub fn save(self, predicate: String, tag: Option<String>) -> (r: Path)
        ensures
            r.finals == self.finals,
            r.path.stack@.len() == self.path.stack@.len() + 1,
            r.path.stack@.drop_last() == self.path.stack@,
            r.path.stack@.last() matches Morphism::Save(m) && !m.rev && !m.opt,
    {
        self.save_step(predicate, tag, false, false)
    }

    /// As `save`, along quads to the nodes (recording their subjects).
    pub fn save_r(self, predicate: String, tag: Option<String>) -> (r: Path)
        ensures
            r.finals == self.finals,
            r.path.stack@.len() == self.path.stack@.len() + 1,
            r.path.stack@.drop_last() == self.path.stack@,
            r.path.stack@.last() matches Morphism::Save(m) && m.rev && !m.opt,
    {
        self.save_step(predicate, tag, true, false)
    }

    /// As `save`, keeping the nodes without such a quad.
    pub fn save_opt(self, predicate: String, tag: Option<String>) -> (r: Path)
        ensures
            r.finals == self.finals,
            r.path.stack@.len() == self.path.stack@.len() + 1,
            r.path.stack@.drop_last() == self.path.stack@,
            r.path.stack@.last() matches Morphism::Save(m) && !m.rev && m.opt,
    {
        self.save_step(predicate, tag, false, true)
    }

    /// As `save_r`, keeping the nodes without such a quad.
    pub fn save_opt_r(self, predicate: String, tag: Option<String>) -> (r: Path)
        ensures
            r.finals == self.finals,
            r.path.stack@.len() == self.path.stack@.len() + 1,
            r.path.stack@.drop_last() == self.path.stack@,
            r.path.stack@.last() matches Morphism::Save(m) && m.rev && m.opt,
    {
        self.save_step(predicate, tag, true, true)
    }

    fn save_step(self, predicate: String, tag: Option<String>, rev: bool, opt: bool) -> (r: Path)
        ensures
            r.finals == self.finals,
            r.path.stack@.len() == self.path.stack@.len() + 1,
            r.path.stack@.drop_last() == self.path.stack@,
            r.path.stack@.last() matches Morphism::Save(m) && m.rev == rev && m.opt == opt,
    {
        let t = match tag {
            Some(t) => t,
            None => predicate.clone(),
        };
        let mut v: Vec<Value> = Vec::new();
        v.push(Value::from_string(predicate));
        let mut p = self;
        p.path.save(Via::Values(v), t, rev, opt);
        p
    }

    /// Drops the nodes reached by another path.
    pub fn difference(self, path: &Path) -> (r: Path)
        ensures
            r.finals == self.finals,
            r.path.stack@.len() == self.path.stack@.len() + 1,
            r.path.stack@.drop_last() == self.path.stack@,
            r.path.stack@.last() is Except,
    {
        self.except(path)
    }

    /// Goes to the labels of the quads of the nodes, each once.
    pub fn labels(self) -> (r: Path)
        ensures
            r.finals == self.finals,
            r.path.stack@ == self.path.stack@.push(Morphism::Labels(crate::query::morphism::LabelsMorphism())),
    {
        let mut p = self;
        p.path.labels();
        p
    }

    /// Goes to the predicates of the quads that end at the nodes, each once.
    pub fn in_predicates(self) -> (r: Path)
        ensures
            r.finals == self.finals,
            r.path.stack@ == self.path.stack@.push(Morphism::Predicates(crate::query::morphism::PredicatesMorphism { rev: true })),
    {
        let mut p = self;
        p.path.predicates(true);
        p
    }

    /// Goes to the predicates of the quads that start at the nodes, each
    /// once.
    pub fn out_predicates(self) -> (r: Path)
        ensures
            r.finals == self.finals,
            r.path.stack@ == self.path.stack@.push(Morphism::Predicates(crate::query::morphism::PredicatesMorphism { rev: false })),
    {
        let mut p = self;
        p.path.predicates(false);
        p
    }

    /// Records under `tag` the predicates of the quads that end at the
    /// nodes.
    pub fn save_in_predicates(self, tag: String) -> (r: Path)
        ensures
            r.finals == self.finals,
            r.path.stack@.len() == self.path.stack@.len() + 1,
            r.path.stack@.drop_last() == self.path.stack@,
            r.path.stack@.last() matches Morphism::SavePredicates(m) && m.rev && m.tag == tag,
    {
        let mut p = self;
        p.path.save_predicates(tag, true);
        p
    }

    /// Records under `tag` the predicates of the quads that start at the
    /// nodes.
    pub fn save_out_predicates(self, tag: String) -> (r: Path)
        ensures
            r.finals == self.finals,
            r.path.stack@.len() == self.path.stack@.len() + 1,
            r.path.stack@.drop_last() == self.path.stack@,
            r.path.stack@.last() matches Morphism::SavePredicates(m) && !m.rev && m.tag == tag,
    {
        let mut p = self;
        p.path.save_predicates(tag, false);
        p
    }

    /// Restricts the following steps to quads with a label in `via` (to
    /// none when `via` is all).
    pub fn label_context(self, via: Via, tags: Tags) -> (r: Path)
        ensures
            r.finals == self.finals,
            r.path.stack@.len() == self.path.stack@.len() + 1,
            r.path.stack@.drop_last() == self.path.stack@,
            r.path.stack@.last() is LabelContext,
    {
        let mut p = self;
        p.path.label_context_with_tags(via, tags.to_vec());
        p
    }

    /// Restricts the following steps to quads with one of the labels.
    pub fn label_context_values(self, values: Vec<String>, tags: Vec<String>) -> (r: Path)
        ensures
            r.finals == self.finals,
            r.path.stack@.len() == self.path.stack@.len() + 1,
            r.path.stack@.drop_last() == self.path.stack@,
            r.path.stack@.last() is LabelContext,
    {
        let mut vals: Vec<Value> = Vec::new();
        let mut values = values;
        while values.len() > 0
            decreases values@.len(),
        {
            let v = values.remove(0);
            vals.push(Value::from_string(v));
        }
        self.label_context(Via::Values(vals), Tags::List(tags))
    }

    /// Restricts the following steps to quads with a label reached by a
    /// path.
    pub fn label_context_path(self, path: &Path, tags: Vec<String>) -> (r: Path)
        ensures
            r.finals == self.finals,
            r.path.stack@.len() == self.path.stack@.len() + 1,
            r.path.stack@.drop_last() == self.path.stack@,
            r.path.stack@.last() is LabelContext,
    {
        self.label_context(Via::Path(path.path.copy()), Tags::List(tags))
    }

    /// Keeps at most `limit` nodes (all when not positive).
    pub fn limit(self, limit: i32) -> (r: Path)
        ensures
            r.finals == self.finals,
            r.path.stack@ == self.path.stack@.push(Morphism::Limit(crate::query::morphism::LimitMorphism { limit: limit as i64 })),
    {
        let mut p = self;
        p.path.limit(limit as i64);
        p
    }

    /// Skips `offset` nodes.
    pub fn skip(self, offset: i32) -> (r: Path)
        ensures
            r.finals == self.finals,
            r.path.stack@ == self.path.stack@.push(Morphism::Skip(crate::query::morphism::SkipMorphism { offset: offset as i64 })),
    {
        let mut p = self;
        p.path.skip(offset as i64);
        p
    }

    /// Orders the nodes by their values.
    pub fn order(self) -> (r: Path)
        ensures
            r.finals == self.finals,
            r.path.stack@ == self.path.stack@.push(Morphism::Order(crate::query::morphism::OrderMorphism())),
    {
        let mut p = self;
        p.path.order();
        p
    }

    /// The number of results (each path to a node counted), with the
    /// session's limit.
    pub fn count<Q: QuadStore>(&self, s: &mut Session<Q>) -> (r: usize)
        ensures
            final(s).qs == old(s).qs,
            final(s).qw == old(s).qw,
            final(s).limit == old(s).limit,
            old(s).limit > 0 ==> r <= old(s).limit,
    {
        let it = self.build_iterator_tree(s);
        let refs = each_results(&s.qs, &it, s.limit);
        refs.len()
    }

    /// Keeps the nodes whose values pass the filters.
    pub fn filter(self, filters: ValueFilters) -> (r: Path)
        ensures
            r.finals == self.finals,
            r.path.stack@.len() == self.path.stack@.len() + 1,
            r.path.stack@.drop_last() == self.path.stack@,
            r.path.stack@.last() matches Morphism::Filter(f) && f.filters@ == filters.filters@,
    {
        let mut p = self;
        p.path.filters(filters.filters);
        p
    }
}

/// Tags given to a step: none, or a list.
pub enum Tags {
    NoTags,
    List(Vec<String>),
}

impl Tags {
    pub open spec fn spec_to_vec(self) -> Seq<String> {
        match self {
            Tags::NoTags => Seq::empty(),
            Tags::List(v) => v@,
        }
    }

    /// The tags as a list.
    pub fn to_vec(self) -> (r: Vec<String>)
        ensures
            r@ == self.spec_to_vec(),
    {
        match self {
            Tags::NoTags => Vec::new(),
            Tags::List(v) => v,
        }
    }
}

/// Values given to a step: none, or a list.
pub enum Values {
    NoValues,
    List(Vec<Value>),
}

impl Values {
    pub open spec fn spec_to_vec(self) -> Seq<Value> {
        match self {
            Values::NoValues => Seq::empty(),
            Values::List(v) => v@,
        }
    }

    /// The values as a list.
    pub fn to_vec(self) -> (r: Vec<Value>)
        ensures
            r@ == self.spec_to_vec(),
    {
        match self {
            Values::NoValues => Vec::new(),
            Values::List(v) => v,
        }
    }
}

/// What a `has` step looks for at the other end: values, or nodes that
/// pass filters.
pub enum HasObject {
    ValueFilters(ValueFilters),
    Values(Values),
}

/// A list of value filters.
pub struct ValueFilters {
    pub filters: Vec<ValueFilter>,
}

/// Values less than `v`.
pub fn lt(v: Value) -> (r: ValueFilter)
    ensures
        r matches ValueFilter::Comparison(c) && c.op == Operator::LT && c.val == v,
{
    ValueFilter::Comparison(Comparison::new(Operator::LT, v))
}

/// Values at most `v`.
pub fn lte(v: Value) -> (r: ValueFilter)
    ensures
        r matches ValueFilter::Comparison(c) && c.op == Operator::LTE && c.val == v,
{
    ValueFilter::Comparison(Comparison::new(Operator::LTE, v))
}

/// Values greater than `v`.
pub fn gt(v: Value) -> (r: ValueFilter)
    ensures
        r matches ValueFilter::Comparison(c) && c.op == Operator::GT && c.val == v,
{
    ValueFilter::Comparison(Comparison::new(Operator::GT, v))
}

/// Values at least `v`.
pub fn gte(v: Value) -> (r: ValueFilter)
    ensures
        r matches ValueFilter::Comparison(c) && c.op == Operator::GTE && c.val == v,
{
    ValueFilter::Comparison(Comparison::new(Operator::GTE, v))
}

/// Strings that the regular expression `pattern` matches; an error when it
/// is no regular expression.
pub fn regex(pattern: String, iri: bool) -> (r: Result<ValueFilter, String>)
    ensures
        r is Ok <==> regex_valid(pattern@),
        r matches Ok(f) ==> (f matches ValueFilter::Regexp(x) && x.re.spec_pattern() == pattern@ && x.re.spec_iri() == iri),
{
    match Regexp::new(pattern, iri) {
        Ok(x) => Ok(ValueFilter::Regexp(x)),
        Err(e) => Err(e),
    }
}

/// Strings that the SQL-like pattern matches (`%` for any text, `?` for
/// any character).
pub fn like(pattern: String) -> (r: ValueFilter)
    ensures
        r matches ValueFilter::Wildcard(w) && w.pattern@ == pattern@,
{
    ValueFilter::Wildcard(Wildcard::new(pattern))
}

} // verus!
