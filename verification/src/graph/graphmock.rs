//! A quad store for tests: a plain list of quads, answering each question by
//! a scan of the list.
use vstd::prelude::*;
use crate::graph::value::{Value, ValueV};
use crate::graph::quad::{Quad, QuadV, Direction, QuadStore, Stats, Delta, IgnoreOptions, Procedure, quad_get, quad_text};
use crate::graph::refs::{Ref, RefV, Content, ContentV, Size, ref_key, pre_fetched, spec_pre_fetched, len_as_i64, spec_len_as_i64};
use crate::graph::iterator::Shape;
use crate::graph::iterator::fixed::{Fixed, refs_view};
use crate::graph::memstore::store::dir_at;
use crate::strutil::string_of;

verus! {

/// The quads of a list, as values.
pub open spec fn quads_view(s: Seq<Quad>) -> Seq<QuadV> {
    s.map_values(|q: Quad| q@)
}

/// The reference to a quad of the list: keyed by its printed form, carrying
/// the quad.
pub open spec fn spec_quad_value(q: Quad) -> RefV {
    RefV { k: ValueV::String(quad_text(&q)), content: ContentV::Quad(q@) }
}

fn quad_value(q: Quad) -> (r: Ref)
    ensures
        r@ == spec_quad_value(q),
{
    let k = q.to_string();
    Ref { k: Value::String(k), content: Content::Quad(q) }
}

/// The references to the quads of `s` with the value `k` at corner `d`, in
/// order.
pub open spec fn matching_refs(s: Seq<Quad>, d: Direction, k: ValueV) -> Seq<RefV>
    decreases s.len(),
{
    if s.len() == 0 {
        Seq::empty()
    } else {
        let rest = matching_refs(s.drop_last(), d, k);
        if d != Direction::Any && quad_get(s.last()@, d) == k {
            rest.push(spec_quad_value(s.last()))
        } else {
            rest
        }
    }
}

proof fn lemma_matching_len(s: Seq<Quad>, d: Direction, k: ValueV)
    ensures
        matching_refs(s, d, k).len() <= s.len(),
    decreases s.len(),
{
    if s.len() > 0 {
        lemma_matching_len(s.drop_last(), d, k);
    }
}

/// The values at the corners of the quads, each corner in the order label,
/// object, predicate, subject.
pub open spec fn corner_values(s: Seq<Quad>) -> Set<ValueV> {
    Set::new(|v: ValueV| exists|i: int, k: int| 0 <= i < s.len() && 0 <= k < 4 && #[trigger] quad_get(s[i]@, dir_at(k)) == v)
}

/// The views of a list of values.
pub open spec fn values_view(s: Seq<Value>) -> Seq<ValueV> {
    s.map_values(|v: Value| v@)
}

/// The index of the first quad of `s` equal to `q`.
pub open spec fn first_index(s: Seq<QuadV>, q: QuadV) -> Option<int>
    decreases s.len(),
{
    if s.len() == 0 {
        None
    } else if s[0] == q {
        Some(0)
    } else {
        match first_index(s.drop_first(), q) {
            Some(i) => Some(i + 1),
            None => None,
        }
    }
}

/// The list after one change: an addition appends its quad, a deletion
/// removes the first equal quad; none when that quad is missing.
pub open spec fn mock_step(s: Seq<QuadV>, d: Delta) -> Option<Seq<QuadV>> {
    match d.action {
        Procedure::Add => Some(s.push(d.quad@)),
        Procedure::Delete => match first_index(s, d.quad@) {
            Some(i) => Some(s.remove(i)),
            None => None,
        },
    }
}

/// The list after a batch of changes, in order; none when a deletion finds
/// its quad missing.
pub open spec fn mock_apply(s: Seq<QuadV>, ds: Seq<Delta>) -> Option<Seq<QuadV>>
    decreases ds.len(),
{
    if ds.len() == 0 {
        Some(s)
    } else {
        match mock_apply(s, ds.drop_last()) {
            Some(t) => mock_step(t, ds.last()),
            None => None,
        }
    }
}

/// A store that is a list of quads.
pub struct Store {
    pub data: Vec<Quad>,
}

impl Store {
    pub fn new() -> (r: Store)
        ensures
            r.data@.len() == 0,
    {
        Store { data: Vec::new() }
    }

    /// The position of the first quad equal to `q`.
    fn position(&self, q: &Quad) -> (r: Option<usize>)
        ensures
            r matches Some(i) ==> i < self.data@.len() && first_index(quads_view(self.data@), q@) == Some(i as int),
            r is None ==> first_index(quads_view(self.data@), q@) is None,
    {
        let mut i: usize = 0;
        while i < self.data.len()
            invariant
                i <= self.data@.len(),
                forall|j: int| 0 <= j < i ==> (#[trigger] self.data@[j])@ != q@,
            decreases self.data@.len() - i,
        {
            if self.data[i].equals(q) {
                proof {
                    lemma_first_index(quads_view(self.data@), q@, i as int);
                }
                return Some(i);
            }
            i = i + 1;
        }
        proof {
            lemma_first_index_none(quads_view(self.data@), q@);
        }
        None
    }

    /// The distinct values at the corners of the quads, in order of first
    /// appearance.
    fn distinct_corner_values(&self) -> (r: Vec<Value>)
        ensures
            values_view(r@).no_duplicates(),
            values_view(r@).to_set() == corner_values(self.data@),
    {
        let mut out: Vec<Value> = Vec::new();
        let mut i: usize = 0;
        while i < self.data.len()
            invariant
                i <= self.data@.len(),
                values_view(out@).no_duplicates(),
                values_view(out@).to_set() == corner_values(self.data@.take(i as int)),
            decreases self.data@.len() - i,
        {
            let mut k: usize = 4;
            let ghost seen = values_view(out@).to_set();
            while k > 0
                invariant
                    i < self.data@.len(),
                    k <= 4,
                    values_view(out@).no_duplicates(),
                    seen == corner_values(self.data@.take(i as int)),
                    values_view(out@).to_set() == seen.union(Set::new(|v: ValueV| exists|c: int| k <= c < 4
                        && #[trigger] quad_get(self.data@[i as int]@, dir_at(c)) == v)),
                decreases k,
            {
                k = k - 1;
                let d = crate::graph::memstore::store::dir_of_index(k);
                let v = self.data[i].get(&d);
                let mut found = false;
                let mut j: usize = 0;
                while j < out.len()
                    invariant
                        j <= out@.len(),
                        found == exists|x: int| 0 <= x < j && (#[trigger] out@[x])@ == v@,
                    decreases out@.len() - j,
                {
                    if out[j].equals(v) {
                        found = true;
                    }
                    j = j + 1;
                }
                let ghost before = values_view(out@);
                if !found {
                    out.push(v.copy());
                    proof {
                        assert(values_view(out@) =~= before.push(v@));
                        assert forall|a: int, b: int| 0 <= a < values_view(out@).len() && 0 <= b < values_view(out@).len() && a != b
                            implies values_view(out@)[a] != values_view(out@)[b] by {
                            if a < before.len() && b < before.len() {
                            } else if a < before.len() {
                                assert(out@[a]@ != v@);
                            } else {
                                assert(out@[b]@ != v@);
                            }
                        }
                    }
                }
                proof {
                    let kk = k as int;
                    let q = self.data@[i as int]@;
                    let tail_old = Set::new(|x: ValueV| exists|c: int| kk + 1 <= c < 4 && #[trigger] quad_get(q, dir_at(c)) == x);
                    let tail_new = Set::new(|x: ValueV| exists|c: int| kk <= c < 4 && #[trigger] quad_get(q, dir_at(c)) == x);
                    assert(tail_new =~= tail_old.insert(v@)) by {
                        assert forall|x: ValueV| tail_new.contains(x) implies #[trigger] tail_old.insert(v@).contains(x) by {
                            let c = choose|c: int| kk <= c < 4 && #[trigger] quad_get(q, dir_at(c)) == x;
                            if c > kk {
                                assert(tail_old.contains(x));
                            }
                        }
                        assert(quad_get(q, dir_at(kk)) == v@);
                    }
                    if found {
                        let x = choose|x: int| 0 <= x < out@.len() && (#[trigger] out@[x])@ == v@;
                        assert(values_view(out@)[x] == v@);
                        assert(values_view(out@).to_set().contains(v@));
                        assert(values_view(out@).to_set() =~= seen.union(tail_new));
                    } else {
                        before.lemma_push_to_set_commute(v@);
                        assert(values_view(out@).to_set() =~= before.to_set().insert(v@));
                        assert(values_view(out@).to_set() =~= seen.union(tail_new));
                    }
                }
            }
            proof {
                let s0 = self.data@.take(i as int);
                let s1 = self.data@.take(i + 1);
                let q = self.data@[i as int]@;
                let tail = Set::new(|x: ValueV| exists|c: int| 0 <= c < 4 && #[trigger] quad_get(q, dir_at(c)) == x);
                assert(corner_values(s1) =~= corner_values(s0).union(tail)) by {
                    assert forall|x: ValueV| corner_values(s1).contains(x) implies #[trigger] corner_values(s0).union(tail).contains(x) by {
                        let (a, c) = choose|a: int, c: int| 0 <= a < s1.len() && 0 <= c < 4 && #[trigger] quad_get(s1[a]@, dir_at(c)) == x;
                        if a < i {
                            assert(s0[a] == s1[a]);
                            assert(corner_values(s0).contains(x));
                        } else {
                            assert(tail.contains(x));
                        }
                    }
                    assert forall|x: ValueV| corner_values(s0).union(tail).contains(x) implies #[trigger] corner_values(s1).contains(x) by {
                        if corner_values(s0).contains(x) {
                            let (a, c) = choose|a: int, c: int| 0 <= a < s0.len() && 0 <= c < 4 && #[trigger] quad_get(s0[a]@, dir_at(c)) == x;
                            assert(s0[a] == s1[a]);
                            assert(quad_get(s1[a]@, dir_at(c)) == x);
                        } else {
                            let c = choose|c: int| 0 <= c < 4 && #[trigger] quad_get(q, dir_at(c)) == x;
                            assert(s1[i as int] == self.data@[i as int]);
                            assert(quad_get(s1[i as int]@, dir_at(c)) == x);
                        }
                    }
                }
            }
            i = i + 1;
        }
        proof {
            assert(self.data@.take(self.data@.len() as int) =~= self.data@);
        }
        out
    }
}

proof fn lemma_first_index(s: Seq<QuadV>, q: QuadV, i: int)
    requires
        0 <= i < s.len(),
        s[i] == q,
        forall|j: int| 0 <= j < i ==> s[j] != q,
    ensures
        first_index(s, q) == Some(i),
    decreases i,
{
    if i > 0 {
        lemma_first_index(s.drop_first(), q, i - 1);
    }
}

proof fn lemma_first_index_none(s: Seq<QuadV>, q: QuadV)
    requires
        forall|j: int| 0 <= j < s.len() ==> s[j] != q,
    ensures
        first_index(s, q) is None,
    decreases s.len(),
{
    if s.len() > 0 {
        lemma_first_index_none(s.drop_first(), q);
    }
}

impl QuadStore for Store {
    open spec fn quad_bound(&self) -> nat {
        self.data@.len()
    }

    fn quad_count(&self) -> (r: usize) {
        self.data.len()
    }

    open spec fn spec_value_of(&self, v: ValueV) -> Option<RefV> {
        if !(v is Undefined) && corner_values(self.data@).contains(v) {
            Some(spec_pre_fetched(v))
        } else {
            None
        }
    }

    open spec fn spec_name_of(&self, key: RefV) -> Option<ValueV> {
        ref_key(key)
    }

    /// A value is known when some quad has it in one of its four places (a
    /// missing label is no value); its reference carries it.
    fn value_of(&self, v: &Value) -> (r: Option<Ref>)
        ensures
            (!(v@ is Undefined) && corner_values(self.data@).contains(v@)) ==> (r matches Some(x) && x@ == spec_pre_fetched(v@)),
            !(!(v@ is Undefined) && corner_values(self.data@).contains(v@)) ==> r is None,
    {
        if let Value::Undefined = v {
            return None;
        }
        let mut i: usize = 0;
        while i < self.data.len()
            invariant
                i <= self.data@.len(),
                !(v@ is Undefined),
                forall|j: int, k: int| 0 <= j < i && 0 <= k < 4 ==> #[trigger] quad_get(self.data@[j]@, dir_at(k)) != v@,
            decreases self.data@.len() - i,
        {
            let mut k: usize = 0;
            while k < 4
                invariant
                    i < self.data@.len(),
                    k <= 4,
                    !(v@ is Undefined),
                    forall|j: int, c: int| 0 <= j < i && 0 <= c < 4 ==> #[trigger] quad_get(self.data@[j]@, dir_at(c)) != v@,
                    forall|c: int| 0 <= c < k ==> #[trigger] quad_get(self.data@[i as int]@, dir_at(c)) != v@,
                decreases 4 - k,
            {
                let d = crate::graph::memstore::store::dir_of_index(k);
                if self.data[i].get(&d).equals(v) {
                    proof {
                        let ii = i as int;
                        let kk = k as int;
                        assert(quad_get(self.data@[ii]@, dir_at(kk)) == v@);
                        assert(exists|a: int, c: int| 0 <= a < self.data@.len() && 0 <= c < 4 && #[trigger] quad_get(self.data@[a]@, dir_at(c)) == v@);
                        assert(corner_values(self.data@).contains(v@));
                    }
                    return Some(pre_fetched(v.copy()));
                }
                k = k + 1;
            }
            i = i + 1;
        }
        proof {
            assert(!corner_values(self.data@).contains(v@)) by {
                if corner_values(self.data@).contains(v@) {
                    let (a, c) = choose|a: int, c: int| 0 <= a < self.data@.len() && 0 <= c < 4 && #[trigger] quad_get(self.data@[a]@, dir_at(c)) == v@;
                    assert(quad_get(self.data@[a]@, dir_at(c)) != v@);
                }
            }
        }
        None
    }

    /// The key of the reference.
    fn name_of(&self, key: &Ref) -> (r: Option<Value>)
        ensures
            match ref_key(key@) {
                Some(k) => r matches Some(x) && x@ == k,
                None => r is None,
            },
    {
        match key.key() {
            Some(k) => Some(k.copy()),
            None => None,
        }
    }

    /// The quad the reference carries.
    fn quad(&self, r: &Ref) -> (res: Option<Quad>)
        ensures
            match r@.content {
                ContentV::Quad(q) => res matches Some(x) && x@ == q,
                _ => res is None,
            },
    {
        if r.has_quad() {
            Some(r.unwrap_quad().copy())
        } else {
            None
        }
    }

    /// The quads with the key of the reference at corner `d`, in order;
    /// none for `Any`.
    fn quad_iterator(&self, d: &Direction, r: &Ref) -> (s: Shape)
        ensures
            s matches Shape::Fixed(f) && match ref_key(r@) {
                Some(k) => refs_view(f.values@) == matching_refs(self.data@, *d, k),
                None => f.values@.len() == 0,
            },
    {
        let mut out: Vec<Ref> = Vec::new();
        match r.key() {
            Some(k) => {
                let mut i: usize = 0;
                while i < self.data.len()
                    invariant
                        i <= self.data@.len(),
                        ref_key(r@) == Some(k@),
                        refs_view(out@) == matching_refs(self.data@.take(i as int), *d, k@),
                    decreases self.data@.len() - i,
                {
                    proof {
                        assert(self.data@.take(i + 1).drop_last() =~= self.data@.take(i as int));
                    }
                    if *d != Direction::Any {
                        if self.data[i].get(d).equals(k) {
                            let ghost before = out@;
                            out.push(quad_value(self.data[i].copy()));
                            proof {
                                assert(refs_view(out@) =~= refs_view(before).push(out@[before.len() as int]@));
                            }
                        }
                    }
                    i = i + 1;
                }
                proof {
                    assert(self.data@.take(self.data@.len() as int) =~= self.data@);
                    lemma_matching_len(self.data@, *d, k@);
                }
            },
            None => {},
        }
        Shape::Fixed(Fixed::new(out))
    }

    /// The number of quads with the key of the reference at corner `d`.
    open spec fn spec_quad_iterator_size(&self, d: Direction, r: RefV) -> Option<Size> {
        Some(Size {
            value: match ref_key(r) {
                Some(k) => spec_len_as_i64(matching_refs(self.data@, d, k).len()),
                None => 0,
            },
            exact: true,
        })
    }

    fn quad_iterator_size(&self, d: &Direction, r: &Ref) -> (res: Result<Size, String>)
        ensures
            res matches Ok(sz) && sz.exact && match ref_key(r@) {
                Some(k) => sz.value == spec_len_as_i64(matching_refs(self.data@, *d, k).len()),
                None => sz.value == 0,
            },
    {
        let mut n: usize = 0;
        match r.key() {
            Some(k) => {
                let mut i: usize = 0;
                while i < self.data.len()
                    invariant
                        i <= self.data@.len(),
                        n == matching_refs(self.data@.take(i as int), *d, k@).len(),
                    decreases self.data@.len() - i,
                {
                    proof {
                        assert(self.data@.take(i + 1).drop_last() =~= self.data@.take(i as int));
                        lemma_matching_len(self.data@.take(i as int), *d, k@);
                    }
                    if *d != Direction::Any {
                        if self.data[i].get(d).equals(k) {
                            n = n + 1;
                        }
                    }
                    i = i + 1;
                }
                proof {
                    assert(self.data@.take(self.data@.len() as int) =~= self.data@);
                }
            },
            None => {},
        }
        Ok(Size { value: len_as_i64(n), exact: true })
    }

    /// The value at corner `d` of the quad the reference carries (nothing
    /// at `Any`).
    fn quad_direction(&self, r: &Ref, d: &Direction) -> (res: Option<Ref>)
        ensures
            match r@.content {
                ContentV::Quad(q) => res matches Some(x) && x@ == spec_pre_fetched(quad_get(q, *d)),
                _ => res is None,
            },
    {
        match self.quad(r) {
            Some(q) => {
                if *d == Direction::Any {
                    Some(pre_fetched(Value::Undefined))
                } else {
                    Some(pre_fetched(q.get(d).copy()))
                }
            },
            None => None,
        }
    }

    /// The number of distinct corner values, and of quads.
    open spec fn spec_stats(&self, exact: bool) -> Option<Stats> {
        Some(Stats {
            nodes: Size { value: spec_len_as_i64(corner_values(self.data@).len()), exact: true },
            quads: Size { value: spec_len_as_i64(self.data@.len()), exact: true },
        })
    }

    fn stats(&self, exact: bool) -> (r: Result<Stats, String>)
        ensures
            r matches Ok(st) && st.nodes == (Size { value: spec_len_as_i64(corner_values(self.data@).len()), exact: true })
                && st.quads == (Size { value: spec_len_as_i64(self.data@.len()), exact: true }),
    {
        let vals = self.distinct_corner_values();
        proof {
            values_view(vals@).unique_seq_to_set();
        }
        Ok(Stats {
            nodes: Size { value: len_as_i64(vals.len()), exact: true },
            quads: Size { value: len_as_i64(self.data.len()), exact: true },
        })
    }

    /// Appends the added quads and removes the first quad equal to each
    /// deleted one; an error when a deleted quad is missing (the quads before
    /// it are applied).
    /// A batch succeeds when every change applies in turn (see
    /// `mock_apply`), and then leaves the list it gives.
    open spec fn applied(&self, deltas: Seq<Delta>, ignore_opts: IgnoreOptions, after: Self, r: Result<(), String>) -> bool {
        &&& (r is Ok <==> mock_apply(quads_view(self.data@), deltas) is Some)
        &&& (r is Ok ==> mock_apply(quads_view(self.data@), deltas) == Some(quads_view(after.data@)))
    }

    fn apply_deltas(&mut self, deltas: Vec<Delta>, ignore_opts: &IgnoreOptions) -> (r: Result<(), String>)
        ensures
            r is Ok <==> mock_apply(quads_view(old(self).data@), deltas@) is Some,
            r is Ok ==> mock_apply(quads_view(old(self).data@), deltas@) == Some(quads_view(final(self).data@)),
    {
        let mut i: usize = 0;
        while i < deltas.len()
            invariant
                i <= deltas@.len(),
                mock_apply(quads_view(old(self).data@), deltas@.take(i as int)) == Some(quads_view(self.data@)),
            decreases deltas@.len() - i,
        {
            proof {
                assert(deltas@.take(i + 1).drop_last() =~= deltas@.take(i as int));
                assert(deltas@.take(i + 1).last() == deltas@[i as int]);
            }
            let d = &deltas[i];
            match d.action {
                Procedure::Add => {
                    let ghost before = self.data@;
                    self.data.push(d.quad.copy());
                    proof {
                        assert(quads_view(self.data@) =~= quads_view(before).push(d.quad@));
                    }
                },
                Procedure::Delete => {
                    match self.position(&d.quad) {
                        Some(index) => {
                            let ghost before = self.data@;
                            self.data.remove(index);
                            proof {
                                assert(quads_view(self.data@) =~= quads_view(before).remove(index as int));
                            }
                        },
                        None => {
                            proof {
                                lemma_mock_fails(quads_view(old(self).data@), deltas@, i as int);
                                reveal_strlit("quad not found");
                            }
                            return Err(string_of("quad not found"));
                        },
                    }
                },
            }
            i = i + 1;
        }
        proof {
            assert(deltas@.take(deltas@.len() as int) =~= deltas@);
        }
        Ok(())
    }

    /// The distinct values at the corners of the quads (none for an empty
    /// corner), each carried by its reference.
    fn nodes_all_iterator(&self) -> (s: Shape)
        ensures
            s matches Shape::Fixed(f) && forall|j: int| 0 <= j < f.values@.len() ==> exists|v: ValueV|
                #[trigger] f.values@[j]@ == spec_pre_fetched(v) && corner_values(self.data@).contains(v) && !(v is Undefined),
    {
        let vals = self.distinct_corner_values();
        let mut out: Vec<Ref> = Vec::new();
        let mut i: usize = 0;
        while i < vals.len()
            invariant
                i <= vals@.len(),
                values_view(vals@).to_set() == corner_values(self.data@),
                forall|j: int| 0 <= j < out@.len() ==> exists|v: ValueV|
                    #[trigger] out@[j]@ == spec_pre_fetched(v) && corner_values(self.data@).contains(v) && !(v is Undefined),
            decreases vals@.len() - i,
        {
            if !vals[i].is_undefined() {
                let ghost v = vals@[i as int]@;
                let ghost before = out@;
                out.push(pre_fetched(vals[i].copy()));
                proof {
                    assert(values_view(vals@)[i as int] == v);
                    assert(values_view(vals@).to_set().contains(v));
                    assert forall|j: int| 0 <= j < out@.len() implies exists|w: ValueV|
                        #[trigger] out@[j]@ == spec_pre_fetched(w) && corner_values(self.data@).contains(w) && !(w is Undefined) by {
                        if j < before.len() {
                            assert(out@[j] == before[j]);
                        } else {
                            assert(out@[j]@ == spec_pre_fetched(v));
                        }
                    }
                }
            }
            i = i + 1;
        }
        let ghost o = out@;
        let fx = Fixed::new(out);
        proof {
            assert forall|j: int| 0 <= j < fx.values@.len() implies exists|v: ValueV|
                #[trigger] fx.values@[j]@ == spec_pre_fetched(v) && corner_values(self.data@).contains(v) && !(v is Undefined) by {
                assert(fx.values@[j] == o[j]);
                let v = choose|v: ValueV| #[trigger] o[j]@ == spec_pre_fetched(v) && corner_values(self.data@).contains(v) && !(v is Undefined);
                assert(fx.values@[j]@ == spec_pre_fetched(v));
            }
        }
        Shape::Fixed(fx)
    }

    /// The references to all quads, in order.
    fn quads_all_iterator(&self) -> (s: Shape)
        ensures
            s matches Shape::Fixed(f) && f.values@.len() == self.data@.len()
                && forall|j: int| 0 <= j < self.data@.len() ==> #[trigger] f.values@[j]@ == spec_quad_value(self.data@[j]),
    {
        let mut out: Vec<Ref> = Vec::new();
        let mut i: usize = 0;
        while i < self.data.len()
            invariant
                i <= self.data@.len(),
                out@.len() == i,
                forall|j: int| 0 <= j < i ==> #[trigger] out@[j]@ == spec_quad_value(self.data@[j]),
            decreases self.data@.len() - i,
        {
            out.push(quad_value(self.data[i].copy()));
            i = i + 1;
        }
        Shape::Fixed(Fixed::new(out))
    }

    fn close(&self) -> (r: Option<String>)
        ensures
            r is None,
    {
        None
    }

    /// The list gives its quads and values no ids.
    fn next_prim_id(&self, after: Option<i64>, maxid: i64, nodes: bool) -> (r: Option<i64>)
        ensures
            r is None,
    {
        None
    }

    open spec fn spec_has_prim(&self, id: i64) -> bool {
        false
    }

    fn has_prim(&self, id: i64) -> (r: bool)
        ensures
            !r,
    {
        false
    }

    fn prim_count(&self) -> (r: usize)
        ensures
            r == 0,
    {
        0
    }
}

proof fn lemma_mock_fails(s: Seq<QuadV>, ds: Seq<Delta>, i: int)
    requires
        0 <= i < ds.len(),
        mock_apply(s, ds.take(i + 1)) is None,
    ensures
        mock_apply(s, ds) is None,
    decreases ds.len() - i,
{
    if i + 1 < ds.len() {
        assert(ds.take(i + 2).drop_last() =~= ds.take(i + 1));
        lemma_mock_fails(s, ds, i + 1);
    } else {
        assert(ds.take(i + 1) =~= ds);
    }
}

} // verus!
