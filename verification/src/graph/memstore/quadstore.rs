//! An in-memory quad store: values and quads get ids, quads are kept by the
//! ids of their values, and an index finds the quads with a value in a
//! direction.
use vstd::prelude::*;
use crate::graph::value::{Value, ValueV};
use crate::graph::quad::Direction;

verus! {

/// A quad as the ids of its values; zero where a direction has no value.
#[derive(Debug, Clone, Copy, PartialEq, Eq, Structural)]
pub struct InternalQuad {
    pub s: i64,
    pub p: i64,
    pub o: i64,
    pub l: i64,
}

impl InternalQuad {
    pub open spec fn spec_dir(&self, d: Direction) -> i64 {
        match d {
            Direction::Subject => self.s,
            Direction::Predicate => self.p,
            Direction::Object => self.o,
            Direction::Label => self.l,
            Direction::Any => 0,
        }
    }

    /// A quad with no values.
    pub fn new() -> (r: InternalQuad)
        ensures
            r == (InternalQuad { s: 0, p: 0, o: 0, l: 0 }),
    {
        InternalQuad { s: 0, p: 0, o: 0, l: 0 }
    }

    /// The id in direction `dir` (zero for `Any`).
    pub fn dir(&self, dir: &Direction) -> (r: i64)
        ensures
            r == self.spec_dir(*dir),
    {
        match dir {
            Direction::Subject => self.s,
            Direction::Predicate => self.p,
            Direction::Object => self.o,
            Direction::Label => self.l,
            Direction::Any => 0,
        }
    }

    /// Sets the id in direction `dir` (nothing changes for `Any`).
    pub fn set_dir(&mut self, dir: &Direction, vid: i64)
        ensures
            *dir != Direction::Any ==> final(self).spec_dir(*dir) == vid,
            forall|e: Direction| e != *dir ==> #[trigger] final(self).spec_dir(e) == old(self).spec_dir(e),
    {
        match dir {
            Direction::Subject => self.s = vid,
            Direction::Predicate => self.p = vid,
            Direction::Object => self.o = vid,
            Direction::Label => self.l = vid,
            Direction::Any => {},
        }
    }
}

/// The byte by which a direction is ordered in index keys.
pub open spec fn dir_byte(d: Direction) -> i8 {
    match d {
        Direction::Any => 0,
        Direction::Subject => 1,
        Direction::Predicate => 2,
        Direction::Object => 3,
        Direction::Label => 4,
    }
}

/// An index entry: the quad `quad_id` has the value `value_id` in the
/// direction with byte `direction`.
#[derive(Debug, Clone, Copy, PartialEq, Eq, Structural)]
pub struct QuadDirectionKey {
    pub direction: i8,
    pub value_id: i64,
    pub quad_id: i64,
}

pub open spec fn spec_key(value_id: i64, d: Direction, quad_id: i64) -> QuadDirectionKey {
    QuadDirectionKey { direction: dir_byte(d), value_id, quad_id }
}

impl QuadDirectionKey {
    pub fn new(value_id: i64, direction: &Direction, quad_id: i64) -> (r: QuadDirectionKey)
        ensures
            r == spec_key(value_id, *direction, quad_id),
    {
        QuadDirectionKey { direction: direction.to_byte(), value_id, quad_id }
    }
}

/// The order of index entries: by direction, then value, then quad.
pub open spec fn key_lt(a: QuadDirectionKey, b: QuadDirectionKey) -> bool {
    a.direction < b.direction || (a.direction == b.direction && (a.value_id < b.value_id
        || (a.value_id == b.value_id && a.quad_id < b.quad_id)))
}

fn key_less(a: &QuadDirectionKey, b: &QuadDirectionKey) -> (r: bool)
    ensures
        r == key_lt(*a, *b),
{
    a.direction < b.direction || (a.direction == b.direction && (a.value_id < b.value_id
        || (a.value_id == b.value_id && a.quad_id < b.quad_id)))
}

/// Whether a sequence of entries is strictly ordered.
pub open spec fn keys_ordered(s: Seq<QuadDirectionKey>) -> bool {
    forall|i: int, j: int| 0 <= i < j < s.len() ==> key_lt(#[trigger] s[i], #[trigger] s[j])
}

/// The quads of the entries of `s` for direction byte `db` and value `v`, in
/// the order of `s`.
pub open spec fn matching_ids(s: Seq<QuadDirectionKey>, db: i8, v: i64) -> Seq<i64>
    decreases s.len(),
{
    if s.len() == 0 {
        Seq::empty()
    } else {
        let rest = matching_ids(s.drop_last(), db, v);
        if s.last().direction == db && s.last().value_id == v {
            rest.push(s.last().quad_id)
        } else {
            rest
        }
    }
}

/// The quads that, by the set of entries `s`, have `v` in direction `d`.
pub open spec fn quads_at(s: Set<QuadDirectionKey>, d: Direction, v: i64) -> Set<i64> {
    Set::new(|q: i64| s.contains(spec_key(v, d, q)))
}

/// Whether a sequence of ids is strictly increasing.
pub open spec fn strictly_increasing(s: Seq<i64>) -> bool {
    forall|i: int, j: int| 0 <= i < j < s.len() ==> #[trigger] s[i] < #[trigger] s[j]
}

proof fn lemma_matching_ids_members(s: Seq<QuadDirectionKey>, db: i8, v: i64)
    ensures
        forall|q: i64| #[trigger] matching_ids(s, db, v).contains(q) <==> s.contains(
            QuadDirectionKey { direction: db, value_id: v, quad_id: q },
        ),
    decreases s.len(),
{
    if s.len() > 0 {
        lemma_matching_ids_members(s.drop_last(), db, v);
        assert forall|q: i64| #[trigger] matching_ids(s, db, v).contains(q) <==> s.contains(
            QuadDirectionKey { direction: db, value_id: v, quad_id: q },
        ) by {
            let k = QuadDirectionKey { direction: db, value_id: v, quad_id: q };
            let rest = matching_ids(s.drop_last(), db, v);
            assert(s =~= s.drop_last().push(s.last()));
            if s.contains(k) {
                let i = choose|i: int| 0 <= i < s.len() && s[i] == k;
                if i < s.len() - 1 {
                    assert(s.drop_last()[i] == k);
                }
            }
            if s.drop_last().contains(k) {
                let i = choose|i: int| 0 <= i < s.drop_last().len() && s.drop_last()[i] == k;
                assert(s[i] == k);
            }
            if matching_ids(s, db, v).contains(q) && !rest.contains(q) {
                assert(matching_ids(s, db, v) == rest.push(s.last().quad_id));
                let j = choose|j: int| 0 <= j < rest.len() + 1 && rest.push(s.last().quad_id)[j] == q;
                assert(j == rest.len());
                assert(s[s.len() - 1] == k);
            }
            if rest.contains(q) {
                let j = choose|j: int| 0 <= j < rest.len() && rest[j] == q;
                if s.last().direction == db && s.last().value_id == v {
                    assert(rest.push(s.last().quad_id)[j] == q);
                }
            }
            if s.last() == k {
                assert(matching_ids(s, db, v) == rest.push(q));
                assert(rest.push(q)[rest.len() as int] == q);
            }
        }
    }
}

proof fn lemma_matching_ids_len(s: Seq<QuadDirectionKey>, db: i8, v: i64)
    ensures
        matching_ids(s, db, v).len() <= s.len(),
    decreases s.len(),
{
    if s.len() > 0 {
        lemma_matching_ids_len(s.drop_last(), db, v);
    }
}

proof fn lemma_matching_ids_increasing(s: Seq<QuadDirectionKey>, db: i8, v: i64)
    requires
        keys_ordered(s),
    ensures
        strictly_increasing(matching_ids(s, db, v)),
        forall|j: int| 0 <= j < matching_ids(s, db, v).len() ==> exists|i: int| 0 <= i < s.len()
            && s[i] == (QuadDirectionKey { direction: db, value_id: v, quad_id: #[trigger] matching_ids(s, db, v)[j] }),
    decreases s.len(),
{
    if s.len() > 0 {
        let p = s.drop_last();
        assert(keys_ordered(p)) by {
            assert forall|i: int, j: int| 0 <= i < j < p.len() implies key_lt(#[trigger] p[i], #[trigger] p[j]) by {
                assert(p[i] == s[i] && p[j] == s[j]);
            }
        }
        lemma_matching_ids_increasing(p, db, v);
        let rest = matching_ids(p, db, v);
        assert forall|j: int| 0 <= j < rest.len() implies exists|i: int| 0 <= i < s.len()
            && s[i] == (QuadDirectionKey { direction: db, value_id: v, quad_id: #[trigger] rest[j] }) by {
            let i = choose|i: int| 0 <= i < p.len() && p[i] == (QuadDirectionKey { direction: db, value_id: v, quad_id: rest[j] });
            assert(s[i] == p[i]);
        }
        if s.last().direction == db && s.last().value_id == v {
            let r = rest.push(s.last().quad_id);
            assert forall|a: int, b: int| 0 <= a < b < r.len() implies #[trigger] r[a] < #[trigger] r[b] by {
                if b == rest.len() {
                    let i = choose|i: int| 0 <= i < s.len() && s[i] == (QuadDirectionKey { direction: db, value_id: v, quad_id: rest[a] });
                    assert(i < s.len() - 1) by {
                        if i == s.len() - 1 {
                            assert(s[i] == s.last());
                        }
                    }
                    assert(key_lt(s[i], s[s.len() - 1]));
                }
            }
            assert forall|j: int| 0 <= j < r.len() implies exists|i: int| 0 <= i < s.len()
                && s[i] == (QuadDirectionKey { direction: db, value_id: v, quad_id: #[trigger] r[j] }) by {
                if j == rest.len() {
                    assert(s[s.len() - 1] == (QuadDirectionKey { direction: db, value_id: v, quad_id: r[j] }));
                } else {
                    assert(r[j] == rest[j]);
                }
            }
        }
    }
}

/// Finds the quads by one of their values and a direction.
pub struct QuadDirectionIndex {
    pub index: Vec<QuadDirectionKey>,
}

impl View for QuadDirectionIndex {
    type V = Set<QuadDirectionKey>;

    open spec fn view(&self) -> Set<QuadDirectionKey> {
        self.index@.to_set()
    }
}

impl QuadDirectionIndex {
    pub open spec fn wf(&self) -> bool {
        keys_ordered(self.index@)
    }

    pub fn new() -> (r: QuadDirectionIndex)
        ensures
            r.wf(),
            r@ == Set::<QuadDirectionKey>::empty(),
    {
        let r = QuadDirectionIndex { index: Vec::new() };
        proof {
            assert(r.index@.to_set() =~= Set::empty());
        }
        r
    }

    /// The ids of the quads with `value_id` in direction `d`, in increasing
    /// order.
    pub fn get(&self, d: &Direction, value_id: &i64) -> (r: Vec<i64>)
        requires
            self.wf(),
        ensures
            r@.to_set() == quads_at(self@, *d, *value_id),
            strictly_increasing(r@),
            r@.len() <= self.index@.len(),
    {
        let db = d.to_byte();
        let mut out: Vec<i64> = Vec::new();
        let mut i: usize = 0;
        while i < self.index.len()
            invariant
                i <= self.index@.len(),
                db == dir_byte(*d),
                out@ == matching_ids(self.index@.take(i as int), db, *value_id),
            decreases self.index@.len() - i,
        {
            let k = self.index[i];
            proof {
                assert(self.index@.take(i + 1).drop_last() =~= self.index@.take(i as int));
            }
            if k.direction == db && k.value_id == *value_id {
                out.push(k.quad_id);
            }
            i = i + 1;
        }
        proof {
            assert(self.index@.take(self.index@.len() as int) =~= self.index@);
            lemma_matching_ids_members(self.index@, db, *value_id);
            lemma_matching_ids_increasing(self.index@, db, *value_id);
            lemma_matching_ids_len(self.index@, db, *value_id);
            assert forall|q: i64| out@.to_set().contains(q) <==> quads_at(self@, *d, *value_id).contains(q) by {
                let k = spec_key(*value_id, *d, q);
                assert(out@.contains(q) <==> self.index@.contains(k));
            }
            assert(out@.to_set() =~= quads_at(self@, *d, *value_id));
        }
        out
    }

    /// Records that quad `quad_id` has `value_id` in direction `d`.
    pub fn insert(&mut self, value_id: i64, d: &Direction, quad_id: i64)
        requires
            old(self).wf(),
        ensures
            final(self).wf(),
            final(self)@ == old(self)@.insert(spec_key(value_id, *d, quad_id)),
    {
        let k = QuadDirectionKey::new(value_id, d, quad_id);
        let mut p: usize = 0;
        while p < self.index.len() && key_less(&self.index[p], &k)
            invariant
                p <= self.index@.len(),
                self.wf(),
                self.index@ == old(self).index@,
                forall|i: int| 0 <= i < p ==> key_lt(#[trigger] self.index@[i], k),
            decreases self.index@.len() - p,
        {
            p = p + 1;
        }
        if p < self.index.len() && self.index[p] == k {
            proof {
                assert(self.index@.to_set().contains(k));
                assert(self.index@.to_set().insert(k) =~= self.index@.to_set());
            }
            return;
        }
        let ghost s0 = self.index@;
        self.index.insert(p, k);
        proof {
            let s1 = self.index@;
            assert(s1 =~= s0.insert(p as int, k));
            assert forall|i: int, j: int| 0 <= i < j < s1.len() implies key_lt(#[trigger] s1[i], #[trigger] s1[j]) by {
                if j < p {
                } else if i < p && j == p {
                } else if i < p && j > p {
                    assert(s1[j] == s0[j - 1]);
                } else if i == p {
                    assert(s1[j] == s0[j - 1]);
                    assert(!key_lt(s0[p as int], k));
                    assert(s0[p as int] != k);
                    if j - 1 > p {
                        assert(key_lt(s0[p as int], s0[j - 1]));
                    }
                } else {
                    assert(s1[i] == s0[i - 1]);
                    assert(s1[j] == s0[j - 1]);
                }
            }
            assert forall|x: QuadDirectionKey| #[trigger] s1.to_set().contains(x) <==> s0.to_set().insert(k).contains(x) by {
                if s1.contains(x) {
                    let i = choose|i: int| 0 <= i < s1.len() && s1[i] == x;
                    if i < p {
                        assert(s0[i] == x);
                    } else if i > p {
                        assert(s0[i - 1] == x);
                    }
                }
                if s0.contains(x) {
                    let i = choose|i: int| 0 <= i < s0.len() && s0[i] == x;
                    if i < p {
                        assert(s1[i] == x);
                    } else {
                        assert(s1[i + 1] == x);
                    }
                }
                if x == k {
                    assert(s1[p as int] == k);
                }
            }
            assert(s1.to_set() =~= s0.to_set().insert(k));
        }
    }

    /// Forgets that quad `quad_id` has `value_id` in direction `d`.
    pub fn remove(&mut self, value_id: &i64, d: &Direction, quad_id: &i64)
        requires
            old(self).wf(),
        ensures
            final(self).wf(),
            final(self)@ == old(self)@.remove(spec_key(*value_id, *d, *quad_id)),
    {
        let k = QuadDirectionKey::new(*value_id, d, *quad_id);
        let mut p: usize = 0;
        while p < self.index.len()
            invariant
                p <= self.index@.len(),
                self.wf(),
                self.index@ == old(self).index@,
                forall|i: int| 0 <= i < p ==> #[trigger] self.index@[i] != k,
                k == spec_key(*value_id, *d, *quad_id),
            decreases self.index@.len() - p,
        {
            if self.index[p] == k {
                let ghost s0 = self.index@;
                self.index.remove(p);
                proof {
                    let s1 = self.index@;
                    assert(s1 =~= s0.remove(p as int));
                    assert forall|i: int, j: int| 0 <= i < j < s1.len() implies key_lt(#[trigger] s1[i], #[trigger] s1[j]) by {
                        let a = if i < p { i } else { i + 1 };
                        let b = if j < p { j } else { j + 1 };
                        assert(s1[i] == s0[a] && s1[j] == s0[b]);
                    }
                    assert forall|x: QuadDirectionKey| #[trigger] s1.to_set().contains(x) <==> s0.to_set().remove(k).contains(x) by {
                        if s1.contains(x) {
                            let i = choose|i: int| 0 <= i < s1.len() && s1[i] == x;
                            let a = if i < p { i } else { i + 1 };
                            assert(s0[a] == x);
                            if x == k {
                                assert(a != p);
                                if a < p {
                                    assert(key_lt(s0[a], s0[p as int]));
                                } else {
                                    assert(key_lt(s0[p as int], s0[a]));
                                }
                            }
                        }
                        if s0.contains(x) && x != k {
                            let i = choose|i: int| 0 <= i < s0.len() && s0[i] == x;
                            assert(i != p);
                            if i < p {
                                assert(s1[i] == x);
                            } else {
                                assert(s1[i - 1] == x);
                            }
                        }
                    }
                    assert(s1.to_set() =~= s0.to_set().remove(k));
                }
                return;
            }
            p = p + 1;
        }
        proof {
            assert(!self.index@.contains(k));
            assert(self.index@.to_set().remove(k) =~= self.index@.to_set());
        }
    }
}

/// Recording that a quad has a value in a direction makes it one of the
/// quads with that value there, and changes nothing else.
pub proof fn lemma_index_insert_get(s: Set<QuadDirectionKey>, value_id: i64, d: Direction, quad_id: i64, e: Direction, w: i64)
    ensures
        quads_at(s.insert(spec_key(value_id, d, quad_id)), d, value_id) == quads_at(s, d, value_id).insert(quad_id),
        dir_byte(e) != dir_byte(d) || w != value_id ==> quads_at(s.insert(spec_key(value_id, d, quad_id)), e, w)
            == quads_at(s, e, w),
{
    assert(quads_at(s.insert(spec_key(value_id, d, quad_id)), d, value_id) =~= quads_at(s, d, value_id).insert(quad_id));
    if dir_byte(e) != dir_byte(d) || w != value_id {
        assert(quads_at(s.insert(spec_key(value_id, d, quad_id)), e, w) =~= quads_at(s, e, w));
    }
}

/// Forgetting that a quad has a value in a direction takes it out of the
/// quads with that value there, and changes nothing else.
pub proof fn lemma_index_remove_get(s: Set<QuadDirectionKey>, value_id: i64, d: Direction, quad_id: i64, e: Direction, w: i64)
    ensures
        quads_at(s.remove(spec_key(value_id, d, quad_id)), d, value_id) == quads_at(s, d, value_id).remove(quad_id),
        dir_byte(e) != dir_byte(d) || w != value_id ==> quads_at(s.remove(spec_key(value_id, d, quad_id)), e, w)
            == quads_at(s, e, w),
{
    assert(quads_at(s.remove(spec_key(value_id, d, quad_id)), d, value_id) =~= quads_at(s, d, value_id).remove(quad_id));
    if dir_byte(e) != dir_byte(d) || w != value_id {
        assert(quads_at(s.remove(spec_key(value_id, d, quad_id)), e, w) =~= quads_at(s, e, w));
    }
}

} // verus!
