//! The contents of an in-memory store: its values and its quads, each with
//! an id, and the index that finds quads by a value and a direction.
use vstd::prelude::*;
use crate::graph::value::{Value, ValueV};
use crate::graph::quad::{Quad, QuadV, Direction, quad_get, Delta, Procedure, IgnoreOptions};
use crate::graph::memstore::quadstore::{InternalQuad, QuadDirectionIndex, QuadDirectionKey, spec_key, dir_byte, quads_at, strictly_increasing};
use crate::graph::refs::{Ref, RefV, ContentV, Size, len_as_i64, spec_len_as_i64};
use crate::graph::quad::{QuadStore, Stats};
use crate::graph::iterator::{Shape, Null};
use crate::graph::memstore::iterator::{MemStoreIterator, id_ref, make_id_ref};
use crate::graph::memstore::all_iterator::MemStoreAllIterator;
use crate::graph::memstore::iterator::key_id;

verus! {

/// The most quads a store holds, so that no count of the corners holding a
/// value can overflow.
pub const MAX_QUADS: usize = 536870000;

/// A value of the store: its id, how many quad corners hold it, and the value.
pub struct ValueEntry {
    pub id: i64,
    pub refs: i32,
    pub value: Value,
}

/// A quad of the store: its id and the ids of its values.
#[derive(Debug, Clone, Copy, PartialEq, Eq, Structural)]
pub struct QuadEntry {
    pub id: i64,
    pub quad: InternalQuad,
}

/// The k-th corner of a quad: subject, predicate, object, label.
pub open spec fn dir_at(k: int) -> Direction {
    if k == 0 {
        Direction::Subject
    } else if k == 1 {
        Direction::Predicate
    } else if k == 2 {
        Direction::Object
    } else {
        Direction::Label
    }
}

pub fn dir_of_index(k: usize) -> (r: Direction)
    requires
        k < 4,
    ensures
        r == dir_at(k as int),
{
    if k == 0 {
        Direction::Subject
    } else if k == 1 {
        Direction::Predicate
    } else if k == 2 {
        Direction::Object
    } else {
        Direction::Label
    }
}

/// One when corner `k` of `q` holds the id `v`, else zero.
pub open spec fn hit(q: InternalQuad, k: int, v: i64) -> nat {
    if q.spec_dir(dir_at(k)) == v { 1 } else { 0 }
}

/// How many of the corners `lo` up to `hi` (exclusive) of `q` hold `v`.
pub open spec fn cnt(q: InternalQuad, lo: int, hi: int, v: i64) -> nat {
    (if lo <= 0 < hi { hit(q, 0, v) } else { 0nat }) + (if lo <= 1 < hi { hit(q, 1, v) } else { 0nat })
        + (if lo <= 2 < hi { hit(q, 2, v) } else { 0nat }) + (if lo <= 3 < hi { hit(q, 3, v) } else { 0nat })
}

/// How many corners of the quads hold the id `v`.
pub open spec fn occ(qs: Seq<QuadEntry>, v: i64) -> nat
    decreases qs.len(),
{
    if qs.len() == 0 {
        0
    } else {
        occ(qs.drop_last(), v) + cnt(qs.last().quad, 0, 4, v)
    }
}

pub proof fn lemma_occ_push(qs: Seq<QuadEntry>, e: QuadEntry, v: i64)
    ensures
        occ(qs.push(e), v) == occ(qs, v) + cnt(e.quad, 0, 4, v),
{
    assert(qs.push(e).drop_last() =~= qs);
}

pub proof fn lemma_occ_bound(qs: Seq<QuadEntry>, v: i64)
    ensures
        occ(qs, v) <= 4 * qs.len(),
    decreases qs.len(),
{
    if qs.len() > 0 {
        lemma_occ_bound(qs.drop_last(), v);
    }
}

pub proof fn lemma_occ_ge(qs: Seq<QuadEntry>, i: int, v: i64)
    requires
        0 <= i < qs.len(),
    ensures
        occ(qs, v) >= cnt(qs[i].quad, 0, 4, v),
    decreases qs.len(),
{
    if i < qs.len() - 1 {
        lemma_occ_ge(qs.drop_last(), i, v);
    }
}

pub proof fn lemma_occ_zero(qs: Seq<QuadEntry>, v: i64)
    requires
        forall|i: int, k: int| 0 <= i < qs.len() && 0 <= k < 4 ==> #[trigger] qs[i].quad.spec_dir(dir_at(k)) != v,
    ensures
        occ(qs, v) == 0,
    decreases qs.len(),
{
    if qs.len() > 0 {
        let p = qs.drop_last();
        assert forall|i: int, k: int| 0 <= i < p.len() && 0 <= k < 4 implies #[trigger] p[i].quad.spec_dir(dir_at(k)) != v by {
            assert(p[i] == qs[i]);
        }
        lemma_occ_zero(p, v);
        let l = qs.len() - 1;
        assert(qs[l].quad.spec_dir(dir_at(0)) != v);
        assert(qs[l].quad.spec_dir(dir_at(1)) != v);
        assert(qs[l].quad.spec_dir(dir_at(2)) != v);
        assert(qs[l].quad.spec_dir(dir_at(3)) != v);
    }
}

pub proof fn lemma_occ_remove(qs: Seq<QuadEntry>, i: int, v: i64)
    requires
        0 <= i < qs.len(),
    ensures
        occ(qs.remove(i), v) + cnt(qs[i].quad, 0, 4, v) == occ(qs, v),
    decreases qs.len(),
{
    if i == qs.len() - 1 {
        assert(qs.remove(i) =~= qs.drop_last());
    } else {
        let p = qs.drop_last();
        lemma_occ_remove(p, i, v);
        assert(qs.remove(i) =~= p.remove(i).push(qs.last()));
        lemma_occ_push(p.remove(i), qs.last(), v);
    }
}

/// Whether some value of the store has the id.
pub open spec fn has_val_id(vs: Seq<ValueEntry>, id: i64) -> bool {
    exists|j: int| 0 <= j < vs.len() && #[trigger] vs[j].id == id
}

/// Whether some quad of the store has the id.
pub open spec fn has_quad_id(qs: Seq<QuadEntry>, id: i64) -> bool {
    exists|j: int| 0 <= j < qs.len() && #[trigger] qs[j].id == id
}

/// The value ids increase along the sequence and lie in 1..=last.
pub open spec fn val_ids_ok(vs: Seq<ValueEntry>, last: i64) -> bool {
    &&& forall|i: int, j: int| 0 <= i < j < vs.len() ==> #[trigger] vs[i].id < #[trigger] vs[j].id
    &&& forall|i: int| 0 <= i < vs.len() ==> 1 <= #[trigger] vs[i].id <= last
}

/// The quad ids increase along the sequence and lie in 1..=last.
pub open spec fn quad_ids_ok(qs: Seq<QuadEntry>, last: i64) -> bool {
    &&& forall|i: int, j: int| 0 <= i < j < qs.len() ==> #[trigger] qs[i].id < #[trigger] qs[j].id
    &&& forall|i: int| 0 <= i < qs.len() ==> 1 <= #[trigger] qs[i].id <= last
}

/// No value is stored twice, and `Undefined` is never stored.
pub open spec fn vals_distinct(vs: Seq<ValueEntry>) -> bool {
    &&& forall|i: int, j: int| 0 <= i < vs.len() && 0 <= j < vs.len() && i != j ==> #[trigger] vs[i].value@ != #[trigger] vs[j].value@
    &&& forall|i: int| 0 <= i < vs.len() ==> !(#[trigger] vs[i].value@ is Undefined)
}

/// No quad is stored twice.
pub open spec fn quads_distinct(qs: Seq<QuadEntry>) -> bool {
    forall|i: int, j: int| 0 <= i < qs.len() && 0 <= j < qs.len() && i != j ==> #[trigger] qs[i].quad != #[trigger] qs[j].quad
}

/// No id is both a value's and a quad's.
pub open spec fn ids_disjoint(vs: Seq<ValueEntry>, qs: Seq<QuadEntry>) -> bool {
    forall|i: int, j: int| 0 <= i < vs.len() && 0 <= j < qs.len() ==> #[trigger] vs[i].id != #[trigger] qs[j].id
}

/// Each corner of each quad is empty (zero) or the id of a stored value.
pub open spec fn quads_resolved(vs: Seq<ValueEntry>, qs: Seq<QuadEntry>) -> bool {
    forall|i: int, k: int| 0 <= i < qs.len() && 0 <= k < 4 ==> (#[trigger] qs[i].quad.spec_dir(dir_at(k)) == 0
        || has_val_id(vs, qs[i].quad.spec_dir(dir_at(k))))
}

/// Each value counts the corners holding it: those of the stored quads, and
/// the corners `lo..hi` of `q`.
pub open spec fn refs_counted(vs: Seq<ValueEntry>, qs: Seq<QuadEntry>, q: InternalQuad, lo: int, hi: int) -> bool {
    forall|i: int| 0 <= i < vs.len() ==> #[trigger] vs[i].refs == occ(qs, vs[i].id) + cnt(q, lo, hi, vs[i].id)
}

/// The index entries the quads call for: one per quad and corner.
pub open spec fn index_keys(qs: Seq<QuadEntry>) -> Set<QuadDirectionKey> {
    Set::new(|key: QuadDirectionKey| exists|i: int, k: int| 0 <= i < qs.len() && 0 <= k < 4
        && key == #[trigger] spec_key(qs[i].quad.spec_dir(dir_at(k)), dir_at(k), qs[i].id))
}

/// The quad with no values.
pub open spec fn empty_quad() -> InternalQuad {
    InternalQuad { s: 0, p: 0, o: 0, l: 0 }
}

/// The value stored under an id; `Undefined` for an id that no value has
/// (zero among them).
pub open spec fn name(vs: Seq<ValueEntry>, id: i64) -> ValueV {
    if has_val_id(vs, id) {
        vs[choose|j: int| 0 <= j < vs.len() && #[trigger] vs[j].id == id].value@
    } else {
        ValueV::Undefined
    }
}

/// A quad of ids read back as values.
pub open spec fn quadv_of(vs: Seq<ValueEntry>, p: InternalQuad) -> QuadV {
    QuadV { subject: name(vs, p.s), predicate: name(vs, p.p), object: name(vs, p.o), label: name(vs, p.l) }
}

/// The id under which the store holds a value, if it does.
pub open spec fn val_id(vs: Seq<ValueEntry>, v: ValueV) -> Option<i64> {
    if exists|j: int| 0 <= j < vs.len() && #[trigger] vs[j].value@ == v {
        Some(vs[choose|j: int| 0 <= j < vs.len() && #[trigger] vs[j].value@ == v].id)
    } else {
        None
    }
}

/// The id a corner gets for a value: zero for `Undefined`.
pub open spec fn rid(vs: Seq<ValueEntry>, v: ValueV) -> Option<i64> {
    if v is Undefined {
        Some(0)
    } else {
        val_id(vs, v)
    }
}

/// A quad of values as a quad of ids, when the store holds all its values.
pub open spec fn spec_resolve(vs: Seq<ValueEntry>, q: QuadV) -> Option<InternalQuad> {
    match (rid(vs, q.subject), rid(vs, q.predicate), rid(vs, q.object), rid(vs, q.label)) {
        (Some(s), Some(p), Some(o), Some(l)) => Some(InternalQuad { s, p, o, l }),
        _ => None,
    }
}

/// The id of a stored quad of ids, if it is stored.
pub open spec fn quad_id(qs: Seq<QuadEntry>, p: InternalQuad) -> Option<i64> {
    if exists|j: int| 0 <= j < qs.len() && #[trigger] qs[j].quad == p {
        Some(qs[choose|j: int| 0 <= j < qs.len() && #[trigger] qs[j].quad == p].id)
    } else {
        None
    }
}

/// The quad of ids stored under an id, if any.
pub open spec fn quad_by_id(qs: Seq<QuadEntry>, id: i64) -> Option<InternalQuad> {
    if has_quad_id(qs, id) {
        Some(qs[choose|j: int| 0 <= j < qs.len() && #[trigger] qs[j].id == id].quad)
    } else {
        None
    }
}

/// The quads of the store, as values.
pub open spec fn abs_quads(vs: Seq<ValueEntry>, qs: Seq<QuadEntry>) -> Set<QuadV> {
    Set::new(|x: QuadV| exists|i: int| 0 <= i < qs.len() && #[trigger] quadv_of(vs, qs[i].quad) == x)
}

pub proof fn lemma_val_id_at(vs: Seq<ValueEntry>, i: int)
    requires
        vals_distinct(vs),
        0 <= i < vs.len(),
    ensures
        val_id(vs, vs[i].value@) == Some(vs[i].id),
{
    let v = vs[i].value@;
    let c = choose|j: int| 0 <= j < vs.len() && #[trigger] vs[j].value@ == v;
    assert(vs[c].value@ == v);
    assert(c == i);
}

pub proof fn lemma_name_at(vs: Seq<ValueEntry>, last: i64, i: int)
    requires
        val_ids_ok(vs, last),
        0 <= i < vs.len(),
    ensures
        name(vs, vs[i].id) == vs[i].value@,
{
    let id = vs[i].id;
    assert(has_val_id(vs, id));
    let c = choose|j: int| 0 <= j < vs.len() && #[trigger] vs[j].id == id;
    assert(vs[c].id == id);
    if c < i {
        assert(vs[c].id < vs[i].id);
    } else if c > i {
        assert(vs[i].id < vs[c].id);
    }
}

pub proof fn lemma_quad_id_at(qs: Seq<QuadEntry>, i: int)
    requires
        quads_distinct(qs),
        0 <= i < qs.len(),
    ensures
        quad_id(qs, qs[i].quad) == Some(qs[i].id),
{
    let p = qs[i].quad;
    let c = choose|j: int| 0 <= j < qs.len() && #[trigger] qs[j].quad == p;
    assert(qs[c].quad == p);
    assert(c == i);
}

pub proof fn lemma_quad_by_id_at(qs: Seq<QuadEntry>, last: i64, i: int)
    requires
        quad_ids_ok(qs, last),
        0 <= i < qs.len(),
    ensures
        quad_by_id(qs, qs[i].id) == Some(qs[i].quad),
{
    let id = qs[i].id;
    assert(has_quad_id(qs, id));
    let c = choose|j: int| 0 <= j < qs.len() && #[trigger] qs[j].id == id;
    assert(qs[c].id == id);
    if c < i {
        assert(qs[c].id < qs[i].id);
    } else if c > i {
        assert(qs[i].id < qs[c].id);
    }
}

/// The values of `a` are kept in `b`, at the same places and under the same
/// ids.
pub open spec fn vals_extend(a: Seq<ValueEntry>, b: Seq<ValueEntry>) -> bool {
    &&& a.len() <= b.len()
    &&& forall|i: int| 0 <= i < a.len() ==> #[trigger] b[i].id == a[i].id && b[i].value@ == a[i].value@
}

pub proof fn lemma_name_extend(a: Seq<ValueEntry>, b: Seq<ValueEntry>, last: i64, id: i64)
    requires
        vals_extend(a, b),
        val_ids_ok(b, last),
        has_val_id(a, id),
    ensures
        has_val_id(b, id),
        name(b, id) == name(a, id),
{
    let j = choose|j: int| 0 <= j < a.len() && #[trigger] a[j].id == id;
    assert(b[j].id == id);
    assert(val_ids_ok(a, last)) by {
        assert forall|x: int, y: int| 0 <= x < y < a.len() implies #[trigger] a[x].id < #[trigger] a[y].id by {
            assert(b[x].id == a[x].id && b[y].id == a[y].id);
        }
        assert forall|x: int| 0 <= x < a.len() implies 1 <= #[trigger] a[x].id <= last by {
            assert(b[x].id == a[x].id);
        }
    }
    lemma_name_at(a, last, j);
    lemma_name_at(b, last, j);
}

/// The index entries of the first `n` corners of a quad.
pub open spec fn part_keys(e: QuadEntry, n: int) -> Set<QuadDirectionKey> {
    Set::new(|key: QuadDirectionKey| exists|k: int| 0 <= k < n
        && key == #[trigger] spec_key(e.quad.spec_dir(dir_at(k)), dir_at(k), e.id))
}

pub proof fn lemma_index_keys_push(qs: Seq<QuadEntry>, e: QuadEntry)
    ensures
        index_keys(qs.push(e)) == index_keys(qs).union(part_keys(e, 4)),
{
    let n = qs.push(e);
    assert forall|key: QuadDirectionKey| #[trigger] index_keys(n).contains(key) <==> index_keys(qs).union(part_keys(e, 4)).contains(key) by {
        if index_keys(n).contains(key) {
            let (i, k) = choose|i: int, k: int| 0 <= i < n.len() && 0 <= k < 4
                && key == #[trigger] spec_key(n[i].quad.spec_dir(dir_at(k)), dir_at(k), n[i].id);
            if i < qs.len() {
                assert(n[i] == qs[i]);
            } else {
                assert(n[i] == e);
            }
        }
        if index_keys(qs).contains(key) {
            let (i, k) = choose|i: int, k: int| 0 <= i < qs.len() && 0 <= k < 4
                && key == #[trigger] spec_key(qs[i].quad.spec_dir(dir_at(k)), dir_at(k), qs[i].id);
            assert(n[i] == qs[i]);
        }
        if part_keys(e, 4).contains(key) {
            let k = choose|k: int| 0 <= k < 4 && key == #[trigger] spec_key(e.quad.spec_dir(dir_at(k)), dir_at(k), e.id);
            assert(n[qs.len() as int] == e);
        }
    }
    assert(index_keys(n) =~= index_keys(qs).union(part_keys(e, 4)));
}

pub proof fn lemma_index_keys_remove(qs: Seq<QuadEntry>, last: i64, i: int)
    requires
        quad_ids_ok(qs, last),
        0 <= i < qs.len(),
    ensures
        index_keys(qs.remove(i)) == index_keys(qs).difference(part_keys(qs[i], 4)),
{
    let n = qs.remove(i);
    let e = qs[i];
    assert forall|key: QuadDirectionKey| #[trigger] index_keys(n).contains(key) <==> index_keys(qs).difference(part_keys(e, 4)).contains(key) by {
        if index_keys(n).contains(key) {
            let (a, k) = choose|a: int, k: int| 0 <= a < n.len() && 0 <= k < 4
                && key == #[trigger] spec_key(n[a].quad.spec_dir(dir_at(k)), dir_at(k), n[a].id);
            let b = if a < i { a } else { a + 1 };
            assert(n[a] == qs[b]);
            assert(qs[b].id != e.id) by {
                if b < i {
                    assert(qs[b].id < qs[i].id);
                } else {
                    assert(qs[i].id < qs[b].id);
                }
            }
            assert(!part_keys(e, 4).contains(key));
        }
        if index_keys(qs).contains(key) && !part_keys(e, 4).contains(key) {
            let (a, k) = choose|a: int, k: int| 0 <= a < qs.len() && 0 <= k < 4
                && key == #[trigger] spec_key(qs[a].quad.spec_dir(dir_at(k)), dir_at(k), qs[a].id);
            assert(a != i);
            let b = if a < i { a } else { a - 1 };
            assert(n[b] == qs[a]);
        }
    }
    assert(index_keys(n) =~= index_keys(qs).difference(part_keys(e, 4)));
}

/// Adds the index entries of the four corners of a quad.
pub fn index_quad(index: &mut QuadDirectionIndex, e: &QuadEntry)
    requires
        old(index).wf(),
    ensures
        final(index).wf(),
        final(index)@ == old(index)@.union(part_keys(*e, 4)),
{
    let mut k: usize = 0;
    while k < 4
        invariant
            k <= 4,
            index.wf(),
            index@ == old(index)@.union(part_keys(*e, k as int)),
        decreases 4 - k,
    {
        let d = dir_of_index(k);
        index.insert(e.quad.dir(&d), &d, e.id);
        proof {
            let key = spec_key(e.quad.spec_dir(dir_at(k as int)), dir_at(k as int), e.id);
            assert forall|x: QuadDirectionKey| #[trigger] part_keys(*e, k + 1).contains(x) <==> part_keys(*e, k as int).insert(key).contains(x) by {
                if part_keys(*e, k + 1).contains(x) {
                    let j = choose|j: int| 0 <= j < k + 1 && x == #[trigger] spec_key(e.quad.spec_dir(dir_at(j)), dir_at(j), e.id);
                }
            }
            assert(part_keys(*e, k + 1) =~= part_keys(*e, k as int).insert(key));
            assert(index@ =~= old(index)@.union(part_keys(*e, k + 1)));
        }
        k = k + 1;
    }
}

/// Removes the index entries of the four corners of a quad.
pub fn unindex_quad(index: &mut QuadDirectionIndex, e: &QuadEntry)
    requires
        old(index).wf(),
    ensures
        final(index).wf(),
        final(index)@ == old(index)@.difference(part_keys(*e, 4)),
{
    let mut k: usize = 0;
    while k < 4
        invariant
            k <= 4,
            index.wf(),
            index@ == old(index)@.difference(part_keys(*e, k as int)),
        decreases 4 - k,
    {
        let d = dir_of_index(k);
        let vid = e.quad.dir(&d);
        index.remove(&vid, &d, &e.id);
        proof {
            let key = spec_key(e.quad.spec_dir(dir_at(k as int)), dir_at(k as int), e.id);
            assert forall|x: QuadDirectionKey| #[trigger] part_keys(*e, k + 1).contains(x) <==> part_keys(*e, k as int).insert(key).contains(x) by {
                if part_keys(*e, k + 1).contains(x) {
                    let j = choose|j: int| 0 <= j < k + 1 && x == #[trigger] spec_key(e.quad.spec_dir(dir_at(j)), dir_at(j), e.id);
                }
            }
            assert(part_keys(*e, k + 1) =~= part_keys(*e, k as int).insert(key));
            assert(index@ =~= old(index)@.difference(part_keys(*e, k + 1)));
        }
        k = k + 1;
    }
}

pub proof fn lemma_name_zero(vs: Seq<ValueEntry>, last: i64)
    requires
        val_ids_ok(vs, last),
    ensures
        !has_val_id(vs, 0),
        name(vs, 0) == ValueV::Undefined,
{
    if has_val_id(vs, 0) {
        let j = choose|j: int| 0 <= j < vs.len() && #[trigger] vs[j].id == 0;
        assert(1 <= vs[j].id);
    }
}

/// Each corner of `p` is zero or the id of one of the values.
pub open spec fn corners_resolved(vs: Seq<ValueEntry>, p: InternalQuad) -> bool {
    forall|k: int| 0 <= k < 4 ==> (#[trigger] p.spec_dir(dir_at(k)) == 0 || has_val_id(vs, p.spec_dir(dir_at(k))))
}

pub proof fn lemma_quadv_extend(a: Seq<ValueEntry>, b: Seq<ValueEntry>, last: i64, p: InternalQuad)
    requires
        vals_extend(a, b),
        val_ids_ok(b, last),
        corners_resolved(a, p),
    ensures
        quadv_of(b, p) == quadv_of(a, p),
        corners_resolved(b, p),
{
    lemma_name_zero(b, last);
    assert(val_ids_ok(a, last)) by {
        assert forall|x: int, y: int| 0 <= x < y < a.len() implies #[trigger] a[x].id < #[trigger] a[y].id by {
            assert(b[x].id == a[x].id && b[y].id == a[y].id);
        }
        assert forall|x: int| 0 <= x < a.len() implies 1 <= #[trigger] a[x].id <= last by {
            assert(b[x].id == a[x].id);
        }
    }
    lemma_name_zero(a, last);
    assert forall|k: int| 0 <= k < 4 implies name(b, #[trigger] p.spec_dir(dir_at(k))) == name(a, p.spec_dir(dir_at(k)))
        && (p.spec_dir(dir_at(k)) == 0 || has_val_id(b, p.spec_dir(dir_at(k)))) by {
        if p.spec_dir(dir_at(k)) != 0 {
            lemma_name_extend(a, b, last, p.spec_dir(dir_at(k)));
        }
    }
    assert(p.spec_dir(dir_at(0)) == p.s);
    assert(p.spec_dir(dir_at(1)) == p.p);
    assert(p.spec_dir(dir_at(2)) == p.o);
    assert(p.spec_dir(dir_at(3)) == p.l);
}

/// Corner `j` of `p` holds the id of the value of `q` there (zero when `q`
/// has none).
pub open spec fn corner_ok(vs: Seq<ValueEntry>, p: InternalQuad, q: QuadV, j: int) -> bool {
    if quad_get(q, dir_at(j)) is Undefined {
        p.spec_dir(dir_at(j)) == 0
    } else {
        exists|w: int| 0 <= w < vs.len() && #[trigger] vs[w].id == p.spec_dir(dir_at(j)) && vs[w].value@ == quad_get(q, dir_at(j))
    }
}

pub proof fn lemma_corners_read_back(vs: Seq<ValueEntry>, last: i64, p: InternalQuad, q: QuadV)
    requires
        val_ids_ok(vs, last),
        vals_distinct(vs),
        forall|j: int| 0 <= j < 4 ==> #[trigger] corner_ok(vs, p, q, j),
    ensures
        quadv_of(vs, p) == q,
        spec_resolve(vs, q) == Some(p),
        corners_resolved(vs, p),
{
    lemma_name_zero(vs, last);
    assert forall|j: int| 0 <= j < 4 implies name(vs, #[trigger] p.spec_dir(dir_at(j))) == quad_get(q, dir_at(j))
        && rid(vs, quad_get(q, dir_at(j))) == Some(p.spec_dir(dir_at(j)))
        && (p.spec_dir(dir_at(j)) == 0 || has_val_id(vs, p.spec_dir(dir_at(j)))) by {
        assert(corner_ok(vs, p, q, j));
        if !(quad_get(q, dir_at(j)) is Undefined) {
            let w = choose|w: int| 0 <= w < vs.len() && #[trigger] vs[w].id == p.spec_dir(dir_at(j)) && vs[w].value@ == quad_get(q, dir_at(j));
            lemma_name_at(vs, last, w);
            lemma_val_id_at(vs, w);
        }
    }
    assert(p.spec_dir(dir_at(0)) == p.s && quad_get(q, dir_at(0)) == q.subject);
    assert(p.spec_dir(dir_at(1)) == p.p && quad_get(q, dir_at(1)) == q.predicate);
    assert(p.spec_dir(dir_at(2)) == p.o && quad_get(q, dir_at(2)) == q.object);
    assert(p.spec_dir(dir_at(3)) == p.l && quad_get(q, dir_at(3)) == q.label);
}

proof fn lemma_resolve_corner(vs: Seq<ValueEntry>, q: QuadV, p0: InternalQuad, j: int)
    requires
        spec_resolve(vs, q) == Some(p0),
        0 <= j < 4,
    ensures
        rid(vs, quad_get(q, dir_at(j))) == Some(p0.spec_dir(dir_at(j))),
{
    if j == 0 {
    } else if j == 1 {
    } else if j == 2 {
    } else {
    }
}

proof fn lemma_new_quad_fresh(
    ov: Seq<ValueEntry>,
    vs: Seq<ValueEntry>,
    qs0: Seq<QuadEntry>,
    p: InternalQuad,
    q: QuadV,
    probe: InternalQuad,
    old_last: i64,
    last: i64,
)
    requires
        vals_extend(ov, vs),
        vals_distinct(vs),
        vals_distinct(ov),
        0 <= old_last,
        val_ids_ok(ov, old_last),
        quads_resolved(ov, qs0),
        forall|w: int| ov.len() <= w < vs.len() ==> #[trigger] vs[w].id > old_last,
        forall|j: int| 0 <= j < 4 ==> #[trigger] corner_ok(vs, p, q, j),
        probe == (match spec_resolve(ov, q) {
            Some(p0) => p0,
            None => empty_quad(),
        }),
        forall|j: int| 0 <= j < qs0.len() ==> #[trigger] qs0[j].quad != probe,
    ensures
        forall|a: int| 0 <= a < qs0.len() ==> #[trigger] qs0[a].quad != p,
{
    match spec_resolve(ov, q) {
        Some(p0) => {
            assert forall|j: int| 0 <= j < 4 implies #[trigger] p.spec_dir(dir_at(j)) == p0.spec_dir(dir_at(j)) by {
                assert(corner_ok(vs, p, q, j));
                lemma_resolve_corner(ov, q, p0, j);
                if !(quad_get(q, dir_at(j)) is Undefined) {
                    let v = quad_get(q, dir_at(j));
                    let w = choose|w: int| 0 <= w < vs.len() && #[trigger] vs[w].id == p.spec_dir(dir_at(j)) && vs[w].value@ == v;
                    let w0 = choose|w: int| 0 <= w < ov.len() && #[trigger] ov[w].value@ == v;
                    assert(ov[w0].value@ == v);
                    lemma_val_id_at(ov, w0);
                    assert(vs[w0].id == ov[w0].id);
                    assert(vs[w0].value@ == v);
                    assert(w == w0);
                }
            }
            assert(p.spec_dir(dir_at(0)) == p.s);
            assert(p.spec_dir(dir_at(1)) == p.p);
            assert(p.spec_dir(dir_at(2)) == p.o);
            assert(p.spec_dir(dir_at(3)) == p.l);
            assert(p == p0);
        },
        None => {
            let j = if rid(ov, q.subject) is None { 0int } else if rid(ov, q.predicate) is None { 1int }
                else if rid(ov, q.object) is None { 2int } else { 3int };
            let v = quad_get(q, dir_at(j));
            assert(rid(ov, v) is None);
            assert(corner_ok(vs, p, q, j));
            let w = choose|w: int| 0 <= w < vs.len() && #[trigger] vs[w].id == p.spec_dir(dir_at(j)) && vs[w].value@ == v;
            if w < ov.len() {
                assert(vs[w].id == ov[w].id);
                assert(ov[w].value@ == v);
            }
            assert(p.spec_dir(dir_at(j)) > old_last);
            assert forall|a: int| 0 <= a < qs0.len() implies #[trigger] qs0[a].quad != p by {
                let c = qs0[a].quad.spec_dir(dir_at(j));
                if c != 0 {
                    assert(has_val_id(ov, c));
                    let x = choose|x: int| 0 <= x < ov.len() && #[trigger] ov[x].id == c;
                    assert(c <= old_last);
                }
                assert(c != p.spec_dir(dir_at(j)));
            }
        },
    }
}

proof fn lemma_push_quad(vs: Seq<ValueEntry>, qs0: Seq<QuadEntry>, e: QuadEntry, last: i64)
    requires
        quads_distinct(qs0),
        forall|a: int| 0 <= a < qs0.len() ==> #[trigger] qs0[a].quad != e.quad,
        quad_ids_ok(qs0, (last - 1) as i64),
        e.id == last,
        1 <= last,
        forall|a: int| 0 <= a < vs.len() ==> 1 <= #[trigger] vs[a].id < last,
        ids_disjoint(vs, qs0),
        quads_resolved(vs, qs0),
        corners_resolved(vs, e.quad),
        refs_counted(vs, qs0, e.quad, 0, 4),
    ensures
        quads_distinct(qs0.push(e)),
        quad_ids_ok(qs0.push(e), last),
        ids_disjoint(vs, qs0.push(e)),
        quads_resolved(vs, qs0.push(e)),
        refs_counted(vs, qs0.push(e), empty_quad(), 0, 0),
{
    let qs1 = qs0.push(e);
    assert forall|a: int, b: int| 0 <= a < qs1.len() && 0 <= b < qs1.len() && a != b implies #[trigger] qs1[a].quad != #[trigger] qs1[b].quad by {
        if a < qs0.len() && b < qs0.len() {
            assert(qs1[a] == qs0[a] && qs1[b] == qs0[b]);
        } else if a < qs0.len() {
            assert(qs1[a] == qs0[a]);
        } else {
            assert(qs1[b] == qs0[b]);
        }
    }
    assert forall|a: int, b: int| 0 <= a < b < qs1.len() implies #[trigger] qs1[a].id < #[trigger] qs1[b].id by {
        assert(qs1[a] == qs0[a]);
        if b < qs0.len() {
            assert(qs1[b] == qs0[b]);
        }
    }
    assert forall|a: int| 0 <= a < qs1.len() implies 1 <= #[trigger] qs1[a].id <= last by {
        if a < qs0.len() {
            assert(qs1[a] == qs0[a]);
        }
    }
    assert forall|a: int, b: int| 0 <= a < vs.len() && 0 <= b < qs1.len() implies #[trigger] vs[a].id != #[trigger] qs1[b].id by {
        if b < qs0.len() {
            assert(qs1[b] == qs0[b]);
        }
    }
    assert forall|a: int, c: int| 0 <= a < qs1.len() && 0 <= c < 4 implies (#[trigger] qs1[a].quad.spec_dir(dir_at(c)) == 0
        || has_val_id(vs, qs1[a].quad.spec_dir(dir_at(c)))) by {
        if a < qs0.len() {
            assert(qs1[a] == qs0[a]);
        } else {
            assert(qs1[a].quad == e.quad);
        }
    }
    assert forall|i: int| 0 <= i < vs.len() implies #[trigger] vs[i].refs == occ(qs1, vs[i].id) + cnt(empty_quad(), 0, 0, vs[i].id) by {
        lemma_occ_push(qs0, e, vs[i].id);
    }
}

proof fn lemma_add_abs(ov: Seq<ValueEntry>, vs: Seq<ValueEntry>, qs0: Seq<QuadEntry>, e: QuadEntry, q: QuadV, last: i64)
    requires
        vals_extend(ov, vs),
        val_ids_ok(vs, last),
        quads_resolved(ov, qs0),
        quadv_of(vs, e.quad) == q,
    ensures
        abs_quads(vs, qs0.push(e)) == abs_quads(ov, qs0).insert(q),
{
    let qs1 = qs0.push(e);
    assert forall|a: int| 0 <= a < qs0.len() implies #[trigger] quadv_of(vs, qs0[a].quad) == quadv_of(ov, qs0[a].quad) by {
        assert(corners_resolved(ov, qs0[a].quad)) by {
            assert forall|c: int| 0 <= c < 4 implies (#[trigger] qs0[a].quad.spec_dir(dir_at(c)) == 0
                || has_val_id(ov, qs0[a].quad.spec_dir(dir_at(c)))) by {
            }
        }
        lemma_quadv_extend(ov, vs, last, qs0[a].quad);
    }
    assert forall|x: QuadV| #[trigger] abs_quads(vs, qs1).contains(x) <==> abs_quads(ov, qs0).insert(q).contains(x) by {
        if abs_quads(vs, qs1).contains(x) {
            let a = choose|a: int| 0 <= a < qs1.len() && #[trigger] quadv_of(vs, qs1[a].quad) == x;
            if a < qs0.len() {
                assert(qs1[a] == qs0[a]);
                assert(quadv_of(ov, qs0[a].quad) == x);
            }
        }
        if abs_quads(ov, qs0).contains(x) {
            let a = choose|a: int| 0 <= a < qs0.len() && #[trigger] quadv_of(ov, qs0[a].quad) == x;
            assert(qs1[a] == qs0[a]);
            assert(quadv_of(vs, qs1[a].quad) == x);
        }
        if x == q {
            assert(quadv_of(vs, qs1[qs0.len() as int].quad) == x);
        }
    }
    assert(abs_quads(vs, qs1) =~= abs_quads(ov, qs0).insert(q));
}

/// Each value of `b` is one of `a`, under the same id.
pub open spec fn vals_sub(a: Seq<ValueEntry>, b: Seq<ValueEntry>) -> bool {
    forall|i: int| 0 <= i < b.len() ==> #[trigger] has_entry(a, b[i].id, b[i].value@)
}

/// Whether some value of `a` is `v` under the id `id`.
pub open spec fn has_entry(a: Seq<ValueEntry>, id: i64, v: ValueV) -> bool {
    exists|j: int| 0 <= j < a.len() && #[trigger] a[j].id == id && a[j].value@ == v
}

pub proof fn lemma_name_sub(a: Seq<ValueEntry>, b: Seq<ValueEntry>, last: i64, id: i64)
    requires
        vals_sub(a, b),
        val_ids_ok(a, last),
        val_ids_ok(b, last),
        has_val_id(b, id),
    ensures
        has_val_id(a, id),
        name(b, id) == name(a, id),
{
    let i = choose|i: int| 0 <= i < b.len() && #[trigger] b[i].id == id;
    assert(has_entry(a, b[i].id, b[i].value@));
    let j = choose|j: int| 0 <= j < a.len() && #[trigger] a[j].id == b[i].id && a[j].value@ == b[i].value@;
    lemma_name_at(a, last, j);
    lemma_name_at(b, last, i);
}

pub proof fn lemma_quadv_injective(vs: Seq<ValueEntry>, last: i64, p1: InternalQuad, p2: InternalQuad)
    requires
        val_ids_ok(vs, last),
        vals_distinct(vs),
        corners_resolved(vs, p1),
        corners_resolved(vs, p2),
        quadv_of(vs, p1) == quadv_of(vs, p2),
    ensures
        p1 == p2,
{
    lemma_name_zero(vs, last);
    assert forall|k: int| 0 <= k < 4 implies #[trigger] p1.spec_dir(dir_at(k)) == p2.spec_dir(dir_at(k)) by {
        let c1 = p1.spec_dir(dir_at(k));
        let c2 = p2.spec_dir(dir_at(k));
        assert(p1.spec_dir(dir_at(0)) == p1.s && p2.spec_dir(dir_at(0)) == p2.s);
        assert(p1.spec_dir(dir_at(1)) == p1.p && p2.spec_dir(dir_at(1)) == p2.p);
        assert(p1.spec_dir(dir_at(2)) == p1.o && p2.spec_dir(dir_at(2)) == p2.o);
        assert(p1.spec_dir(dir_at(3)) == p1.l && p2.spec_dir(dir_at(3)) == p2.l);
        assert(name(vs, c1) == name(vs, c2));
        if c1 != 0 {
            let w1 = choose|w: int| 0 <= w < vs.len() && #[trigger] vs[w].id == c1;
            lemma_name_at(vs, last, w1);
        }
        if c2 != 0 {
            let w2 = choose|w: int| 0 <= w < vs.len() && #[trigger] vs[w].id == c2;
            lemma_name_at(vs, last, w2);
        }
        if c1 != 0 && c2 != 0 {
            let w1 = choose|w: int| 0 <= w < vs.len() && #[trigger] vs[w].id == c1;
            let w2 = choose|w: int| 0 <= w < vs.len() && #[trigger] vs[w].id == c2;
            assert(vs[w1].value@ == vs[w2].value@);
        }
    }
    assert(p1.spec_dir(dir_at(0)) == p1.s && p2.spec_dir(dir_at(0)) == p2.s);
    assert(p1.spec_dir(dir_at(1)) == p1.p && p2.spec_dir(dir_at(1)) == p2.p);
    assert(p1.spec_dir(dir_at(2)) == p1.o && p2.spec_dir(dir_at(2)) == p2.o);
    assert(p1.spec_dir(dir_at(3)) == p1.l && p2.spec_dir(dir_at(3)) == p2.l);
}

/// Taking a quad out keeps the rest consistent.
proof fn lemma_remove_quad(vs: Seq<ValueEntry>, qs: Seq<QuadEntry>, last: i64, pos: int)
    requires
        0 <= pos < qs.len(),
        quads_distinct(qs),
        quad_ids_ok(qs, last),
        ids_disjoint(vs, qs),
        quads_resolved(vs, qs),
        refs_counted(vs, qs, empty_quad(), 0, 0),
    ensures
        quads_distinct(qs.remove(pos)),
        quad_ids_ok(qs.remove(pos), last),
        ids_disjoint(vs, qs.remove(pos)),
        quads_resolved(vs, qs.remove(pos)),
        refs_counted(vs, qs.remove(pos), qs[pos].quad, 0, 4),
        corners_resolved(vs, qs[pos].quad),
{
    let q1 = qs.remove(pos);
    assert forall|a: int| 0 <= a < q1.len() implies #[trigger] q1[a] == qs[if a < pos { a } else { a + 1 }] by {}
    assert forall|a: int, b: int| 0 <= a < q1.len() && 0 <= b < q1.len() && a != b implies #[trigger] q1[a].quad != #[trigger] q1[b].quad by {
        assert(q1[a] == qs[if a < pos { a } else { a + 1 }]);
        assert(q1[b] == qs[if b < pos { b } else { b + 1 }]);
    }
    assert forall|a: int, b: int| 0 <= a < b < q1.len() implies #[trigger] q1[a].id < #[trigger] q1[b].id by {
        assert(q1[a] == qs[if a < pos { a } else { a + 1 }]);
        assert(q1[b] == qs[if b < pos { b } else { b + 1 }]);
    }
    assert forall|a: int| 0 <= a < q1.len() implies 1 <= #[trigger] q1[a].id <= last by {
        assert(q1[a] == qs[if a < pos { a } else { a + 1 }]);
    }
    assert forall|a: int, b: int| 0 <= a < vs.len() && 0 <= b < q1.len() implies #[trigger] vs[a].id != #[trigger] q1[b].id by {
        assert(q1[b] == qs[if b < pos { b } else { b + 1 }]);
    }
    assert forall|a: int, c: int| 0 <= a < q1.len() && 0 <= c < 4 implies (#[trigger] q1[a].quad.spec_dir(dir_at(c)) == 0
        || has_val_id(vs, q1[a].quad.spec_dir(dir_at(c)))) by {
        let b = if a < pos { a } else { a + 1 };
        assert(q1[a] == qs[b]);
        assert(qs[b].quad.spec_dir(dir_at(c)) == 0 || has_val_id(vs, qs[b].quad.spec_dir(dir_at(c))));
    }
    assert forall|i: int| 0 <= i < vs.len() implies #[trigger] vs[i].refs == occ(q1, vs[i].id) + cnt(qs[pos].quad, 0, 4, vs[i].id) by {
        lemma_occ_remove(qs, pos, vs[i].id);
    }
    assert forall|c: int| 0 <= c < 4 implies (#[trigger] qs[pos].quad.spec_dir(dir_at(c)) == 0
        || has_val_id(vs, qs[pos].quad.spec_dir(dir_at(c)))) by {
    }
}

proof fn lemma_delete_abs(vs0: Seq<ValueEntry>, vs1: Seq<ValueEntry>, qs0: Seq<QuadEntry>, pos: int, last: i64)
    requires
        0 <= pos < qs0.len(),
        val_ids_ok(vs0, last),
        val_ids_ok(vs1, last),
        vals_distinct(vs0),
        quads_distinct(qs0),
        quads_resolved(vs0, qs0),
        quads_resolved(vs1, qs0.remove(pos)),
        vals_sub(vs0, vs1),
    ensures
        abs_quads(vs1, qs0.remove(pos)) == abs_quads(vs0, qs0).remove(quadv_of(vs0, qs0[pos].quad)),
{
    let q1 = qs0.remove(pos);
    let gone = quadv_of(vs0, qs0[pos].quad);
    assert forall|a: int| 0 <= a < qs0.len() implies corners_resolved(vs0, #[trigger] qs0[a].quad) by {
        assert forall|c: int| 0 <= c < 4 implies (#[trigger] qs0[a].quad.spec_dir(dir_at(c)) == 0
            || has_val_id(vs0, qs0[a].quad.spec_dir(dir_at(c)))) by {}
    }
    assert forall|a: int| 0 <= a < q1.len() implies #[trigger] quadv_of(vs1, q1[a].quad) == quadv_of(vs0, q1[a].quad) by {
        let p = q1[a].quad;
        lemma_name_zero(vs1, last);
        lemma_name_zero(vs0, last);
        assert forall|c: int| 0 <= c < 4 implies name(vs1, #[trigger] p.spec_dir(dir_at(c))) == name(vs0, p.spec_dir(dir_at(c))) by {
            assert(p.spec_dir(dir_at(c)) == 0 || has_val_id(vs1, p.spec_dir(dir_at(c))));
            if p.spec_dir(dir_at(c)) != 0 {
                lemma_name_sub(vs0, vs1, last, p.spec_dir(dir_at(c)));
            }
        }
        assert(p.spec_dir(dir_at(0)) == p.s);
        assert(p.spec_dir(dir_at(1)) == p.p);
        assert(p.spec_dir(dir_at(2)) == p.o);
        assert(p.spec_dir(dir_at(3)) == p.l);
    }
    assert forall|x: QuadV| #[trigger] abs_quads(vs1, q1).contains(x) <==> abs_quads(vs0, qs0).remove(gone).contains(x) by {
        if abs_quads(vs1, q1).contains(x) {
            let a = choose|a: int| 0 <= a < q1.len() && #[trigger] quadv_of(vs1, q1[a].quad) == x;
            let b = if a < pos { a } else { a + 1 };
            assert(q1[a] == qs0[b]);
            assert(quadv_of(vs0, qs0[b].quad) == x);
            if x == gone {
                lemma_quadv_injective(vs0, last, qs0[b].quad, qs0[pos].quad);
            }
        }
        if abs_quads(vs0, qs0).remove(gone).contains(x) {
            let a = choose|a: int| 0 <= a < qs0.len() && #[trigger] quadv_of(vs0, qs0[a].quad) == x;
            assert(a != pos);
            let b = if a < pos { a } else { a - 1 };
            assert(q1[b] == qs0[a]);
            assert(quadv_of(vs1, q1[b].quad) == x);
        }
    }
    assert(abs_quads(vs1, q1) =~= abs_quads(vs0, qs0).remove(gone));
}

/// The quad with no values.
/// The number of additions in a batch of changes.
pub open spec fn add_count(ds: Seq<Delta>) -> nat
    decreases ds.len(),
{
    if ds.len() == 0 {
        0
    } else {
        add_count(ds.drop_last()) + if ds.last().action is Add { 1nat } else { 0nat }
    }
}

/// A prefix of a batch has at most its additions.
pub proof fn lemma_add_count_prefix(ds: Seq<Delta>, i: int)
    requires
        0 <= i <= ds.len(),
    ensures
        add_count(ds.take(i)) <= add_count(ds),
    decreases ds.len() - i,
{
    if i < ds.len() {
        lemma_add_count_prefix(ds, i + 1);
        assert(ds.take(i + 1).drop_last() =~= ds.take(i));
    } else {
        assert(ds.take(i) =~= ds);
    }
}

pub open spec fn blank_quad() -> QuadV {
    QuadV {
        subject: ValueV::Undefined,
        predicate: ValueV::Undefined,
        object: ValueV::Undefined,
        label: ValueV::Undefined,
    }
}

pub proof fn lemma_resolve_read_back(vs: Seq<ValueEntry>, last: i64, q: QuadV, p: InternalQuad)
    requires
        val_ids_ok(vs, last),
        vals_distinct(vs),
        spec_resolve(vs, q) == Some(p),
    ensures
        quadv_of(vs, p) == q,
        corners_resolved(vs, p),
{
    lemma_name_zero(vs, last);
    assert forall|j: int| 0 <= j < 4 implies #[trigger] corner_ok(vs, p, q, j) by {
        lemma_resolve_corner(vs, q, p, j);
        let v = quad_get(q, dir_at(j));
        if !(v is Undefined) {
            let w = choose|w: int| 0 <= w < vs.len() && #[trigger] vs[w].value@ == v;
            lemma_val_id_at(vs, w);
        }
    }
    lemma_corners_read_back(vs, last, p, q);
}

pub proof fn lemma_read_back_resolve(vs: Seq<ValueEntry>, last: i64, p: InternalQuad)
    requires
        val_ids_ok(vs, last),
        vals_distinct(vs),
        corners_resolved(vs, p),
    ensures
        spec_resolve(vs, quadv_of(vs, p)) == Some(p),
{
    lemma_name_zero(vs, last);
    let q = quadv_of(vs, p);
    assert forall|j: int| 0 <= j < 4 implies #[trigger] corner_ok(vs, p, q, j) by {
        let c = p.spec_dir(dir_at(j));
        assert(p.spec_dir(dir_at(0)) == p.s && quad_get(q, dir_at(0)) == name(vs, p.s));
        assert(p.spec_dir(dir_at(1)) == p.p && quad_get(q, dir_at(1)) == name(vs, p.p));
        assert(p.spec_dir(dir_at(2)) == p.o && quad_get(q, dir_at(2)) == name(vs, p.o));
        assert(p.spec_dir(dir_at(3)) == p.l && quad_get(q, dir_at(3)) == name(vs, p.l));
        assert(quad_get(q, dir_at(j)) == name(vs, c));
        if c != 0 {
            let w = choose|w: int| 0 <= w < vs.len() && #[trigger] vs[w].id == c;
            lemma_name_at(vs, last, w);
        }
    }
    lemma_corners_read_back(vs, last, p, q);
}

/// The quads left after a batch of changes: each delta adds or deletes its
/// quad, in order.
pub open spec fn apply_abs(s: Set<QuadV>, ds: Seq<Delta>) -> Set<QuadV>
    decreases ds.len(),
{
    if ds.len() == 0 {
        s
    } else {
        let before = apply_abs(s, ds.drop_last());
        match ds.last().action {
            Procedure::Add => before.insert(ds.last().quad@),
            Procedure::Delete => before.remove(ds.last().quad@),
        }
    }
}

/// The error a batch is refused with, if any: the first delta that adds a
/// quad the store holds (unless duplicates are ignored) or deletes one it
/// lacks (unless missing quads are ignored).
pub open spec fn check_error(st: InternalMemStore, ds: Seq<Delta>, ignore_dup: bool, ignore_missing: bool) -> Option<Seq<char>>
    decreases ds.len(),
{
    if ds.len() == 0 {
        None
    } else {
        let d = ds[0];
        let found = st.spec_find_quad(d.quad@) is Some;
        match d.action {
            Procedure::Add => if !ignore_dup && found {
                Some(err_quad_exists())
            } else {
                check_error(st, ds.drop_first(), ignore_dup, ignore_missing)
            },
            Procedure::Delete => if !ignore_missing && !found {
                Some(err_quad_not_exist())
            } else {
                check_error(st, ds.drop_first(), ignore_dup, ignore_missing)
            },
        }
    }
}

pub open spec fn err_quad_exists() -> Seq<char> {
    "ErrQuadExists"@
}

pub open spec fn err_quad_not_exist() -> Seq<char> {
    "ErrQuadNotExist"@
}

pub open spec fn err_store_full() -> Seq<char> {
    "ErrStoreFull"@
}

pub proof fn lemma_check_ignored(st: InternalMemStore, ds: Seq<Delta>)
    ensures
        check_error(st, ds, true, true) is None,
    decreases ds.len(),
{
    if ds.len() > 0 {
        lemma_check_ignored(st, ds.drop_first());
    }
}

/// The ids of the stored quads that have the id `v` at corner `d`.
pub open spec fn quads_holding(qs: Seq<QuadEntry>, d: Direction, v: i64) -> Set<i64> {
    Set::new(|id: i64| d != Direction::Any && exists|a: int| 0 <= a < qs.len() && #[trigger] qs[a].id == id
        && qs[a].quad.spec_dir(d) == v)
}

pub proof fn lemma_index_lookup(qs: Seq<QuadEntry>, d: Direction, v: i64)
    ensures
        quads_at(index_keys(qs), d, v) == quads_holding(qs, d, v),
{
    assert forall|id: i64| #[trigger] quads_at(index_keys(qs), d, v).contains(id) <==> quads_holding(qs, d, v).contains(id) by {
        let key = spec_key(v, d, id);
        if index_keys(qs).contains(key) {
            let (a, k) = choose|a: int, k: int| 0 <= a < qs.len() && 0 <= k < 4
                && key == #[trigger] spec_key(qs[a].quad.spec_dir(dir_at(k)), dir_at(k), qs[a].id);
            assert(dir_byte(d) == dir_byte(dir_at(k)));
            assert(d == dir_at(k));
            assert(qs[a].id == id);
        }
        if quads_holding(qs, d, v).contains(id) {
            let a = choose|a: int| 0 <= a < qs.len() && #[trigger] qs[a].id == id && qs[a].quad.spec_dir(d) == v;
            let k = if d == Direction::Subject { 0int } else if d == Direction::Predicate { 1int }
                else if d == Direction::Object { 2int } else { 3int };
            assert(dir_at(k) == d);
            assert(key == spec_key(qs[a].quad.spec_dir(dir_at(k)), dir_at(k), qs[a].id));
        }
    }
    assert(quads_at(index_keys(qs), d, v) =~= quads_holding(qs, d, v));
}

/// The contents of a store.
pub struct InternalMemStore {
    pub vals: Vec<ValueEntry>,
    pub quads: Vec<QuadEntry>,
    pub index: QuadDirectionIndex,
    pub last: i64,
    pub horizon: i64,
}

impl InternalMemStore {
    /// Everything but the reference counts is consistent.
    pub open spec fn wf_core(&self) -> bool {
        &&& 0 <= self.last
        &&& val_ids_ok(self.vals@, self.last)
        &&& quad_ids_ok(self.quads@, self.last)
        &&& vals_distinct(self.vals@)
        &&& quads_distinct(self.quads@)
        &&& ids_disjoint(self.vals@, self.quads@)
        &&& quads_resolved(self.vals@, self.quads@)
        &&& self.index.wf()
        &&& self.index@ == index_keys(self.quads@)
        &&& self.quads@.len() <= MAX_QUADS
    }

    /// The store is consistent: each value also counts the corners that
    /// hold it.
    pub open spec fn wf(&self) -> bool {
        &&& self.wf_core()
        &&& refs_counted(self.vals@, self.quads@, empty_quad(), 0, 0)
    }

    /// The quads of the store, as values.
    pub open spec fn quad_set(&self) -> Set<QuadV> {
        abs_quads(self.vals@, self.quads@)
    }

    /// The id of the stored quad with the values of `q`, if any.
    pub open spec fn spec_find_quad(&self, q: QuadV) -> Option<i64> {
        match spec_resolve(self.vals@, q) {
            Some(p) => quad_id(self.quads@, p),
            None => None,
        }
    }

    pub fn new() -> (r: InternalMemStore)
        ensures
            r.wf(),
            r.quad_set() == Set::<QuadV>::empty(),
            r.last == 0,
            r.vals@.len() == 0,
            r.quads@.len() == 0,
    {
        let r = InternalMemStore {
            vals: Vec::new(),
            quads: Vec::new(),
            index: QuadDirectionIndex::new(),
            last: 0,
            horizon: 0,
        };
        proof {
            assert(index_keys(r.quads@) =~= Set::empty());
            assert(r.quad_set() =~= Set::empty());
        }
        r
    }

    /// The id of the stored value `v`; none for `Undefined` or a value the
    /// store does not hold.
    pub fn find_val(&self, v: &Value) -> (r: Option<i64>)
        requires
            self.wf_core(),
        ensures
            r == (if v@ is Undefined { None } else { val_id(self.vals@, v@) }),
    {
        if v.is_undefined() {
            return None;
        }
        match self.find_val_pos(v) {
            Some(i) => {
                proof {
                    lemma_val_id_at(self.vals@, i as int);
                }
                Some(self.vals[i].id)
            },
            None => None,
        }
    }

    /// The value stored under an id.
    pub fn lookup_val(&self, id: i64) -> (r: Option<Value>)
        requires
            self.wf_core(),
        ensures
            match r {
                Some(v) => has_val_id(self.vals@, id) && v@ == name(self.vals@, id),
                None => !has_val_id(self.vals@, id),
            },
    {
        match self.find_val_by_id(id) {
            Some(i) => {
                proof {
                    lemma_name_at(self.vals@, self.last, i as int);
                }
                Some(self.vals[i].value.copy())
            },
            None => None,
        }
    }

    /// The ids of the values of `q`, zero where it has none; none when the
    /// store lacks one of its values.
    pub fn resolve_quad(&self, q: &Quad) -> (r: Option<InternalQuad>)
        requires
            self.wf_core(),
        ensures
            r == spec_resolve(self.vals@, q@),
    {
        let mut p = InternalQuad::new();
        let mut k: usize = 0;
        while k < 4
            invariant
                k <= 4,
                self.wf_core(),
                forall|j: int| 0 <= j < k ==> rid(self.vals@, #[trigger] quad_get(q@, dir_at(j))) == Some(p.spec_dir(dir_at(j))),
                forall|j: int| k <= j < 4 ==> #[trigger] p.spec_dir(dir_at(j)) == 0,
            decreases 4 - k,
        {
            let d = dir_of_index(k);
            let v = q.get(&d);
            if !v.is_undefined() {
                match self.find_val(v) {
                    Some(id) => p.set_dir(&d, id),
                    None => {
                        proof {
                            assert(rid(self.vals@, quad_get(q@, dir_at(k as int))) is None);
                            assert(k == 0 ==> rid(self.vals@, q@.subject) is None);
                            assert(k == 1 ==> rid(self.vals@, q@.predicate) is None);
                            assert(k == 2 ==> rid(self.vals@, q@.object) is None);
                            assert(k == 3 ==> rid(self.vals@, q@.label) is None);
                        }
                        return None;
                    },
                }
            }
            k = k + 1;
        }
        proof {
            assert(rid(self.vals@, quad_get(q@, dir_at(0))) == Some(p.s));
            assert(rid(self.vals@, quad_get(q@, dir_at(1))) == Some(p.p));
            assert(rid(self.vals@, quad_get(q@, dir_at(2))) == Some(p.o));
            assert(rid(self.vals@, quad_get(q@, dir_at(3))) == Some(p.l));
        }
        Some(p)
    }

    /// The id of the stored quad with the values of `q`.
    pub fn find_quad(&self, q: &Quad) -> (r: Option<i64>)
        requires
            self.wf_core(),
        ensures
            r == self.spec_find_quad(q@),
    {
        match self.resolve_quad(q) {
            Some(p) => match self.find_quad_pos(&p) {
                Some(i) => {
                    proof {
                        lemma_quad_id_at(self.quads@, i as int);
                    }
                    Some(self.quads[i].id)
                },
                None => None,
            },
            None => None,
        }
    }

    /// The quad of ids stored under the key of a reference.
    pub fn internal_quad(&self, r: &Ref) -> (res: Option<InternalQuad>)
        requires
            self.wf_core(),
        ensures
            res == (match key_id(r@) {
                Some(i) => quad_by_id(self.quads@, i),
                None => None,
            }),
    {
        let id = match r.key() {
            Some(k) => k.as_i64(),
            None => None,
        };
        match id {
            Some(i) => match self.find_quad_by_id(i) {
                Some(pos) => {
                    proof {
                        lemma_quad_by_id_at(self.quads@, self.last, pos as int);
                    }
                    Some(self.quads[pos].quad)
                },
                None => None,
            },
            None => None,
        }
    }

    /// A quad of ids read back as values.
    pub fn lookup_quad_dirs(&self, p: &InternalQuad) -> (r: Quad)
        requires
            self.wf_core(),
        ensures
            r@ == quadv_of(self.vals@, *p),
    {
        let mut q = Quad::new_undefined_vals();
        let mut k: usize = 0;
        while k < 4
            invariant
                k <= 4,
                self.wf_core(),
                forall|j: int| 0 <= j < k ==> #[trigger] quad_get(q@, dir_at(j)) == name(self.vals@, p.spec_dir(dir_at(j))),
                forall|j: int| k <= j < 4 ==> #[trigger] quad_get(q@, dir_at(j)) == ValueV::Undefined,
            decreases 4 - k,
        {
            let d = dir_of_index(k);
            let vid = p.dir(&d);
            if vid != 0 {
                match self.lookup_val(vid) {
                    Some(v) => q.set_val(&d, v),
                    None => {},
                }
            } else {
                proof {
                    assert(!has_val_id(self.vals@, 0)) by {
                        if has_val_id(self.vals@, 0) {
                            let j = choose|j: int| 0 <= j < self.vals@.len() && #[trigger] self.vals@[j].id == 0;
                            assert(1 <= self.vals@[j].id);
                        }
                    }
                }
            }
            k = k + 1;
        }
        proof {
            assert(quad_get(q@, dir_at(0)) == name(self.vals@, p.s));
            assert(quad_get(q@, dir_at(1)) == name(self.vals@, p.p));
            assert(quad_get(q@, dir_at(2)) == name(self.vals@, p.o));
            assert(quad_get(q@, dir_at(3)) == name(self.vals@, p.l));
        }
        q
    }

    /// The id of the value `v`, which is added (with a count of one) when the
    /// store lacks it, and otherwise counted once more.
    pub fn resolve_val(&mut self, v: &Value) -> (r: i64)
        requires
            old(self).wf_core(),
            !(v@ is Undefined),
            old(self).last < i64::MAX,
            forall|j: int| 0 <= j < old(self).vals@.len() && #[trigger] old(self).vals@[j].value@ == v@
                ==> old(self).vals@[j].refs < i32::MAX,
        ensures
            final(self).wf_core(),
            final(self).quads@ == old(self).quads@,
            final(self).index == old(self).index,
            final(self).horizon == old(self).horizon,
            forall|j: int| 0 <= j < old(self).vals@.len() && #[trigger] old(self).vals@[j].value@ == v@ ==> {
                &&& r == old(self).vals@[j].id
                &&& final(self).last == old(self).last
                &&& final(self).vals@ == old(self).vals@.update(j, ValueEntry {
                    id: old(self).vals@[j].id,
                    refs: (old(self).vals@[j].refs + 1) as i32,
                    value: old(self).vals@[j].value,
                })
            },
            (forall|j: int| 0 <= j < old(self).vals@.len() ==> #[trigger] old(self).vals@[j].value@ != v@) ==> {
                &&& r == old(self).last + 1
                &&& final(self).last == r
                &&& final(self).vals@.len() == old(self).vals@.len() + 1
                &&& final(self).vals@.drop_last() == old(self).vals@
                &&& final(self).vals@.last().id == r
                &&& final(self).vals@.last().refs == 1
                &&& final(self).vals@.last().value@ == v@
            },
    {
        match self.find_val_pos(v) {
            Some(i) => {
                let ghost j0 = i as int;
                let n = self.vals[i].refs + 1;
                self.vals[i].refs = n;
                proof {
                    assert forall|j: int| 0 <= j < old(self).vals@.len() && #[trigger] old(self).vals@[j].value@ == v@
                        implies j == j0 by {}
                    assert(self.vals@ =~= old(self).vals@.update(j0, ValueEntry {
                        id: old(self).vals@[j0].id,
                        refs: (old(self).vals@[j0].refs + 1) as i32,
                        value: old(self).vals@[j0].value,
                    }));
                    assert forall|a: int, k: int| 0 <= a < self.quads@.len() && 0 <= k < 4 implies (#[trigger] self.quads@[a].quad.spec_dir(dir_at(k)) == 0
                        || has_val_id(self.vals@, self.quads@[a].quad.spec_dir(dir_at(k)))) by {
                        let c = self.quads@[a].quad.spec_dir(dir_at(k));
                        if c != 0 {
                            assert(has_val_id(old(self).vals@, c));
                            let w = choose|w: int| 0 <= w < old(self).vals@.len() && #[trigger] old(self).vals@[w].id == c;
                            assert(self.vals@[w].id == c);
                        }
                    }
                }
                self.vals[i].id
            },
            None => {
                self.last = self.last + 1;
                let id = self.last;
                self.vals.push(ValueEntry { id, refs: 1, value: v.copy() });
                proof {
                    let o = old(self).vals@;
                    assert(self.vals@.drop_last() =~= o);
                    assert forall|a: int, k: int| 0 <= a < self.quads@.len() && 0 <= k < 4 implies (#[trigger] self.quads@[a].quad.spec_dir(dir_at(k)) == 0
                        || has_val_id(self.vals@, self.quads@[a].quad.spec_dir(dir_at(k)))) by {
                        let c = self.quads@[a].quad.spec_dir(dir_at(k));
                        if c != 0 {
                            assert(has_val_id(o, c));
                            let w = choose|w: int| 0 <= w < o.len() && #[trigger] o[w].id == c;
                            assert(self.vals@[w].id == c);
                        }
                    }
                    assert forall|a: int, b: int| 0 <= a < self.vals@.len() && 0 <= b < self.vals@.len() && a != b
                        implies #[trigger] self.vals@[a].value@ != #[trigger] self.vals@[b].value@ by {
                        if a < o.len() && b < o.len() {
                            assert(self.vals@[a] == o[a] && self.vals@[b] == o[b]);
                        }
                    }
                    assert forall|a: int, b: int| 0 <= a < b < self.vals@.len()
                        implies #[trigger] self.vals@[a].id < #[trigger] self.vals@[b].id by {
                        assert(self.vals@[a] == o[a]);
                        if b < o.len() {
                            assert(self.vals@[b] == o[b]);
                        }
                    }
                    assert forall|a: int, b: int| 0 <= a < self.vals@.len() && 0 <= b < self.quads@.len()
                        implies #[trigger] self.vals@[a].id != #[trigger] self.quads@[b].id by {
                        if a < o.len() {
                            assert(self.vals@[a] == o[a]);
                        }
                    }
                }
                id
            },
        }
    }

    /// Adds a quad unless the store holds it: the missing values get new ids
    /// (counted once), the values it has already are counted once more, and
    /// the quad gets the next id. Returns the id of the quad; none when the
    /// store is full.
    ///
    /// The store is first probed with the ids of the values of `q` (or, when
    /// it lacks one of them, with the quad of no values): a stored quad found
    /// that way is taken as `q`.
    #[verifier::rlimit(60)]
    pub fn add_quad(&mut self, q: &Quad) -> (r: Option<i64>)
        requires
            old(self).wf(),
        ensures
            final(self).wf(),
            ({
                let p0 = match spec_resolve(old(self).vals@, q@) {
                    Some(p) => p,
                    None => empty_quad(),
                };
                if quad_id(old(self).quads@, p0) is Some {
                    r == quad_id(old(self).quads@, p0) && *final(self) == *old(self)
                } else if old(self).quads@.len() >= MAX_QUADS || old(self).last > i64::MAX - 5 {
                    r is None && *final(self) == *old(self)
                } else {
                    &&& r == Some(final(self).last)
                    &&& final(self).spec_find_quad(q@) == r
                    &&& final(self).quad_set() == old(self).quad_set().insert(q@)
                    &&& final(self).horizon == old(self).horizon
                    &&& final(self).quads@.len() == old(self).quads@.len() + 1
                    &&& final(self).last <= old(self).last + 5
                }
            }),
    {
        let probe = match self.resolve_quad(q) {
            Some(p) => p,
            None => InternalQuad::new(),
        };
        match self.find_quad_pos(&probe) {
            Some(i) => {
                proof {
                    lemma_quad_id_at(self.quads@, i as int);
                }
                return Some(self.quads[i].id);
            },
            None => {},
        }
        if self.quads.len() >= MAX_QUADS || self.last > i64::MAX - 5 {
            return None;
        }
        let mut p = InternalQuad::new();
        let mut k: usize = 0;
        while k < 4
            invariant
                k <= 4,
                self.wf_core(),
                self.quads@ == old(self).quads@,
                self.horizon == old(self).horizon,
                self.quads@.len() < MAX_QUADS,
                old(self).last <= self.last <= old(self).last + k,
                old(self).last <= i64::MAX - 5,
                vals_extend(old(self).vals@, self.vals@),
                forall|w: int| old(self).vals@.len() <= w < self.vals@.len() ==> #[trigger] self.vals@[w].id > old(self).last,
                refs_counted(self.vals@, self.quads@, p, 0, k as int),
                forall|j: int| 0 <= j < k ==> #[trigger] corner_ok(self.vals@, p, q@, j),
                forall|j: int| k <= j < 4 ==> #[trigger] p.spec_dir(dir_at(j)) == 0,
            decreases 4 - k,
        {
            let d = dir_of_index(k);
            let v = q.get(&d);
            if !v.is_undefined() {
                proof {
                    assert forall|j: int| 0 <= j < self.vals@.len() && #[trigger] self.vals@[j].value@ == v@
                        implies self.vals@[j].refs < i32::MAX by {
                        lemma_occ_bound(self.quads@, self.vals@[j].id);
                        assert(self.vals@[j].refs == occ(self.quads@, self.vals@[j].id) + cnt(p, 0, k as int, self.vals@[j].id));
                    }
                }
                let ghost vs0 = self.vals@;
                let ghost p_before = p;
                let id = self.resolve_val(v);
                p.set_dir(&d, id);
                proof {
                    let vs1 = self.vals@;
                    let kk = k as int;
                    assert(p_before.spec_dir(dir_at(kk)) == 0);
                    assert forall|j: int| 0 <= j < 4 && j != kk implies #[trigger] p.spec_dir(dir_at(j)) == p_before.spec_dir(dir_at(j)) by {
                        assert(dir_at(j) != dir_at(kk));
                    }
                    assert(p.spec_dir(dir_at(kk)) == id);
                    if exists|j: int| 0 <= j < vs0.len() && #[trigger] vs0[j].value@ == v@ {
                        let j0 = choose|j: int| 0 <= j < vs0.len() && #[trigger] vs0[j].value@ == v@;
                        assert(vs1[j0].value@ == v@ && vs1[j0].id == id);
                        assert forall|i: int| 0 <= i < vs1.len() implies #[trigger] vs1[i].refs == occ(self.quads@, vs1[i].id) + cnt(p, 0, kk + 1, vs1[i].id) by {
                            assert(vs0[i].refs == occ(self.quads@, vs0[i].id) + cnt(p_before, 0, kk, vs0[i].id));
                            if i != j0 {
                                assert(vs0[i].id != vs0[j0].id) by {
                                    if i < j0 {
                                        assert(vs0[i].id < vs0[j0].id);
                                    } else {
                                        assert(vs0[j0].id < vs0[i].id);
                                    }
                                }
                            }
                        }
                        assert forall|j: int| 0 <= j < kk + 1 implies #[trigger] corner_ok(vs1, p, q@, j) by {
                            if j == kk {
                                assert(vs1[j0].id == p.spec_dir(dir_at(j)));
                            } else {
                                assert(corner_ok(vs0, p_before, q@, j));
                                if !(quad_get(q@, dir_at(j)) is Undefined) {
                                    let w = choose|w: int| 0 <= w < vs0.len() && #[trigger] vs0[w].id == p_before.spec_dir(dir_at(j)) && vs0[w].value@ == quad_get(q@, dir_at(j));
                                    assert(vs1[w].id == vs0[w].id && vs1[w].value@ == vs0[w].value@);
                                }
                            }
                        }
                        assert(vals_extend(old(self).vals@, vs1)) by {
                            assert forall|i: int| 0 <= i < old(self).vals@.len() implies #[trigger] vs1[i].id == old(self).vals@[i].id
                                && vs1[i].value@ == old(self).vals@[i].value@ by {
                                assert(vs0[i].id == old(self).vals@[i].id);
                            }
                        }
                        assert forall|w: int| old(self).vals@.len() <= w < vs1.len() implies #[trigger] vs1[w].id > old(self).last by {
                            assert(vs0[w].id > old(self).last);
                        }
                    } else {
                        let n = vs0.len() as int;
                        assert(vs1[n].id == id && id == self.last);
                        assert forall|a: int, c: int| 0 <= a < self.quads@.len() && 0 <= c < 4
                            implies #[trigger] self.quads@[a].quad.spec_dir(dir_at(c)) != id by {
                            let x = self.quads@[a].quad.spec_dir(dir_at(c));
                            if x != 0 {
                                assert(has_val_id(vs0, x));
                                let w = choose|w: int| 0 <= w < vs0.len() && #[trigger] vs0[w].id == x;
                                assert(vs0[w].id < id);
                            }
                        }
                        lemma_occ_zero(self.quads@, id);
                        assert forall|j: int| 0 <= j < kk implies #[trigger] p_before.spec_dir(dir_at(j)) != id by {
                            assert(corner_ok(vs0, p_before, q@, j));
                            if !(quad_get(q@, dir_at(j)) is Undefined) {
                                let w = choose|w: int| 0 <= w < vs0.len() && #[trigger] vs0[w].id == p_before.spec_dir(dir_at(j)) && vs0[w].value@ == quad_get(q@, dir_at(j));
                                assert(vs0[w].id < id);
                            }
                        }
                        assert forall|i: int| 0 <= i < vs1.len() implies #[trigger] vs1[i].refs == occ(self.quads@, vs1[i].id) + cnt(p, 0, kk + 1, vs1[i].id) by {
                            if i < n {
                                assert(vs1[i] == vs0[i]);
                                assert(vs0[i].refs == occ(self.quads@, vs0[i].id) + cnt(p_before, 0, kk, vs0[i].id));
                                assert(vs0[i].id < id);
                            }
                        }
                        assert forall|j: int| 0 <= j < kk + 1 implies #[trigger] corner_ok(vs1, p, q@, j) by {
                            if j == kk {
                                assert(vs1[n].id == p.spec_dir(dir_at(j)));
                            } else {
                                assert(corner_ok(vs0, p_before, q@, j));
                                if !(quad_get(q@, dir_at(j)) is Undefined) {
                                    let w = choose|w: int| 0 <= w < vs0.len() && #[trigger] vs0[w].id == p_before.spec_dir(dir_at(j)) && vs0[w].value@ == quad_get(q@, dir_at(j));
                                    assert(vs1[w] == vs0[w]);
                                }
                            }
                        }
                        assert(vals_extend(old(self).vals@, vs1)) by {
                            assert forall|i: int| 0 <= i < old(self).vals@.len() implies #[trigger] vs1[i].id == old(self).vals@[i].id
                                && vs1[i].value@ == old(self).vals@[i].value@ by {
                                assert(vs1[i] == vs0[i]);
                            }
                        }
                        assert forall|w: int| old(self).vals@.len() <= w < vs1.len() implies #[trigger] vs1[w].id > old(self).last by {
                            if w < n {
                                assert(vs1[w] == vs0[w]);
                            }
                        }
                    }
                }
            } else {
                proof {
                    assert forall|j: int| 0 <= j < k + 1 implies #[trigger] corner_ok(self.vals@, p, q@, j) by {
                        if j < k {
                            assert(corner_ok(self.vals@, p, q@, j));
                        }
                    }
                    assert forall|i: int| 0 <= i < self.vals@.len() implies #[trigger] self.vals@[i].refs == occ(self.quads@, self.vals@[i].id) + cnt(p, 0, k + 1, self.vals@[i].id) by {
                        assert(self.vals@[i].refs == occ(self.quads@, self.vals@[i].id) + cnt(p, 0, k as int, self.vals@[i].id));
                        assert(1 <= self.vals@[i].id);
                    }
                }
            }
            k = k + 1;
        }
        self.last = self.last + 1;
        let id = self.last;
        let e = QuadEntry { id, quad: p };
        index_quad(&mut self.index, &e);
        let ghost qs0 = self.quads@;
        self.quads.push(e);
        proof {
            let vs = self.vals@;
            let qs1 = self.quads@;
            let ov = old(self).vals@;
            assert(qs1 =~= qs0.push(e));
            lemma_corners_read_back(vs, self.last, p, q@);
            lemma_new_quad_fresh(ov, vs, qs0, p, q@, probe, old(self).last, self.last);
            lemma_push_quad(vs, qs0, e, self.last);
            lemma_index_keys_push(qs0, e);
            lemma_quad_id_at(qs1, qs0.len() as int);
            lemma_add_abs(ov, vs, qs0, e, q@, self.last);
        }
        Some(id)
    }

    /// Counts each corner of a deleted quad `q` once less on its value, and
    /// deletes the values no longer counted.
    #[verifier::rlimit(40)]
    pub fn delete_quad_nodes(&mut self, q: &InternalQuad)
        requires
            old(self).wf_core(),
            refs_counted(old(self).vals@, old(self).quads@, *q, 0, 4),
            corners_resolved(old(self).vals@, *q),
        ensures
            final(self).wf(),
            final(self).quads@ == old(self).quads@,
            final(self).last == old(self).last,
            final(self).horizon == old(self).horizon,
            vals_sub(old(self).vals@, final(self).vals@),
    {
        proof {
            let vs = self.vals@;
            assert forall|i: int| 0 <= i < vs.len() implies #[trigger] has_entry(vs, vs[i].id, vs[i].value@) by {
                assert(vs[i].id == vs[i].id);
            }
        }
        let mut k: usize = 0;
        while k < 4
            invariant
                k <= 4,
                self.wf_core(),
                self.quads@ == old(self).quads@,
                self.last == old(self).last,
                self.horizon == old(self).horizon,
                refs_counted(self.vals@, self.quads@, *q, k as int, 4),
                forall|j: int| k <= j < 4 ==> (#[trigger] q.spec_dir(dir_at(j)) == 0 || has_val_id(self.vals@, q.spec_dir(dir_at(j)))),
                vals_sub(old(self).vals@, self.vals@),
            decreases 4 - k,
        {
            let d = dir_of_index(k);
            let id = q.dir(&d);
            let ghost kk = k as int;
            if id != 0 {
                match self.find_val_by_id(id) {
                    Some(i) => {
                        let ghost vs0 = self.vals@;
                        let ghost ii = i as int;
                        proof {
                            assert(vs0[ii].refs == occ(self.quads@, id) + cnt(*q, kk, 4, id));
                        }
                        let n = self.vals[i].refs - 1;
                        if n == 0 {
                            self.vals.remove(i);
                            proof {
                                let vs1 = self.vals@;
                                assert(occ(self.quads@, id) == 0);
                                assert forall|m: int, c: int| 0 <= m < self.quads@.len() && 0 <= c < 4
                                    implies #[trigger] self.quads@[m].quad.spec_dir(dir_at(c)) != id by {
                                    lemma_occ_ge(self.quads@, m, id);
                                }
                                assert forall|a: int| 0 <= a < vs1.len() implies #[trigger] vs1[a] == vs0[if a < ii { a } else { a + 1 }] by {}
                                assert forall|a: int, b: int| 0 <= a < b < vs1.len() implies #[trigger] vs1[a].id < #[trigger] vs1[b].id by {
                                    assert(vs1[a] == vs0[if a < ii { a } else { a + 1 }]);
                                    assert(vs1[b] == vs0[if b < ii { b } else { b + 1 }]);
                                }
                                assert forall|a: int| 0 <= a < vs1.len() implies 1 <= #[trigger] vs1[a].id <= self.last by {
                                    assert(vs1[a] == vs0[if a < ii { a } else { a + 1 }]);
                                }
                                assert forall|a: int, b: int| 0 <= a < vs1.len() && 0 <= b < vs1.len() && a != b
                                    implies #[trigger] vs1[a].value@ != #[trigger] vs1[b].value@ by {
                                    assert(vs1[a] == vs0[if a < ii { a } else { a + 1 }]);
                                    assert(vs1[b] == vs0[if b < ii { b } else { b + 1 }]);
                                }
                                assert forall|a: int| 0 <= a < vs1.len() implies !(#[trigger] vs1[a].value@ is Undefined) by {
                                    assert(vs1[a] == vs0[if a < ii { a } else { a + 1 }]);
                                }
                                assert forall|a: int, b: int| 0 <= a < vs1.len() && 0 <= b < self.quads@.len()
                                    implies #[trigger] vs1[a].id != #[trigger] self.quads@[b].id by {
                                    assert(vs1[a] == vs0[if a < ii { a } else { a + 1 }]);
                                }
                                assert forall|m: int, c: int| 0 <= m < self.quads@.len() && 0 <= c < 4 implies (#[trigger] self.quads@[m].quad.spec_dir(dir_at(c)) == 0
                                    || has_val_id(vs1, self.quads@[m].quad.spec_dir(dir_at(c)))) by {
                                    let x = self.quads@[m].quad.spec_dir(dir_at(c));
                                    if x != 0 {
                                        assert(has_val_id(vs0, x));
                                        let w = choose|w: int| 0 <= w < vs0.len() && #[trigger] vs0[w].id == x;
                                        assert(w != ii);
                                        assert(vs1[if w < ii { w } else { w - 1 }] == vs0[w]);
                                    }
                                }
                                assert forall|a: int| 0 <= a < vs1.len() implies #[trigger] vs1[a].refs == occ(self.quads@, vs1[a].id) + cnt(*q, kk + 1, 4, vs1[a].id) by {
                                    let b = if a < ii { a } else { a + 1 };
                                    assert(vs1[a] == vs0[b]);
                                    assert(vs0[b].refs == occ(self.quads@, vs0[b].id) + cnt(*q, kk, 4, vs0[b].id));
                                    assert(vs0[b].id != id) by {
                                        if b < ii {
                                            assert(vs0[b].id < vs0[ii].id);
                                        } else {
                                            assert(vs0[ii].id < vs0[b].id);
                                        }
                                    }
                                }
                                assert forall|j: int| kk + 1 <= j < 4 implies (#[trigger] q.spec_dir(dir_at(j)) == 0 || has_val_id(vs1, q.spec_dir(dir_at(j)))) by {
                                    let x = q.spec_dir(dir_at(j));
                                    if x != 0 {
                                        assert(x != id);
                                        assert(has_val_id(vs0, x));
                                        let w = choose|w: int| 0 <= w < vs0.len() && #[trigger] vs0[w].id == x;
                                        assert(w != ii);
                                        assert(vs1[if w < ii { w } else { w - 1 }] == vs0[w]);
                                    }
                                }
                                assert forall|a: int| 0 <= a < vs1.len() implies #[trigger] has_entry(old(self).vals@, vs1[a].id, vs1[a].value@) by {
                                    let b = if a < ii { a } else { a + 1 };
                                    assert(vs1[a] == vs0[b]);
                                    assert(has_entry(old(self).vals@, vs0[b].id, vs0[b].value@));
                                }
                            }
                        } else {
                            self.vals.set(i, ValueEntry { id: self.vals[i].id, refs: n, value: self.vals[i].value.copy() });
                            proof {
                                let vs1 = self.vals@;
                                assert forall|a: int| 0 <= a < vs1.len() && a != ii implies #[trigger] vs1[a] == vs0[a] by {}
                                assert forall|a: int, b: int| 0 <= a < b < vs1.len() implies #[trigger] vs1[a].id < #[trigger] vs1[b].id by {
                                    assert(vs1[a].id == vs0[a].id && vs1[b].id == vs0[b].id);
                                }
                                assert forall|a: int| 0 <= a < vs1.len() implies 1 <= #[trigger] vs1[a].id <= self.last by {
                                    assert(vs1[a].id == vs0[a].id);
                                }
                                assert forall|a: int, b: int| 0 <= a < vs1.len() && 0 <= b < vs1.len() && a != b
                                    implies #[trigger] vs1[a].value@ != #[trigger] vs1[b].value@ by {
                                    assert(vs1[a].value@ == vs0[a].value@ && vs1[b].value@ == vs0[b].value@);
                                }
                                assert forall|a: int| 0 <= a < vs1.len() implies !(#[trigger] vs1[a].value@ is Undefined) by {
                                    assert(vs1[a].value@ == vs0[a].value@);
                                }
                                assert forall|a: int, b: int| 0 <= a < vs1.len() && 0 <= b < self.quads@.len()
                                    implies #[trigger] vs1[a].id != #[trigger] self.quads@[b].id by {
                                    assert(vs1[a].id == vs0[a].id);
                                }
                                assert forall|m: int, c: int| 0 <= m < self.quads@.len() && 0 <= c < 4 implies (#[trigger] self.quads@[m].quad.spec_dir(dir_at(c)) == 0
                                    || has_val_id(vs1, self.quads@[m].quad.spec_dir(dir_at(c)))) by {
                                    let x = self.quads@[m].quad.spec_dir(dir_at(c));
                                    if x != 0 {
                                        assert(has_val_id(vs0, x));
                                        let w = choose|w: int| 0 <= w < vs0.len() && #[trigger] vs0[w].id == x;
                                        assert(vs1[w].id == vs0[w].id);
                                    }
                                }
                                assert forall|a: int| 0 <= a < vs1.len() implies #[trigger] vs1[a].refs == occ(self.quads@, vs1[a].id) + cnt(*q, kk + 1, 4, vs1[a].id) by {
                                    assert(vs0[a].refs == occ(self.quads@, vs0[a].id) + cnt(*q, kk, 4, vs0[a].id));
                                    if a != ii {
                                        assert(vs0[a].id != id) by {
                                            if a < ii {
                                                assert(vs0[a].id < vs0[ii].id);
                                            } else {
                                                assert(vs0[ii].id < vs0[a].id);
                                            }
                                        }
                                    }
                                }
                                assert forall|j: int| kk + 1 <= j < 4 implies (#[trigger] q.spec_dir(dir_at(j)) == 0 || has_val_id(vs1, q.spec_dir(dir_at(j)))) by {
                                    let x = q.spec_dir(dir_at(j));
                                    if x != 0 {
                                        assert(has_val_id(vs0, x));
                                        let w = choose|w: int| 0 <= w < vs0.len() && #[trigger] vs0[w].id == x;
                                        assert(vs1[w].id == vs0[w].id);
                                    }
                                }
                                assert forall|a: int| 0 <= a < vs1.len() implies #[trigger] has_entry(old(self).vals@, vs1[a].id, vs1[a].value@) by {
                                    assert(vs1[a].id == vs0[a].id && vs1[a].value@ == vs0[a].value@);
                                    assert(has_entry(old(self).vals@, vs0[a].id, vs0[a].value@));
                                }
                            }
                        }
                    },
                    None => {
                        proof {
                            assert(false);
                        }
                    },
                }
            } else {
                proof {
                    assert forall|a: int| 0 <= a < self.vals@.len() implies #[trigger] self.vals@[a].refs == occ(self.quads@, self.vals@[a].id) + cnt(*q, kk + 1, 4, self.vals@[a].id) by {
                        assert(self.vals@[a].refs == occ(self.quads@, self.vals@[a].id) + cnt(*q, kk, 4, self.vals@[a].id));
                        assert(1 <= self.vals@[a].id);
                    }
                }
            }
            k = k + 1;
        }
    }

    /// Deletes the quad with id `id` and the values only it held; false when
    /// no quad has the id.
    pub fn delete(&mut self, id: i64) -> (r: bool)
        requires
            old(self).wf(),
        ensures
            final(self).wf(),
            r == has_quad_id(old(self).quads@, id),
            r ==> final(self).quad_set() == old(self).quad_set().remove(
                quadv_of(old(self).vals@, quad_by_id(old(self).quads@, id).unwrap())),
            r ==> final(self).last == old(self).last && final(self).horizon == old(self).horizon,
            r ==> final(self).quads@.len() == old(self).quads@.len() - 1,
            !r ==> *final(self) == *old(self),
    {
        match self.find_quad_by_id(id) {
            None => false,
            Some(pos) => {
                let e = self.quads[pos];
                let ghost qs0 = self.quads@;
                let ghost vs0 = self.vals@;
                proof {
                    lemma_quad_by_id_at(qs0, self.last, pos as int);
                    lemma_remove_quad(vs0, qs0, self.last, pos as int);
                    lemma_index_keys_remove(qs0, self.last, pos as int);
                }
                unindex_quad(&mut self.index, &e);
                self.quads.remove(pos);
                self.delete_quad_nodes(&e.quad);
                proof {
                    let vs1 = self.vals@;
                    let qs1 = self.quads@;
                    assert(qs1 =~= qs0.remove(pos as int));
                    lemma_delete_abs(vs0, vs1, qs0, pos as int, self.last);
                }
                true
            },
        }
    }

    /// A quad is found by its values exactly when the store holds it, and
    /// the id found is that of a quad with those values.
    pub proof fn lemma_find_in_set(&self, q: QuadV)
        requires
            self.wf(),
        ensures
            self.spec_find_quad(q) is Some <==> self.quad_set().contains(q),
            self.spec_find_quad(q) matches Some(id) ==> quad_by_id(self.quads@, id) matches Some(p)
                && quadv_of(self.vals@, p) == q,
    {
        let vs = self.vals@;
        let qs = self.quads@;
        if self.quad_set().contains(q) {
            let a = choose|a: int| 0 <= a < qs.len() && #[trigger] quadv_of(vs, qs[a].quad) == q;
            assert(corners_resolved(vs, qs[a].quad)) by {
                assert forall|c: int| 0 <= c < 4 implies (#[trigger] qs[a].quad.spec_dir(dir_at(c)) == 0
                    || has_val_id(vs, qs[a].quad.spec_dir(dir_at(c)))) by {}
            }
            lemma_read_back_resolve(vs, self.last, qs[a].quad);
            lemma_quad_id_at(qs, a);
        }
        match spec_resolve(vs, q) {
            Some(p) => {
                if quad_id(qs, p) is Some {
                    let c = choose|j: int| 0 <= j < qs.len() && #[trigger] qs[j].quad == p;
                    lemma_quad_id_at(qs, c);
                    lemma_quad_by_id_at(qs, self.last, c);
                    lemma_resolve_read_back(vs, self.last, q, p);
                    assert(quadv_of(vs, qs[c].quad) == q);
                }
            },
            None => {},
        }
    }

    /// A store without the quad of no values holds no quad of ids that are
    /// all zero.
    pub proof fn lemma_no_blank(&self)
        requires
            self.wf(),
            !self.quad_set().contains(blank_quad()),
        ensures
            quad_id(self.quads@, empty_quad()) is None,
    {
        lemma_name_zero(self.vals@, self.last);
        if quad_id(self.quads@, empty_quad()) is Some {
            let c = choose|j: int| 0 <= j < self.quads@.len() && #[trigger] self.quads@[j].quad == empty_quad();
            assert(quadv_of(self.vals@, self.quads@[c].quad) == blank_quad());
        }
    }

    /// Applies a batch of changes. Unless both are ignored, the batch is
    /// first checked against the store: it is refused, unchanged, when it
    /// adds a quad the store holds or deletes one the store lacks. Then each
    /// delta adds or deletes its quad in order; deleting a missing quad does
    /// nothing. The transaction counter goes up by one.
    #[verifier::rlimit(40)]
    pub fn apply_deltas(&mut self, deltas: &Vec<Delta>, ignore_opts: &IgnoreOptions) -> (r: Result<(), String>)
        requires
            old(self).wf(),
        ensures
            final(self).wf(),
            match check_error(*old(self), deltas@, ignore_opts.ignore_dup, ignore_opts.ignore_missing) {
                Some(m) => r matches Err(e) && e@ == m && *final(self) == *old(self),
                None => {
                    &&& r matches Err(e) ==> e@ == err_store_full()
                    &&& old(self).quads@.len() + add_count(deltas@) <= MAX_QUADS
                        && old(self).last + 5 * add_count(deltas@) <= i64::MAX ==> r is Ok
                    &&& r is Ok ==> final(self).horizon == (if old(self).horizon < i64::MAX { old(self).horizon + 1 } else { old(self).horizon as int })
                    &&& (r is Ok && !old(self).quad_set().contains(blank_quad())
                        && forall|i: int| 0 <= i < deltas@.len() ==> #[trigger] deltas@[i].quad@ != blank_quad())
                        ==> final(self).quad_set() == apply_abs(old(self).quad_set(), deltas@)
                },
            },
    {
        let dup = ignore_opts.ignore_dup;
        let missing = ignore_opts.ignore_missing;
        if !dup || !missing {
            proof {
                assert(deltas@.skip(0) =~= deltas@);
            }
            let mut i: usize = 0;
            while i < deltas.len()
                invariant
                    i <= deltas@.len(),
                    self.wf(),
                    *self == *old(self),
                    dup == ignore_opts.ignore_dup,
                    missing == ignore_opts.ignore_missing,
                    check_error(*self, deltas@, dup, missing) == check_error(*self, deltas@.skip(i as int), dup, missing),
                decreases deltas@.len() - i,
            {
                let d = &deltas[i];
                proof {
                    assert(deltas@.skip(i as int).drop_first() =~= deltas@.skip(i + 1));
                    assert(deltas@.skip(i as int)[0] == deltas@[i as int]);
                }
                match d.action {
                    Procedure::Add => {
                        if !dup {
                            if self.find_quad(&d.quad).is_some() {
                                proof {
                                    reveal_strlit("ErrQuadExists");
                                }
                                return Err(crate::strutil::string_of("ErrQuadExists"));
                            }
                        }
                    },
                    Procedure::Delete => {
                        if !missing {
                            if self.find_quad(&d.quad).is_none() {
                                proof {
                                    reveal_strlit("ErrQuadNotExist");
                                }
                                return Err(crate::strutil::string_of("ErrQuadNotExist"));
                            }
                        }
                    },
                }
                i = i + 1;
            }
            proof {
                assert(deltas@.skip(deltas@.len() as int) =~= Seq::<Delta>::empty());
            }
        } else {
            proof {
                lemma_check_ignored(*self, deltas@);
            }
        }
        let ghost cond = !old(self).quad_set().contains(blank_quad())
            && forall|i: int| 0 <= i < deltas@.len() ==> #[trigger] deltas@[i].quad@ != blank_quad();
        let mut i: usize = 0;
        while i < deltas.len()
            invariant
                i <= deltas@.len(),
                self.wf(),
                self.horizon == old(self).horizon,
                check_error(*old(self), deltas@, ignore_opts.ignore_dup, ignore_opts.ignore_missing) is None,
                cond == (!old(self).quad_set().contains(blank_quad())
                    && forall|i: int| 0 <= i < deltas@.len() ==> #[trigger] deltas@[i].quad@ != blank_quad()),
                cond ==> !self.quad_set().contains(blank_quad()),
                cond ==> self.quad_set() == apply_abs(old(self).quad_set(), deltas@.take(i as int)),
                self.quads@.len() <= old(self).quads@.len() + add_count(deltas@.take(i as int)),
                self.last <= old(self).last + 5 * add_count(deltas@.take(i as int)),
            decreases deltas@.len() - i,
        {
            let d = &deltas[i];
            let ghost before = *self;
            proof {
                assert(deltas@.take(i + 1).drop_last() =~= deltas@.take(i as int));
                lemma_add_count_prefix(deltas@, i + 1);
                assert(deltas@.take(i + 1).last() == deltas@[i as int]);
                before.lemma_find_in_set(d.quad@);
                if cond {
                    assert(deltas@[i as int].quad@ != blank_quad());
                    before.lemma_no_blank();
                }
            }
            match d.action {
                Procedure::Add => {
                    match self.add_quad(&d.quad) {
                        Some(_) => {
                            proof {
                                if cond {
                                    match spec_resolve(before.vals@, d.quad@) {
                                        Some(p0) => {
                                            if quad_id(before.quads@, p0) is Some {
                                                assert(before.spec_find_quad(d.quad@) is Some);
                                                assert(before.quad_set().insert(d.quad@) =~= before.quad_set());
                                            }
                                        },
                                        None => {},
                                    }
                                }
                            }
                        },
                        None => {
                            proof {
                                reveal_strlit("ErrStoreFull");
                            }
                            return Err(crate::strutil::string_of("ErrStoreFull"));
                        },
                    }
                },
                Procedure::Delete => {
                    match self.find_quad(&d.quad) {
                        Some(id) => {
                            self.delete(id);
                        },
                        None => {
                            proof {
                                assert(before.quad_set().remove(d.quad@) =~= before.quad_set());
                            }
                        },
                    }
                },
            }
            i = i + 1;
        }
        proof {
            assert(deltas@.take(deltas@.len() as int) =~= deltas@);
        }
        if self.horizon < i64::MAX {
            self.horizon = self.horizon + 1;
        }
        Ok(())
    }

    /// The position of the value `v` among the stored values.
    pub fn find_val_pos(&self, v: &Value) -> (r: Option<usize>)
        ensures
            match r {
                Some(i) => i < self.vals@.len() && self.vals@[i as int].value@ == v@,
                None => forall|j: int| 0 <= j < self.vals@.len() ==> #[trigger] self.vals@[j].value@ != v@,
            },
    {
        let mut i: usize = 0;
        while i < self.vals.len()
            invariant
                i <= self.vals@.len(),
                forall|j: int| 0 <= j < i ==> #[trigger] self.vals@[j].value@ != v@,
            decreases self.vals@.len() - i,
        {
            if self.vals[i].value.equals(v) {
                return Some(i);
            }
            i = i + 1;
        }
        None
    }

    /// The position of the value with id `id`.
    pub fn find_val_by_id(&self, id: i64) -> (r: Option<usize>)
        ensures
            match r {
                Some(i) => i < self.vals@.len() && self.vals@[i as int].id == id,
                None => !has_val_id(self.vals@, id),
            },
    {
        let mut i: usize = 0;
        while i < self.vals.len()
            invariant
                i <= self.vals@.len(),
                forall|j: int| 0 <= j < i ==> #[trigger] self.vals@[j].id != id,
            decreases self.vals@.len() - i,
        {
            if self.vals[i].id == id {
                return Some(i);
            }
            i = i + 1;
        }
        None
    }

    /// The position of the stored quad of ids `p`.
    pub fn find_quad_pos(&self, p: &InternalQuad) -> (r: Option<usize>)
        ensures
            match r {
                Some(i) => i < self.quads@.len() && self.quads@[i as int].quad == *p,
                None => forall|j: int| 0 <= j < self.quads@.len() ==> #[trigger] self.quads@[j].quad != *p,
            },
    {
        let mut i: usize = 0;
        while i < self.quads.len()
            invariant
                i <= self.quads@.len(),
                forall|j: int| 0 <= j < i ==> #[trigger] self.quads@[j].quad != *p,
            decreases self.quads@.len() - i,
        {
            if self.quads[i].quad == *p {
                return Some(i);
            }
            i = i + 1;
        }
        None
    }

    /// The position of the quad with id `id`.
    pub fn find_quad_by_id(&self, id: i64) -> (r: Option<usize>)
        ensures
            match r {
                Some(i) => i < self.quads@.len() && self.quads@[i as int].id == id,
                None => !has_quad_id(self.quads@, id),
            },
    {
        let mut i: usize = 0;
        while i < self.quads.len()
            invariant
                i <= self.quads@.len(),
                forall|j: int| 0 <= j < i ==> #[trigger] self.quads@[j].id != id,
            decreases self.quads@.len() - i,
        {
            if self.quads[i].id == id {
                return Some(i);
            }
            i = i + 1;
        }
        None
    }
}

/// A quad store held in memory.
pub struct MemStore {
    store: InternalMemStore,
}

impl MemStore {
    #[verifier::type_invariant]
    spec fn inv(&self) -> bool {
        self.store.wf()
    }

    /// The store is consistent (which it always is).
    pub closed spec fn wf(&self) -> bool {
        self.store.wf()
    }

    /// The quads of the store, as values.
    pub closed spec fn quad_set(&self) -> Set<QuadV> {
        self.store.quad_set()
    }

    /// The id of the stored quad with the given values, if any.
    pub closed spec fn find_spec(&self, q: QuadV) -> Option<i64> {
        self.store.spec_find_quad(q)
    }

    /// The error a batch is refused with, if any.
    pub closed spec fn check_spec(&self, ds: Seq<Delta>, ignore_dup: bool, ignore_missing: bool) -> Option<Seq<char>> {
        check_error(self.store, ds, ignore_dup, ignore_missing)
    }

    /// The id of a stored value.
    pub closed spec fn value_id(&self, v: ValueV) -> Option<i64> {
        if v is Undefined {
            None
        } else {
            val_id(self.store.vals@, v)
        }
    }

    /// The value stored under an id.
    pub closed spec fn value_named(&self, id: i64) -> Option<ValueV> {
        if has_val_id(self.store.vals@, id) {
            Some(name(self.store.vals@, id))
        } else {
            None
        }
    }

    /// The quad stored under an id, as values.
    pub closed spec fn quad_named(&self, id: i64) -> Option<QuadV> {
        match quad_by_id(self.store.quads@, id) {
            Some(p) => Some(quadv_of(self.store.vals@, p)),
            None => None,
        }
    }

    /// The id stored at corner `d` of the quad with id `id`.
    pub closed spec fn corner_of(&self, id: i64, d: Direction) -> Option<i64> {
        match quad_by_id(self.store.quads@, id) {
            Some(p) => Some(p.spec_dir(d)),
            None => None,
        }
    }

    /// The ids of the quads with the value of id `v` at corner `d`.
    pub closed spec fn quads_with(&self, d: Direction, v: i64) -> Set<i64> {
        quads_holding(self.store.quads@, d, v)
    }

    /// The number of values and the number of quads.
    pub closed spec fn node_count(&self) -> nat {
        self.store.vals@.len()
    }

    pub closed spec fn stored_quad_count(&self) -> nat {
        self.store.quads@.len()
    }

    /// The highest id given so far.
    pub closed spec fn last_id(&self) -> i64 {
        self.store.last
    }

    /// Whether a node (`nodes`) or a quad has the id.
    pub closed spec fn holds_id(&self, id: i64, nodes: bool) -> bool {
        if nodes {
            has_val_id(self.store.vals@, id)
        } else {
            has_quad_id(self.store.quads@, id)
        }
    }

    /// An empty store.
    pub fn new() -> (r: MemStore)
        ensures
            r.wf(),
            r.quad_set() == Set::<QuadV>::empty(),
            r.node_count() == 0,
            r.stored_quad_count() == 0,
    {
        MemStore { store: InternalMemStore::new() }
    }

    /// A stored value is found again under its id.
    pub proof fn lemma_value_round_trip(&self, v: ValueV)
        requires
            self.wf(),
        ensures
            self.value_id(v) matches Some(i) ==> self.value_named(i) == Some(v),
    {
        let vs = self.store.vals@;
        if !(v is Undefined) && val_id(vs, v) is Some {
            let j = choose|j: int| 0 <= j < vs.len() && #[trigger] vs[j].value@ == v;
            lemma_val_id_at(vs, j);
            lemma_name_at(vs, self.store.last, j);
        }
    }

    /// Values are told apart by their ids: a stored value is found again
    /// under its id, and the value under an id has that id.
    pub proof fn lemma_name_round_trip(&self, id: i64)
        requires
            self.wf(),
        ensures
            self.value_named(id) matches Some(v) ==> self.value_id(v) == Some(id),
    {
        let vs = self.store.vals@;
        if has_val_id(vs, id) {
            let j = choose|j: int| 0 <= j < vs.len() && #[trigger] vs[j].id == id;
            lemma_name_at(vs, self.store.last, j);
            lemma_val_id_at(vs, j);
        }
    }

    /// A quad is found by its values exactly when the store holds it, and
    /// the quad under the id found has those values.
    pub proof fn lemma_find_round_trip(&self, q: QuadV)
        requires
            self.wf(),
        ensures
            self.find_spec(q) is Some <==> self.quad_set().contains(q),
            self.find_spec(q) matches Some(id) ==> self.quad_named(id) == Some(q),
    {
        self.store.lemma_find_in_set(q);
    }
}

/// The id of the `x`-th value (`nodes`) or quad of a store.
pub open spec fn id_at(st: InternalMemStore, nodes: bool, x: int) -> i64 {
    if nodes {
        st.vals@[x].id
    } else {
        st.quads@[x].id
    }
}

impl QuadStore for MemStore {
    closed spec fn quad_bound(&self) -> nat {
        self.store.index.index@.len()
    }

    fn quad_count(&self) -> (r: usize) {
        self.store.index.index.len()
    }

    closed spec fn spec_value_of(&self, v: ValueV) -> Option<RefV> {
        match self.value_id(v) {
            Some(i) => Some(id_ref(i)),
            None => None,
        }
    }

    closed spec fn spec_name_of(&self, key: RefV) -> Option<ValueV> {
        match key.content {
            ContentV::Value(v) => Some(v),
            _ => match key_id(key) {
                Some(i) => self.value_named(i),
                None => None,
            },
        }
    }

    /// The reference to a stored value: its id, without content.
    fn value_of(&self, v: &Value) -> (r: Option<Ref>)
        ensures
            match self.value_id(v@) {
                Some(i) => r matches Some(x) && x@ == id_ref(i),
                None => r is None,
            },
    {
        proof {
            use_type_invariant(self);
        }
        match self.store.find_val(v) {
            Some(i) => Some(make_id_ref(i)),
            None => None,
        }
    }

    /// The value a reference carries, or else the value stored under its
    /// key.
    fn name_of(&self, key: &Ref) -> (r: Option<Value>)
        ensures
            match key@.content {
                ContentV::Value(v) => r matches Some(x) && x@ == v,
                _ => match key_id(key@) {
                    Some(i) => match self.value_named(i) {
                        Some(v) => r matches Some(x) && x@ == v,
                        None => r is None,
                    },
                    None => r is None,
                },
            },
    {
        proof {
            use_type_invariant(self);
        }
        if key.has_value() {
            return Some(key.unwrap_value().copy());
        }
        let n = match key.key() {
            Some(k) => k.as_i64(),
            None => None,
        };
        match n {
            Some(i) => self.store.lookup_val(i),
            None => None,
        }
    }

    /// The quad stored under the key of a reference, as values.
    fn quad(&self, r: &Ref) -> (res: Option<Quad>)
        ensures
            match key_id(r@) {
                Some(i) => match self.quad_named(i) {
                    Some(q) => res matches Some(x) && x@ == q,
                    None => res is None,
                },
                None => res is None,
            },
    {
        proof {
            use_type_invariant(self);
        }
        match self.store.internal_quad(r) {
            Some(p) => Some(self.store.lookup_quad_dirs(&p)),
            None => None,
        }
    }

    /// The quads with the referenced value at corner `d`, by increasing id;
    /// the empty iterator when there are none.
    fn quad_iterator(&self, d: &Direction, r: &Ref) -> (s: Shape)
        ensures
            key_id(r@) is None ==> s is Null,
            key_id(r@) matches Some(i) ==> (s is Null <==> self.quads_with(*d, i) == Set::<i64>::empty()),
            key_id(r@) matches Some(i) ==> (s matches Shape::MemStore(m) ==> m.quad_ids@.to_set() == self.quads_with(*d, i)
                && strictly_increasing(m.quad_ids@) && m.d == *d),
    {
        proof {
            use_type_invariant(self);
        }
        let id = match r.key() {
            Some(k) => k.as_i64(),
            None => None,
        };
        match id {
            Some(i) => {
                let quad_ids = self.store.index.get(d, &i);
                proof {
                    lemma_index_lookup(self.store.quads@, *d, i);
                }
                if quad_ids.len() > 0 {
                    proof {
                        assert(quad_ids@.to_set().contains(quad_ids@[0]));
                    }
                    Shape::MemStore(MemStoreIterator::new(quad_ids, *d))
                } else {
                    proof {
                        assert(quad_ids@.to_set() =~= Set::<i64>::empty());
                    }
                    Null::new()
                }
            },
            None => Null::new(),
        }
    }

    /// The number of quads with the referenced value at corner `d`, exactly.
    open spec fn spec_quad_iterator_size(&self, d: Direction, r: RefV) -> Option<Size> {
        Some(Size {
            value: match key_id(r) {
                Some(i) => spec_len_as_i64(self.quads_with(d, i).len()),
                None => 0,
            },
            exact: true,
        })
    }

    fn quad_iterator_size(&self, d: &Direction, r: &Ref) -> (res: Result<Size, String>)
        ensures
            res matches Ok(sz) && sz.exact,
            key_id(r@) is None ==> (res matches Ok(sz) && sz.value == 0),
            key_id(r@) matches Some(i) ==> (res matches Ok(sz) && sz.value == spec_len_as_i64(self.quads_with(*d, i).len())),
    {
        proof {
            use_type_invariant(self);
        }
        let id = match r.key() {
            Some(k) => k.as_i64(),
            None => None,
        };
        match id {
            Some(i) => {
                let quad_ids = self.store.index.get(d, &i);
                proof {
                    lemma_index_lookup(self.store.quads@, *d, i);
                    assert(quad_ids@.no_duplicates()) by {
                        assert forall|a: int, b: int| 0 <= a < quad_ids@.len() && 0 <= b < quad_ids@.len() && a != b
                            implies quad_ids@[a] != quad_ids@[b] by {
                            if a < b {
                                assert(quad_ids@[a] < quad_ids@[b]);
                            } else {
                                assert(quad_ids@[b] < quad_ids@[a]);
                            }
                        }
                    }
                    quad_ids@.unique_seq_to_set();
                }
                Ok(Size { value: len_as_i64(quad_ids.len()), exact: true })
            },
            None => Ok(Size { value: 0, exact: true }),
        }
    }

    /// The id at corner `d` of the referenced quad: the reference to nothing
    /// when that corner is empty; none when no quad has the key.
    fn quad_direction(&self, r: &Ref, d: &Direction) -> (res: Option<Ref>)
        ensures
            match key_id(r@) {
                Some(i) => match self.corner_of(i, *d) {
                    Some(c) => res matches Some(x) && (if c == 0 { x@ == (RefV { k: ValueV::Undefined, content: ContentV::Empty }) } else { x@ == id_ref(c) }),
                    None => res is None,
                },
                None => res is None,
            },
    {
        proof {
            use_type_invariant(self);
        }
        match self.store.internal_quad(r) {
            Some(q) => {
                let id = q.dir(d);
                if id == 0 {
                    Some(Ref::none())
                } else {
                    Some(make_id_ref(id))
                }
            },
            None => None,
        }
    }

    /// The numbers of values and of quads, exactly.
    open spec fn spec_stats(&self, exact: bool) -> Option<Stats> {
        Some(Stats {
            nodes: Size { value: spec_len_as_i64(self.node_count()), exact: true },
            quads: Size { value: spec_len_as_i64(self.stored_quad_count()), exact: true },
        })
    }

    fn stats(&self, exact: bool) -> (r: Result<Stats, String>)
        ensures
            r matches Ok(st) && st.nodes == (Size { value: spec_len_as_i64(self.node_count()), exact: true })
                && st.quads == (Size { value: spec_len_as_i64(self.stored_quad_count()), exact: true }),
    {
        Ok(Stats {
            nodes: Size { value: len_as_i64(self.store.vals.len()), exact: true },
            quads: Size { value: len_as_i64(self.store.quads.len()), exact: true },
        })
    }

    /// Applies a batch of changes (see `InternalMemStore::apply_deltas`).
    /// A batch is refused, the quads unchanged, when a change is in error;
    /// otherwise it fails only when the store is full, and a batch that
    /// succeeds (without the blank quad) leaves the quads it gives.
    open spec fn applied(&self, deltas: Seq<Delta>, ignore_opts: IgnoreOptions, after: Self, r: Result<(), String>) -> bool {
        &&& after.wf()
        &&& match self.check_spec(deltas, ignore_opts.ignore_dup, ignore_opts.ignore_missing) {
            Some(m) => r matches Err(e) && e@ == m && after.quad_set() == self.quad_set(),
            None => {
                &&& r matches Err(e) ==> e@ == err_store_full()
                &&& (r is Ok && !self.quad_set().contains(blank_quad())
                    && forall|i: int| 0 <= i < deltas.len() ==> #[trigger] deltas[i].quad@ != blank_quad())
                    ==> after.quad_set() == apply_abs(self.quad_set(), deltas)
            },
        }
    }

    fn apply_deltas(&mut self, deltas: Vec<Delta>, ignore_opts: &IgnoreOptions) -> (r: Result<(), String>)
        ensures
            final(self).wf(),
            match old(self).check_spec(deltas@, ignore_opts.ignore_dup, ignore_opts.ignore_missing) {
                Some(m) => r matches Err(e) && e@ == m && final(self).quad_set() == old(self).quad_set(),
                None => {
                    &&& r matches Err(e) ==> e@ == err_store_full()
                    &&& (r is Ok && !old(self).quad_set().contains(blank_quad())
                        && forall|i: int| 0 <= i < deltas@.len() ==> #[trigger] deltas@[i].quad@ != blank_quad())
                        ==> final(self).quad_set() == apply_abs(old(self).quad_set(), deltas@)
                },
            },
    {
        proof {
            use_type_invariant(&*self);
        }
        let mut st = InternalMemStore::new();
        std::mem::swap(&mut st, &mut self.store);
        let r = st.apply_deltas(&deltas, ignore_opts);
        self.store = st;
        r
    }

    /// The nodes of the store with ids up to the last one given.
    fn nodes_all_iterator(&self) -> (s: Shape)
        ensures
            s matches Shape::MemStoreAll(a) && a.nodes && a.maxid == self.last_id(),
    {
        Shape::MemStoreAll(MemStoreAllIterator::new(self.store.last, true))
    }

    /// The quads of the store with ids up to the last one given.
    fn quads_all_iterator(&self) -> (s: Shape)
        ensures
            s matches Shape::MemStoreAll(a) && !a.nodes && a.maxid == self.last_id(),
    {
        Shape::MemStoreAll(MemStoreAllIterator::new(self.store.last, false))
    }

    fn close(&self) -> (r: Option<String>)
        ensures
            r is None,
    {
        None
    }

    /// The least id above `after`, up to `maxid`, of a value (`nodes`) or
    /// of a quad.
    fn next_prim_id(&self, after: Option<i64>, maxid: i64, nodes: bool) -> (r: Option<i64>)
        ensures
            match r {
                Some(i) => self.holds_id(i, nodes) && i <= maxid && (after matches Some(a) ==> a < i)
                    && forall|j: i64| (after matches Some(a) ==> a < j) && j < i ==> !#[trigger] self.holds_id(j, nodes),
                None => forall|j: i64| (after matches Some(a) ==> a < j) && j <= maxid ==> !#[trigger] self.holds_id(j, nodes),
            },
    {
        proof {
            use_type_invariant(self);
        }
        let n = if nodes { self.store.vals.len() } else { self.store.quads.len() };
        let mut k: usize = 0;
        while k < n
            invariant
                self.store.wf(),
                n == (if nodes { self.store.vals@.len() } else { self.store.quads@.len() }),
                k <= n,
                k > 0 ==> (after is Some && id_at(self.store, nodes, k - 1) <= after.unwrap()),
            decreases n - k,
        {
            let id = if nodes { self.store.vals[k].id } else { self.store.quads[k].id };
            proof {
                assert(id_at(self.store, nodes, k as int) == id);
            }
            let above = match after {
                Some(a) => a < id,
                None => true,
            };
            if above {
                proof {
                    let vs = self.store.vals@;
                    let qs = self.store.quads@;
                    assert forall|j: i64| (after matches Some(a) ==> a < j) && j < id implies !#[trigger] self.holds_id(j, nodes) by {
                        if nodes && has_val_id(vs, j) {
                            let w = choose|w: int| 0 <= w < vs.len() && #[trigger] vs[w].id == j;
                            if w >= k {
                                if w > k {
                                    assert(vs[k as int].id < vs[w].id);
                                }
                            } else {
                                assert(0 <= w < k);
                                assert(after is Some && id_at(self.store, nodes, k - 1) <= after.unwrap());
                                if w < k - 1 {
                                    assert(id_at(self.store, nodes, w) < id_at(self.store, nodes, k - 1));
                                }
                            }
                        }
                        if !nodes && has_quad_id(qs, j) {
                            let w = choose|w: int| 0 <= w < qs.len() && #[trigger] qs[w].id == j;
                            if w >= k {
                                if w > k {
                                    assert(qs[k as int].id < qs[w].id);
                                }
                            } else {
                                assert(0 <= w < k);
                                assert(after is Some && id_at(self.store, nodes, k - 1) <= after.unwrap());
                                if w < k - 1 {
                                    assert(id_at(self.store, nodes, w) < id_at(self.store, nodes, k - 1));
                                }
                            }
                        }
                    }
                    if nodes {
                        assert(vs[k as int].id == id);
                    } else {
                        assert(qs[k as int].id == id);
                    }
                    if id > maxid {
                        assert forall|j: i64| (after matches Some(a) ==> a < j) && j <= maxid implies !#[trigger] self.holds_id(j, nodes) by {}
                    }
                }
                if id <= maxid {
                    return Some(id);
                } else {
                    return None;
                }
            }
            k = k + 1;
        }
        proof {
            let vs = self.store.vals@;
            let qs = self.store.quads@;
            assert forall|j: i64| (after matches Some(a) ==> a < j) && j <= maxid implies !#[trigger] self.holds_id(j, nodes) by {
                if nodes && has_val_id(vs, j) {
                    let w = choose|w: int| 0 <= w < vs.len() && #[trigger] vs[w].id == j;
                    assert(id_at(self.store, nodes, w) == j);
                }
                if !nodes && has_quad_id(qs, j) {
                    let w = choose|w: int| 0 <= w < qs.len() && #[trigger] qs[w].id == j;
                    assert(id_at(self.store, nodes, w) == j);
                }
            }
        }
        None
    }

    /// Whether a value or a quad has the id.
    open spec fn spec_has_prim(&self, id: i64) -> bool {
        self.holds_id(id, true) || self.holds_id(id, false)
    }

    fn has_prim(&self, id: i64) -> (r: bool)
        ensures
            r == (self.holds_id(id, true) || self.holds_id(id, false)),
    {
        self.store.find_val_by_id(id).is_some() || self.store.find_quad_by_id(id).is_some()
    }

    /// The number of values and quads (at most the largest `usize`).
    fn prim_count(&self) -> (r: usize)
        ensures
            r == (if self.node_count() + self.stored_quad_count() <= usize::MAX {
                self.node_count() + self.stored_quad_count()
            } else {
                usize::MAX as nat
            }),
    {
        let a = self.store.vals.len();
        let b = self.store.quads.len();
        if a <= usize::MAX - b { a + b } else { usize::MAX }
    }
}

} // verus!
