//! Quads (subject, predicate, object, label) and the interface of a quad store.
use vstd::prelude::*;
use crate::graph::value::{Value, ValueV};
use crate::graph::refs::{Size, Ref, RefV};

use crate::strutil::{concat, string_of};
use crate::graph::iterator::Shape;

verus! {

/// A quad: a subject, a predicate, an object and a label (the graph it
/// belongs to). Directions that are not set hold `Value::Undefined`.
#[derive(Debug, Clone, PartialEq)]
pub struct Quad {
    pub subject: Value,
    pub predicate: Value,
    pub object: Value,
    pub label: Value,
}

pub struct QuadV {
    pub subject: ValueV,
    pub predicate: ValueV,
    pub object: ValueV,
    pub label: ValueV,
}

impl View for Quad {
    type V = QuadV;

    open spec fn view(&self) -> QuadV {
        QuadV {
            subject: self.subject@,
            predicate: self.predicate@,
            object: self.object@,
            label: self.label@,
        }
    }
}

/// A corner of a quad. `Any` names none in particular.
#[derive(Debug, Clone, Copy, PartialEq, Eq, Structural)]
pub enum Direction {
    Any,
    Subject,
    Predicate,
    Object,
    Label,
}

/// The value of a quad in a direction other than `Any`.
pub open spec fn quad_get(q: QuadV, d: Direction) -> ValueV {
    match d {
        Direction::Subject => q.subject,
        Direction::Predicate => q.predicate,
        Direction::Object => q.object,
        Direction::Label => q.label,
        Direction::Any => ValueV::Undefined,
    }
}

/// The four directions, in the order Subject, Predicate, Object, Label.
pub open spec fn spec_directions() -> Seq<Direction> {
    seq![Direction::Subject, Direction::Predicate, Direction::Object, Direction::Label]
}

impl Direction {
    /// The four directions a quad has, in order.
    pub fn all() -> (r: Vec<Direction>)
        ensures
            r@ == spec_directions(),
    {
        let mut v = Vec::new();
        v.push(Direction::Subject);
        v.push(Direction::Predicate);
        v.push(Direction::Object);
        v.push(Direction::Label);
        proof {
            assert(v@ =~= spec_directions());
        }
        v
    }

    /// A small number for each direction, by which index keys are ordered.
    pub fn to_byte(&self) -> (r: i8)
        ensures
            r == (match *self {
                Direction::Any => 0i8,
                Direction::Subject => 1i8,
                Direction::Predicate => 2i8,
                Direction::Object => 3i8,
                Direction::Label => 4i8,
            }),
    {
        match self {
            Direction::Any => 0,
            Direction::Subject => 1,
            Direction::Predicate => 2,
            Direction::Object => 3,
            Direction::Label => 4,
        }
    }
}

/// The printed form of a quad: `subject -- predicate -> object`.
pub open spec fn quad_text(q: &Quad) -> Seq<char> {
    q.subject.spec_text() + seq![' ', '-', '-', ' '] + q.predicate.spec_text()
        + seq![' ', '-', '>', ' '] + q.object.spec_text()
}

impl Quad {
    pub fn new(subject: Value, predicate: Value, object: Value, label: Value) -> (r: Quad)
        ensures
            r@ == (QuadV { subject: subject@, predicate: predicate@, object: object@, label: label@ }),
    {
        Quad { subject, predicate, object, label }
    }

    /// A quad with no direction set.
    pub fn new_undefined_vals() -> (r: Quad)
        ensures
            r@ == (QuadV {
                subject: ValueV::Undefined,
                predicate: ValueV::Undefined,
                object: ValueV::Undefined,
                label: ValueV::Undefined,
            }),
    {
        Quad {
            subject: Value::Undefined,
            predicate: Value::Undefined,
            object: Value::Undefined,
            label: Value::Undefined,
        }
    }

    /// The value in direction `d`; `d` must name a corner.
    pub fn get(&self, d: &Direction) -> (r: &Value)
        requires
            *d != Direction::Any,
        ensures
            r@ == quad_get(self@, *d),
    {
        match d {
            Direction::Subject => &self.subject,
            Direction::Predicate => &self.predicate,
            Direction::Object => &self.object,
            Direction::Label => &self.label,
            Direction::Any => vstd::pervasive::unreached(),
        }
    }

    /// Sets the value in direction `d`, which must name a corner.
    pub fn set_val(&mut self, d: &Direction, v: Value)
        requires
            *d != Direction::Any,
        ensures
            quad_get(final(self)@, *d) == v@,
            forall|e: Direction| e != *d && e != Direction::Any ==> quad_get(final(self)@, e) == quad_get(old(self)@, e),
    {
        match d {
            Direction::Subject => self.subject = v,
            Direction::Predicate => self.predicate = v,
            Direction::Object => self.object = v,
            Direction::Label => self.label = v,
            Direction::Any => {},
        }
    }

    pub fn copy(&self) -> (r: Quad)
        ensures
            r@ == self@,
            quad_text(&r) == quad_text(self),
    {
        Quad {
            subject: self.subject.copy(),
            predicate: self.predicate.copy(),
            object: self.object.copy(),
            label: self.label.copy(),
        }
    }

    pub fn equals(&self, other: &Quad) -> (r: bool)
        ensures
            r == (self@ == other@),
    {
        self.subject.equals(&other.subject) && self.predicate.equals(&other.predicate)
            && self.object.equals(&other.object) && self.label.equals(&other.label)
    }

    /// The printed form of the quad: `subject -- predicate -> object`.
    pub fn to_string(&self) -> (r: String)
        ensures
            r@ == quad_text(self),
    {
        proof {
            reveal_strlit(" -- ");
            reveal_strlit(" -> ");
        }
        let s = self.subject.to_string();
        let a = string_of(" -- ");
        let p = self.predicate.to_string();
        let b = string_of(" -> ");
        let o = self.object.to_string();
        let r1 = concat(&s, &a);
        let r2 = concat(&r1, &p);
        let r3 = concat(&r2, &b);
        concat(&r3, &o)
    }
}

/// What a writer does when asked to add a quad that is present, or to
/// delete one that is missing.
pub struct IgnoreOptions {
    pub ignore_dup: bool,
    pub ignore_missing: bool,
}

/// Writes quads to a store, with the given options on duplicates and
/// missing quads.
pub struct QuadWriter {
    pub ignore_opts: IgnoreOptions,
}

impl QuadWriter {
    pub fn new(ignore_opts: IgnoreOptions) -> (r: QuadWriter)
        ensures
            r.ignore_opts == ignore_opts,
    {
        QuadWriter { ignore_opts }
    }

    /// Adds a quad: a batch of one addition.
    pub fn add_quad<Q: QuadStore>(&self, qs: &mut Q, quad: Quad) -> (r: Result<(), String>)
        ensures
            old(qs).applied(seq![add_delta(quad)], self.ignore_opts, *final(qs), r),
    {
        let ghost g = quad;
        let mut v: Vec<Delta> = Vec::new();
        v.push(Delta { quad, action: Procedure::Add });
        proof {
            assert(v@ =~= seq![add_delta(g)]);
        }
        qs.apply_deltas(v, &self.ignore_opts)
    }

    /// Accepts a set of quads without writing them: this writer writes
    /// single quads (`add_quad`) only.
    pub fn add_quad_set(&self, quads: Vec<Quad>) -> (r: Result<(), String>)
        ensures
            r is Ok,
    {
        Ok(())
    }

    /// Accepts a quad to remove without removing it: this writer only adds.
    pub fn remove_quad(&self, quad: Quad) -> (r: Result<(), String>)
        ensures
            r is Ok,
    {
        Ok(())
    }

    /// Accepts a transaction without applying it: this writer writes single
    /// quads only.
    pub fn apply_transaction(&self, transaction: Transaction) -> (r: Result<(), String>)
        ensures
            r is Ok,
    {
        Ok(())
    }

    /// Accepts a node to remove without removing it: this writer only adds.
    pub fn remove_node(&self, value: Value) -> (r: Result<(), String>)
        ensures
            r is Ok,
    {
        Ok(())
    }

    /// Closing a writer always succeeds; it holds nothing to release.
    pub fn close(&self) -> (r: Result<(), String>)
        ensures
            r is Ok,
    {
        Ok(())
    }
}

/// Whether a delta adds or deletes its quad.
#[derive(Debug, Clone, Copy, PartialEq, Eq, Structural)]
pub enum Procedure {
    Add,
    Delete,
}

/// One change to a store.
pub struct Delta {
    pub quad: Quad,
    pub action: Procedure,
}

/// The change that adds `q`.
pub open spec fn add_delta(q: Quad) -> Delta {
    Delta { quad: q, action: Procedure::Add }
}

/// The number of nodes and of quads in a store.
pub struct Stats {
    pub nodes: Size,
    pub quads: Size,
}

/// The interface of a quad store.
pub trait QuadStore: Sized {
    /// A bound on the number of quads any quad iterator of the store yields.
    spec fn quad_bound(&self) -> nat;

    /// The bound on quad iterator sizes.
    fn quad_count(&self) -> (r: usize)
        ensures
            r == self.quad_bound();

    /// The reference by which the store knows a value, if it holds it.
    spec fn spec_value_of(&self, v: ValueV) -> Option<RefV>;

    /// The value a reference stands for, if any.
    spec fn spec_name_of(&self, key: RefV) -> Option<ValueV>;

    /// The reference by which the store knows a value, if it holds it.
    fn value_of(&self, v: &Value) -> (r: Option<Ref>)
        ensures
            match self.spec_value_of(v@) {
                Some(x) => r matches Some(y) && y@ == x,
                None => r is None,
            };

    /// The value a reference stands for, if any.
    fn name_of(&self, key: &Ref) -> (r: Option<Value>)
        ensures
            match self.spec_name_of(key@) {
                Some(x) => r matches Some(y) && y@ == x,
                None => r is None,
            };

    /// The quad a reference stands for, if any.
    fn quad(&self, r: &Ref) -> Option<Quad>;

    /// The quads that have the referenced value in direction `d`.
    fn quad_iterator(&self, d: &Direction, r: &Ref) -> (s: Shape)
        ensures
            s.height() == 1,
            s.max_rank(self.quad_bound()) <= self.quad_bound();

    /// The size the store gives the quads with the referenced value in
    /// direction `d`; none when it reports an error.
    spec fn spec_quad_iterator_size(&self, d: Direction, r: RefV) -> Option<Size>;

    /// The number of quads that have the referenced value in direction `d`.
    fn quad_iterator_size(&self, d: &Direction, r: &Ref) -> (res: Result<Size, String>)
        ensures
            match self.spec_quad_iterator_size(*d, r@) {
                Some(s) => res == Ok::<Size, String>(s),
                None => res is Err,
            };

    /// The value in direction `d` of the referenced quad; `None` when the
    /// reference is to no quad of the store.
    fn quad_direction(&self, r: &Ref, d: &Direction) -> Option<Ref>;

    /// The counts the store gives; none when it reports an error.
    spec fn spec_stats(&self, exact: bool) -> Option<Stats>;

    /// The number of nodes and of quads.
    fn stats(&self, exact: bool) -> (res: Result<Stats, String>)
        ensures
            match self.spec_stats(exact) {
                Some(s) => res == Ok::<Stats, String>(s),
                None => res is Err,
            };

    /// Whether applying `deltas` with `ignore_opts` to this store may leave
    /// the store `after` and answer `r`.
    spec fn applied(&self, deltas: Seq<Delta>, ignore_opts: IgnoreOptions, after: Self, r: Result<(), String>) -> bool;

    /// Applies a batch of changes.
    fn apply_deltas(&mut self, deltas: Vec<Delta>, ignore_opts: &IgnoreOptions) -> (r: Result<(), String>)
        ensures
            old(self).applied(deltas@, *ignore_opts, *final(self), r);

    /// All nodes of the store.
    fn nodes_all_iterator(&self) -> (s: Shape)
        ensures
            s.height() == 1;

    /// All quads of the store.
    fn quads_all_iterator(&self) -> (s: Shape)
        ensures
            s.height() == 1;

    fn close(&self) -> Option<String>;

    /// The least id above `after` (from the start when `None`), up to
    /// `maxid`, of a node (`nodes`) or of a quad of the store.
    fn next_prim_id(&self, after: Option<i64>, maxid: i64, nodes: bool) -> (r: Option<i64>)
        ensures
            r matches Some(i) ==> 1 <= i <= maxid && (after matches Some(a) ==> a < i);

    /// Whether the store holds a node or a quad with the id.
    spec fn spec_has_prim(&self, id: i64) -> bool;

    /// Whether the store has a node or a quad with the id.
    fn has_prim(&self, id: i64) -> (r: bool)
        ensures
            r == self.spec_has_prim(id);

    /// The number of nodes and quads of the store.
    fn prim_count(&self) -> usize;
}

/// The references by which the store knows each value of `nodes`, in
/// order; an error when it knows one of them not.
pub fn refs_of<Q: QuadStore>(qs: &Q, nodes: &Vec<Value>) -> (r: Result<Vec<Ref>, String>)
    ensures
        r is Ok <==> forall|i: int| 0 <= i < nodes@.len() ==> (#[trigger] qs.spec_value_of(nodes@[i]@)) is Some,
        r matches Ok(v) ==> v@.len() == nodes@.len()
            && forall|i: int| 0 <= i < nodes@.len() ==> Some((#[trigger] v@[i])@) == qs.spec_value_of(nodes@[i]@),
        r matches Err(e) ==> e@ == "Not Found"@,
{
    let mut out: Vec<Ref> = Vec::new();
    let mut i: usize = 0;
    while i < nodes.len()
        invariant
            i <= nodes@.len(),
            out@.len() == i,
            forall|j: int| 0 <= j < i ==> Some((#[trigger] out@[j])@) == qs.spec_value_of(nodes@[j]@),
        decreases nodes@.len() - i,
    {
        match qs.value_of(&nodes[i]) {
            Some(r) => out.push(r),
            None => {
                proof {
                    reveal_strlit("Not Found");
                    assert(qs.spec_value_of(nodes@[i as int]@) is None);
                }
                return Err(string_of("Not Found"));
            },
        }
        i = i + 1;
    }
    proof {
        assert forall|j: int| 0 <= j < nodes@.len() implies (#[trigger] qs.spec_value_of(nodes@[j]@)) is Some by {
            assert(Some(out@[j]@) == qs.spec_value_of(nodes@[j]@));
        }
    }
    Ok(out)
}

/// The values that the store gives each reference of `refs`, in order;
/// references it cannot name are left out.
pub fn values_of<Q: QuadStore>(qs: &Q, refs: &Vec<Ref>) -> (r: Vec<Value>)
    ensures
        r@.len() <= refs@.len(),
        r@.map_values(|v: Value| v@) == names_in(qs, refs@.map_values(|x: Ref| x@)),
{
    let mut out: Vec<Value> = Vec::new();
    let mut i: usize = 0;
    while i < refs.len()
        invariant
            i <= refs@.len(),
            out@.len() <= i,
            out@.map_values(|v: Value| v@) == names_in(qs, refs@.map_values(|x: Ref| x@).take(i as int)),
        decreases refs@.len() - i,
    {
        let ghost before = out@;
        proof {
            assert(refs@.map_values(|x: Ref| x@).take(i + 1).drop_last() =~= refs@.map_values(|x: Ref| x@).take(i as int));
        }
        match qs.name_of(&refs[i]) {
            Some(v) => {
                out.push(v);
                proof {
                    assert(out@.map_values(|v: Value| v@) =~= before.map_values(|v: Value| v@).push(out@.last()@));
                }
            },
            None => {},
        }
        i = i + 1;
    }
    proof {
        assert(refs@.map_values(|x: Ref| x@).take(refs@.len() as int) =~= refs@.map_values(|x: Ref| x@));
    }
    out
}

/// The values the store gives the references of `rs`, in order, leaving out
/// those it cannot name.
pub open spec fn names_in<Q: QuadStore>(qs: &Q, rs: Seq<RefV>) -> Seq<ValueV>
    decreases rs.len(),
{
    if rs.len() == 0 {
        Seq::empty()
    } else {
        match qs.spec_name_of(rs.last()) {
            Some(v) => names_in(qs, rs.drop_last()).push(v),
            None => names_in(qs, rs.drop_last()),
        }
    }
}

/// A batch of changes.
pub struct Transaction {
    pub deltas: Vec<Delta>,
}

} // verus!
