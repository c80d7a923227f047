//! The references by which the store knows a fixed list of values.
use vstd::prelude::*;
use crate::graph::refs::{Ref, Size, len_as_i64, spec_len_as_i64};
use crate::graph::value::Value;
use crate::graph::quad::{QuadStore, refs_of};
use crate::graph::iterator::Costs;
use crate::graph::iterator::tags::TagMap;
use crate::graph::iterator::materialize::key_position;
use crate::graph::iterator::unique::values_view;
use crate::graph::refs::ref_key;
use crate::strutil::copy_string;

verus! {

/// Copies a list of values.
pub fn copy_values(v: &Vec<Value>) -> (r: Vec<Value>)
    ensures
        values_view(r@) == values_view(v@),
        r@.len() == v@.len(),
{
    let mut r: Vec<Value> = Vec::new();
    let mut i: usize = 0;
    while i < v.len()
        invariant
            i <= v@.len(),
            r@.len() == i,
            forall|j: int| 0 <= j < i ==> (#[trigger] r@[j])@ == v@[j]@,
        decreases v@.len() - i,
    {
        r.push(v[i].copy());
        i = i + 1;
    }
    proof {
        assert(values_view(r@) =~= values_view(v@));
    }
    r
}

/// The nodes of the store with the given values, in order.
pub struct Resolver {
    pub order: Vec<Value>,
}

impl Resolver {
    pub fn new(nodes: Vec<Value>) -> (r: Resolver)
        ensures
            r.order@ == nodes@,
    {
        Resolver { order: nodes }
    }

    /// One per step; the size is the number of values, exactly.
    pub fn stats(&self) -> (r: Costs)
        ensures
            r.next_cost == 1,
            r.contains_cost == 1,
            r.size == (Size { value: spec_len_as_i64(self.order@.len()), exact: true }),
    {
        Costs { next_cost: 1, contains_cost: 1, size: Size { value: len_as_i64(self.order.len()), exact: true } }
    }

    pub fn iterate(&self) -> (r: ResolverNext)
        ensures
            r.wf(),
            r.rank() <= self.order@.len() + 1,
            !r.cached,
            values_view(r.order@) == values_view(self.order@),
            r.order@.len() == self.order@.len(),
    {
        ResolverNext { order: copy_values(&self.order), values: Vec::new(), cached: false, index: 0, err: None, result: None }
    }

    pub fn lookup(&self) -> (r: ResolverContains)
        ensures
            !r.cached,
            values_view(r.order@) == values_view(self.order@),
    {
        ResolverContains { order: copy_values(&self.order), nodes: Vec::new(), cached: false, err: None, result: None }
    }
}

/// Lists the references of the values, looked up on the first call.
pub struct ResolverNext {
    pub order: Vec<Value>,
    pub values: Vec<Ref>,
    pub cached: bool,
    pub index: usize,
    pub err: Option<String>,
    pub result: Option<Ref>,
}

impl ResolverNext {
    pub open spec fn wf(&self) -> bool {
        &&& self.cached ==> self.index <= self.values@.len()
        &&& !self.cached ==> self.index == 0
    }

    pub open spec fn rank(&self) -> nat {
        if self.cached {
            (self.values@.len() - self.index) as nat
        } else {
            self.order@.len() + 1
        }
    }

    /// Looks up every value (a value the store does not hold is an error).
    fn resolve<Q: QuadStore>(&mut self, qs: &Q) -> (r: Result<(), String>)
        requires
            old(self).wf(),
            !old(self).cached,
        ensures
            final(self).wf(),
            r is Ok <==> forall|i: int| 0 <= i < old(self).order@.len() ==> (#[trigger] qs.spec_value_of(old(self).order@[i]@)) is Some,
            r is Ok ==> final(self).cached && final(self).values@.len() == old(self).order@.len()
                && final(self).index == 0
                && forall|i: int| 0 <= i < old(self).order@.len() ==> Some((#[trigger] final(self).values@[i])@) == qs.spec_value_of(old(self).order@[i]@),
            r is Err ==> *final(self) == *old(self),
    {
        let values = refs_of(qs, &self.order)?;
        self.values = values;
        self.order = Vec::new();
        self.cached = true;
        Ok(())
    }

    /// Moves to the reference of the next value; the first call looks them
    /// all up, and a failed lookup is an error.
    pub fn next<Q: QuadStore>(&mut self, qs: &Q) -> (r: bool)
        requires
            old(self).wf(),
        ensures
            final(self).wf(),
            r ==> final(self).rank() < old(self).rank(),
            !r ==> final(self).rank() <= old(self).rank(),
            r ==> (final(self).result matches Some(x) && x@ == final(self).values@[final(self).index - 1]@),
            !r && final(self).err is None ==> final(self).result is None,
            old(self).cached ==> final(self).values == old(self).values && final(self).cached
                && (r <==> old(self).index < old(self).values@.len())
                && final(self).index == (if r { old(self).index + 1 } else { old(self).index as int }),
            !old(self).cached ==> (final(self).err is None <==> forall|i: int| 0 <= i < old(self).order@.len()
                ==> (#[trigger] qs.spec_value_of(old(self).order@[i]@)) is Some),
            !old(self).cached && final(self).err is Some ==> !r && final(self).result == old(self).result && !final(self).cached,
            old(self).cached ==> final(self).err == old(self).err,
            !old(self).cached && final(self).err is None ==> final(self).cached
                && final(self).values@.len() == old(self).order@.len()
                && (forall|i: int| 0 <= i < old(self).order@.len() ==> Some((#[trigger] final(self).values@[i])@) == qs.spec_value_of(old(self).order@[i]@))
                && (r <==> old(self).order@.len() > 0)
                && (r ==> final(self).index == 1),
    {
        if !self.cached {
            match self.resolve(qs) {
                Err(e) => {
                    self.err = Some(e);
                    return false;
                },
                Ok(()) => {
                    self.err = None;
                },
            }
        }
        if self.index >= self.values.len() {
            self.result = None;
            return false;
        }
        self.result = Some(self.values[self.index].copy());
        self.index = self.index + 1;
        true
    }

    pub fn next_path<Q: QuadStore>(&mut self, qs: &Q) -> (r: bool)
        ensures
            !r,
            *final(self) == *old(self),
    {
        false
    }

    pub fn result(&self) -> (r: Option<Ref>)
        ensures
            match (r, self.result) {
                (Some(a), Some(b)) => a@ == b@,
                (None, None) => true,
                _ => false,
            },
    {
        match &self.result {
            Some(v) => Some(v.copy()),
            None => None,
        }
    }

    pub fn err(&self) -> (r: Option<String>)
        ensures
            crate::graph::iterator::opt_text(r) == crate::graph::iterator::opt_text(self.err),
            r is Some == self.err is Some,
    {
        match &self.err {
            Some(e) => Some(copy_string(e)),
            None => None,
        }
    }

    pub fn tag_results(&self, dst: &mut TagMap)
        ensures
            *final(dst) == *old(dst),
    {
    }

    pub fn close(&mut self) -> (r: Result<(), String>)
        ensures
            r is Ok,
            *final(self) == *old(self),
    {
        Ok(())
    }
}

/// Checks a reference against the references of the values, looked up on
/// the first call.
pub struct ResolverContains {
    pub order: Vec<Value>,
    /// The keys of the references of the values.
    pub nodes: Vec<Value>,
    pub cached: bool,
    pub err: Option<String>,
    pub result: Option<Ref>,
}

impl ResolverContains {
    /// Looks up every value (a value the store does not hold is an error).
    fn resolve<Q: QuadStore>(&mut self, qs: &Q) -> (r: Result<(), String>)
        ensures
            r is Ok <==> forall|i: int| 0 <= i < old(self).order@.len() ==> (#[trigger] qs.spec_value_of(old(self).order@[i]@)) is Some,
            r is Ok ==> final(self).cached && final(self).nodes@.len() == old(self).order@.len()
                && forall|i: int| 0 <= i < old(self).order@.len() ==>
                    (qs.spec_value_of(old(self).order@[i]@) matches Some(x) && x.k == (#[trigger] final(self).nodes@[i])@),
            r is Err ==> *final(self) == *old(self),
    {
        let values = refs_of(qs, &self.order)?;
        let mut nodes: Vec<Value> = Vec::new();
        let mut i: usize = 0;
        while i < values.len()
            invariant
                i <= values@.len(),
                nodes@.len() == i,
                forall|j: int| 0 <= j < i ==> (#[trigger] nodes@[j])@ == values@[j]@.k,
            decreases values@.len() - i,
        {
            nodes.push(values[i].k.copy());
            i = i + 1;
        }
        self.nodes = nodes;
        self.order = Vec::new();
        self.cached = true;
        Ok(())
    }

    /// Whether the key of `v` is the key of one of the references; the
    /// first call looks them up, and a failed lookup is an error.
    pub fn contains<Q: QuadStore>(&mut self, qs: &Q, v: &Ref) -> (r: bool)
        ensures
            final(self).err is None && final(self).cached ==> r == values_view(final(self).nodes@).contains(v@.k),
            r ==> (final(self).result matches Some(x) && x@ == v@),
    {
        if !self.cached {
            match self.resolve(qs) {
                Err(e) => {
                    self.err = Some(e);
                    return false;
                },
                Ok(()) => {
                    self.err = None;
                },
            }
        }
        match key_position(&self.nodes, &v.k) {
            Some(i) => {
                proof {
                    assert(values_view(self.nodes@)[i as int] == v@.k);
                }
                self.result = Some(v.copy());
                true
            },
            None => false,
        }
    }

    pub fn next_path<Q: QuadStore>(&mut self, qs: &Q) -> (r: bool)
        ensures
            !r,
            *final(self) == *old(self),
    {
        false
    }

    pub fn result(&self) -> (r: Option<Ref>)
        ensures
            match (r, self.result) {
                (Some(a), Some(b)) => a@ == b@,
                (None, None) => true,
                _ => false,
            },
    {
        match &self.result {
            Some(v) => Some(v.copy()),
            None => None,
        }
    }

    pub fn err(&self) -> (r: Option<String>)
        ensures
            crate::graph::iterator::opt_text(r) == crate::graph::iterator::opt_text(self.err),
            r is Some == self.err is Some,
    {
        match &self.err {
            Some(e) => Some(copy_string(e)),
            None => None,
        }
    }

    pub fn tag_results(&self, dst: &mut TagMap)
        ensures
            *final(dst) == *old(dst),
    {
    }

    pub fn close(&mut self) -> (r: Result<(), String>)
        ensures
            r is Ok,
            *final(self) == *old(self),
    {
        Ok(())
    }
}

} // verus!
