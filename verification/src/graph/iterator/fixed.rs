//! An iterator over a fixed list of references.
use vstd::prelude::*;
use crate::graph::refs::{Ref, RefV, Size, ref_key, len_as_i64, spec_len_as_i64};
use crate::graph::value::{Value, ValueV};
use crate::graph::iterator::{Costs, Shape};

verus! {

/// The views of a list of references.
pub open spec fn refs_view(s: Seq<Ref>) -> Seq<RefV> {
    s.map_values(|r: Ref| r@)
}

/// The keys of a list of references, skipping those without one.
pub open spec fn defined_keys(s: Seq<RefV>) -> Seq<ValueV>
    decreases s.len(),
{
    if s.len() == 0 {
        Seq::empty()
    } else {
        match ref_key(s.last()) {
            Some(k) => defined_keys(s.drop_last()).push(k),
            None => defined_keys(s.drop_last()),
        }
    }
}

proof fn lemma_defined_keys_len(s: Seq<RefV>)
    ensures
        defined_keys(s).len() <= s.len(),
    decreases s.len(),
{
    if s.len() > 0 {
        lemma_defined_keys_len(s.drop_last());
    }
}

/// Copies a list of references.
pub fn copy_refs(v: &Vec<Ref>) -> (r: Vec<Ref>)
    ensures
        refs_view(r@) == refs_view(v@),
        r@.len() == v@.len(),
{
    let mut r: Vec<Ref> = Vec::new();
    let mut i: usize = 0;
    while i < v.len()
        invariant
            i <= v.len(),
            forall|j: int| 0 <= j < i ==> (#[trigger] r@[j])@ == v@[j]@,
            r@.len() == i,
        decreases v.len() - i,
    {
        r.push(v[i].copy());
        i = i + 1;
    }
    proof {
        assert(refs_view(r@) =~= refs_view(v@));
    }
    r
}

/// A shape whose results are a fixed list of references.
pub struct Fixed {
    pub values: Vec<Ref>,
}

impl Fixed {
    pub fn new(vals: Vec<Ref>) -> (r: Fixed)
        ensures
            r.values@ == vals@,
    {
        Fixed { values: vals }
    }

    pub fn add(&mut self, v: Ref)
        ensures
            final(self).values@ == old(self).values@.push(v),
    {
        self.values.push(v);
    }

    pub fn values(&self) -> (r: Vec<Ref>)
        ensures
            refs_view(r@) == refs_view(self.values@),
            r@.len() == self.values@.len(),
    {
        copy_refs(&self.values)
    }

    pub fn copy(&self) -> (r: Fixed)
        ensures
            refs_view(r.values@) == refs_view(self.values@),
            r.values@.len() == self.values@.len(),
    {
        Fixed { values: copy_refs(&self.values) }
    }

    pub fn iterate(&self) -> (r: FixedNext)
        ensures
            refs_view(r.values@) == refs_view(self.values@),
            r.values@.len() == self.values@.len(),
            r.ind == 0,
            r.result is None,
    {
        FixedNext::new(copy_refs(&self.values))
    }

    pub fn lookup(&self) -> (r: FixedContains)
        ensures
            refs_view(r.values@) == refs_view(self.values@),
            r.keys@.map_values(|k: Value| k@) == defined_keys(refs_view(self.values@)),
            r.wf(),
            r.result is None,
    {
        let values = copy_refs(&self.values);
        let mut keys: Vec<Value> = Vec::new();
        let mut i: usize = 0;
        while i < values.len()
            invariant
                i <= values.len(),
                keys@.map_values(|k: Value| k@) == defined_keys(refs_view(values@.take(i as int))),
            decreases values.len() - i,
        {
            proof {
                assert(refs_view(values@.take(i + 1)).drop_last() =~= refs_view(values@.take(i as int)));
                assert(refs_view(values@.take(i + 1)).last() == values@[i as int]@);
            }
            match values[i].key() {
                Some(k) => {
                    keys.push(k.copy());
                    proof {
                        assert(keys@.map_values(|k: Value| k@) =~= defined_keys(refs_view(values@.take(i + 1))));
                    }
                },
                None => {
                    proof {
                        assert(keys@.map_values(|k: Value| k@) =~= defined_keys(refs_view(values@.take(i + 1))));
                    }
                },
            }
            i = i + 1;
        }
        proof {
            assert(values@.take(values.len() as int) =~= values@);
            lemma_defined_keys_len(refs_view(values@));
            assert(keys@.len() == keys@.map_values(|k: Value| k@).len());
        }
        FixedContains { values, keys, result: None }
    }

    /// Each `next` and `contains` costs one; the size is the number of values, exactly.
    pub fn stats(&self) -> (r: Costs)
        ensures
            r.contains_cost == 1,
            r.next_cost == 1,
            r.size.value == spec_len_as_i64(self.values@.len()),
            r.size.exact,
    {
        Costs { contains_cost: 1, next_cost: 1, size: Size { value: len_as_i64(self.values.len()), exact: true } }
    }

    /// A fixed list is never replaced by another shape.
    pub fn optimize(&self) -> (r: Option<Shape>)
        ensures
            r is None,
    {
        None
    }
}

/// Lists the values of a `Fixed`, in order.
pub struct FixedNext {
    pub values: Vec<Ref>,
    pub ind: usize,
    pub result: Option<Ref>,
}

impl FixedNext {
    pub open spec fn wf(&self) -> bool {
        self.ind <= self.values@.len()
    }

    /// A scanner over `vals`, before the first.
    pub fn new(vals: Vec<Ref>) -> (r: FixedNext)
        ensures
            r.values@ == vals@,
            r.ind == 0,
            r.result is None,
            r.wf(),
    {
        FixedNext { values: vals, ind: 0, result: None }
    }

    pub open spec fn rank(&self) -> nat {
        (self.values@.len() - self.ind) as nat
    }

    /// Moves to the next value; false once all have been listed.
    pub fn next(&mut self) -> (r: bool)
        requires
            old(self).wf(),
        ensures
            final(self).wf(),
            final(self).values == old(self).values,
            r == (old(self).ind < old(self).values@.len()),
            r ==> final(self).ind == old(self).ind + 1,
            r ==> (final(self).result matches Some(v) && v@ == old(self).values@[old(self).ind as int]@),
            !r ==> final(self).ind == old(self).ind && final(self).result == old(self).result,
    {
        if self.ind >= self.values.len() {
            return false;
        }
        self.result = Some(self.values[self.ind].copy());
        self.ind = self.ind + 1;
        true
    }

    pub fn result(&self) -> (r: Option<Ref>)
        ensures
            match (r, self.result) {
                (Some(a), Some(b)) => a@ == b@,
                (None, None) => true,
                _ => false,
            },
    {
        match &self.result {
            Some(v) => Some(v.copy()),
            None => None,
        }
    }
}

/// Checks membership in the values of a `Fixed` by key.
pub struct FixedContains {
    pub values: Vec<Ref>,
    pub keys: Vec<Value>,
    pub result: Option<Ref>,
}

impl FixedContains {
    /// A bound on `path_rank` that no operation changes.
    pub open spec fn path_bound(&self) -> nat {
        0
    }

    pub open spec fn wf(&self) -> bool {
        self.keys@.len() <= self.values@.len()
    }

    /// Whether some key equals the key of `v`; on success the result is the
    /// value at the position of the first such key.
    pub fn contains(&mut self, v: &Ref) -> (r: bool)
        requires
            old(self).wf(),
        ensures
            final(self).path_bound() == old(self).path_bound(),
            final(self).wf(),
            final(self).values == old(self).values,
            final(self).keys == old(self).keys,
            r == exists|i: int| 0 <= i < old(self).keys@.len() && ref_key(v@) == Some(#[trigger] old(self).keys@[i]@),
            !r ==> final(self).result == old(self).result,
    {
        let mut i: usize = 0;
        while i < self.keys.len()
            invariant
                i <= self.keys.len(),
                self.wf(),
                self.values == old(self).values,
                self.keys == old(self).keys,
                self.result == old(self).result,
                forall|j: int| 0 <= j < i ==> ref_key(v@) != Some(#[trigger] self.keys@[j]@),
            decreases self.keys.len() - i,
        {
            match v.key() {
                Some(k) => {
                    if self.keys[i].equals(k) {
                        self.result = Some(self.values[i].copy());
                        return true;
                    }
                },
                None => {},
            }
            i = i + 1;
        }
        false
    }

    pub fn result(&self) -> (r: Option<Ref>)
        ensures
            match (r, self.result) {
                (Some(a), Some(b)) => a@ == b@,
                (None, None) => true,
                _ => false,
            },
    {
        match &self.result {
            Some(v) => Some(v.copy()),
            None => None,
        }
    }
}

} // verus!
