//! All nodes, or all quads, of a store, by id, up to the id that was last
//! given when the iterator was made.
use vstd::prelude::*;
use crate::graph::refs::{Ref, Size, len_as_i64, spec_len_as_i64};
use crate::graph::quad::QuadStore;
use crate::graph::iterator::Costs;
use crate::graph::iterator::tags::TagMap;
use crate::graph::memstore::iterator::{id_ref, make_id_ref, key_id};

verus! {

/// The nodes (`nodes`) or the quads of the store with ids up to `maxid`.
pub struct MemStoreAllIterator {
    pub maxid: i64,
    pub nodes: bool,
}

/// The number of ids from one up to `maxid`, plus one.
pub open spec fn id_span(maxid: i64) -> nat {
    (if maxid > 0 { maxid as nat } else { 0nat }) + 1
}

impl MemStoreAllIterator {
    pub fn new(maxid: i64, nodes: bool) -> (r: MemStoreAllIterator)
        ensures
            r.maxid == maxid,
            r.nodes == nodes,
    {
        MemStoreAllIterator { maxid, nodes }
    }

    /// One per step; the size is the number of nodes and quads of the
    /// store, exactly.
    pub fn stats<Q: QuadStore>(&self, qs: &Q) -> (r: Costs)
        ensures
            r.next_cost == 1,
            r.contains_cost == 1,
            r.size.exact,
    {
        Costs { contains_cost: 1, next_cost: 1, size: Size { value: len_as_i64(qs.prim_count()), exact: true } }
    }

    pub fn iterate(&self) -> (r: MemStoreAllIteratorNext)
        ensures
            r.wf(),
            r.maxid == self.maxid,
            r.nodes == self.nodes,
            r.cur is None,
            !r.done,
    {
        MemStoreAllIteratorNext { maxid: self.maxid, nodes: self.nodes, done: false, cur: None }
    }

    pub fn lookup(&self) -> (r: MemStoreAllIteratorContains)
        ensures
            r.maxid == self.maxid,
            r.nodes == self.nodes,
            r.cur is None,
            !r.done,
    {
        MemStoreAllIteratorContains { maxid: self.maxid, nodes: self.nodes, cur: None, done: false }
    }
}

/// Lists the ids in increasing order, asking the store for each next one.
pub struct MemStoreAllIteratorNext {
    pub maxid: i64,
    pub nodes: bool,
    pub done: bool,
    pub cur: Option<i64>,
}

impl MemStoreAllIteratorNext {
    pub open spec fn wf(&self) -> bool {
        self.cur matches Some(c) ==> 1 <= c <= self.maxid
    }

    pub open spec fn rank(&self) -> nat {
        if self.done {
            0
        } else {
            match self.cur {
                None => id_span(self.maxid),
                Some(c) => (self.maxid - c) as nat,
            }
        }
    }

    /// Moves to the least id above the current one (up to `maxid`) of a
    /// node or a quad, as asked; once there is none, it is done.
    pub fn next<Q: QuadStore>(&mut self, qs: &Q) -> (r: bool)
        requires
            old(self).wf(),
        ensures
            final(self).wf(),
            r ==> final(self).rank() < old(self).rank(),
            !r ==> final(self).rank() <= old(self).rank(),
            r ==> final(self).cur is Some,
            !r ==> final(self).done,
            final(self).maxid == old(self).maxid,
            final(self).nodes == old(self).nodes,
            old(self).done ==> !r && *final(self) == *old(self),
    {
        if self.done {
            return false;
        }
        match qs.next_prim_id(self.cur, self.maxid, self.nodes) {
            Some(i) => {
                self.cur = Some(i);
                true
            },
            None => {
                self.cur = None;
                self.done = true;
                false
            },
        }
    }

    pub fn next_path(&mut self) -> (r: bool)
        ensures
            !r,
            *final(self) == *old(self),
    {
        false
    }

    pub fn result(&self) -> (r: Option<Ref>)
        ensures
            match (r, self.cur) {
                (Some(a), Some(i)) => a@ == id_ref(i),
                (None, None) => true,
                _ => false,
            },
    {
        match self.cur {
            Some(c) => Some(make_id_ref(c)),
            None => None,
        }
    }

    pub fn err(&self) -> (r: Option<String>)
        ensures
            r is None,
    {
        None
    }

    pub fn tag_results(&self, dst: &mut TagMap)
        ensures
            *final(dst) == *old(dst),
    {
    }

    /// Nothing more is listed after a close.
    pub fn close(&mut self) -> (r: Result<(), String>)
        ensures
            r is Ok,
            final(self).done,
            final(self).cur == old(self).cur,
    {
        self.done = true;
        Ok(())
    }
}

/// Checks whether a reference is to a node or quad of the store.
pub struct MemStoreAllIteratorContains {
    pub maxid: i64,
    pub nodes: bool,
    pub cur: Option<i64>,
    pub done: bool,
}

impl MemStoreAllIteratorContains {
    /// Whether the key of `v` is the id of a node or quad of the store; it
    /// becomes the current id. After a close, nothing is in.
    pub fn contains<Q: QuadStore>(&mut self, qs: &Q, v: &Ref) -> (r: bool)
        ensures
            old(self).done ==> !r,
            r ==> final(self).cur == key_id(v@),
            key_id(v@) is None ==> !r,
            !old(self).done ==> (key_id(v@) matches Some(i) ==> r == qs.spec_has_prim(i)),
            old(self).done ==> *final(self) == *old(self),
    {
        if self.done {
            return false;
        }
        let id = match v.key() {
            Some(k) => k.as_i64(),
            None => None,
        };
        match id {
            Some(i) => {
                if qs.has_prim(i) {
                    self.cur = Some(i);
                    true
                } else {
                    self.cur = None;
                    false
                }
            },
            None => false,
        }
    }

    pub fn next_path(&mut self) -> (r: bool)
        ensures
            !r,
            *final(self) == *old(self),
    {
        false
    }

    pub fn result(&self) -> (r: Option<Ref>)
        ensures
            match (r, self.cur) {
                (Some(a), Some(i)) => a@ == id_ref(i),
                (None, None) => true,
                _ => false,
            },
    {
        match self.cur {
            Some(c) => Some(make_id_ref(c)),
            None => None,
        }
    }

    pub fn err(&self) -> (r: Option<String>)
        ensures
            r is None,
    {
        None
    }

    pub fn tag_results(&self, dst: &mut TagMap)
        ensures
            *final(dst) == *old(dst),
    {
    }

    pub fn close(&mut self) -> (r: Result<(), String>)
        ensures
            r is Ok,
            final(self).done,
    {
        self.done = true;
        Ok(())
    }
}

} // verus!
