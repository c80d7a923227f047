//! Saves each result under a set of tags.
use vstd::prelude::*;
use crate::graph::refs::{Ref, RefV};
use crate::graph::quad::QuadStore;
use crate::graph::iterator::{Shape, Scanner, Index, Tags, max_nat};
use crate::graph::iterator::tags::TagMap;

verus! {

/// Saves the results of a shape under `tag` too: a saving shape gets the
/// tag added, any other shape is wrapped in one.
pub fn tag(shape: Shape, name: String) -> (r: Shape)
    ensures
        r matches Shape::Save(s) && match shape {
            Shape::Save(o) => s.it == o.it && s.tags.tags@ == o.tags.tags@.push(name)
                && s.tags.fixed_tags@ == o.tags.fixed_tags@,
            _ => *s.it == shape && s.tags.tags@ == seq![name] && s.tags.fixed_tags@.is_empty(),
        },
{
    let ghost g = name;
    let mut v: Vec<String> = Vec::new();
    v.push(name);
    proof {
        assert(v@ =~= seq![g]);
    }
    match shape {
        Shape::Save(mut o) => {
            o.tags.add_tags(&v);
            Shape::Save(o)
        },
        other => Shape::Save(Save::new(other, v)),
    }
}

/// A shape with the results of `it`, each saved under `tags`.
pub struct Save {
    pub it: Box<Shape>,
    pub tags: Tags,
}

impl Save {
    pub fn new(it: Shape, tags: Vec<String>) -> (r: Save)
        ensures
            *r.it == it,
            r.tags.tags@ == tags@,
            r.tags.fixed_tags@.is_empty(),
    {
        let t = Tags::new(tags);
        proof {
            assert(t.fixed_tags@ =~= Map::empty());
        }
        Save { it: Box::new(it), tags: t }
    }

    pub open spec fn height(&self) -> nat 
    {
        1 + self.it.height()
    }

    pub fn iterate<Q: QuadStore>(&self, qs: &Q) -> (r: SaveNext)
        ensures
            r.wf(qs.quad_bound()),
            r.height() <= self.height(),
            r.rank() <= self.it.max_rank(qs.quad_bound()),
            r.tags.tags@ == self.tags.tags@,
            crate::graph::iterator::scans_as(*self.it, *r.it),
        decreases self, 0nat,
    {
        SaveNext { it: Box::new(self.it.iterate(qs)), tags: self.tags.copy() }
    }

    pub fn lookup<Q: QuadStore>(&self, qs: &Q) -> (r: SaveContains)
        ensures
            r.it.path_bound() <= self.it.max_path(qs.quad_bound()),
            r.wf(qs.quad_bound()),
            r.height() <= self.height(),
            r.tags.tags@ == self.tags.tags@,
            crate::graph::iterator::checks_as(*self.it, *r.it),
        decreases self, 0nat,
    {
        SaveContains { it: Box::new(self.it.lookup(qs)), tags: self.tags.copy() }
    }
}

/// Adds, under every tag of `tags`, the current result (when there is one),
/// and then the fixed tags.
fn save_tags(tags: &Tags, v: Option<Ref>, dst: &mut TagMap)
    ensures
        saved_under(final(dst)@, tags, crate::graph::iterator::opt_ref_view(v)),
        final(dst)@ == saved_into(old(dst)@, tags, crate::graph::iterator::opt_ref_view(v)),
{
    let ghost gv = crate::graph::iterator::opt_ref_view(v);
    let ghost m0 = dst@;
    match v {
        Some(r) => {
            let mut i: usize = 0;
            while i < tags.tags.len()
                invariant
                    dst@ == m0.union_prefer_right(Map::new(
                        |k: Seq<char>| exists|j: int| 0 <= j < i && #[trigger] tags.tags@[j]@ == k,
                        |k: Seq<char>| r@,
                    )),
                    i <= tags.tags.len(),
                    forall|j: int| 0 <= j < i ==> #[trigger] dst@.contains_key(tags.tags@[j]@)
                        && dst@[tags.tags@[j]@] == r@,
                decreases tags.tags.len() - i,
            {
                let ghost before = dst@;
                dst.insert(tags.tags[i].clone(), r.copy());
                proof {
                    assert(dst@ =~= m0.union_prefer_right(Map::new(
                        |k: Seq<char>| exists|j: int| 0 <= j < i + 1 && #[trigger] tags.tags@[j]@ == k,
                        |k: Seq<char>| r@,
                    )));
                    assert forall|j: int| 0 <= j < i + 1 implies #[trigger] dst@.contains_key(tags.tags@[j]@)
                        && dst@[tags.tags@[j]@] == r@ by {
                        if j < i {
                            assert(before.contains_key(tags.tags@[j]@));
                        }
                    }
                }
                i = i + 1;
            }
        },
        None => {},
    }
    proof {
        match gv {
            Some(x) => {
                assert(dst@ =~= m0.union_prefer_right(Map::new(
                    |k: Seq<char>| exists|j: int| 0 <= j < tags.tags@.len() && #[trigger] tags.tags@[j]@ == k,
                    |k: Seq<char>| x,
                )));
            },
            None => {},
        }
    }
    let ghost mid = dst@;
    dst.extend(&tags.fixed_tags);
    proof {
        assert forall|k: Seq<char>| #[trigger] tags.fixed_tags@.contains_key(k) implies dst@.contains_key(k)
            && dst@[k] == tags.fixed_tags@[k] by {}
        if let Some(x) = gv {
            assert forall|j: int| 0 <= j < tags.tags@.len() && !tags.fixed_tags@.contains_key(#[trigger] tags.tags@[j]@)
                implies dst@.contains_key(tags.tags@[j]@) && dst@[tags.tags@[j]@] == x by {
                assert(mid.contains_key(tags.tags@[j]@));
            }
        }
    }
}

/// The map `m` after saving: the result `v` (when there is one) recorded
/// under every tag of `tags`, then the fixed tags.
pub open spec fn saved_into(m: Map<Seq<char>, RefV>, tags: &Tags, v: Option<RefV>) -> Map<Seq<char>, RefV> {
    let with = match v {
        Some(x) => m.union_prefer_right(Map::new(
            |k: Seq<char>| exists|j: int| 0 <= j < tags.tags@.len() && #[trigger] tags.tags@[j]@ == k,
            |k: Seq<char>| x,
        )),
        None => m,
    };
    with.union_prefer_right(tags.fixed_tags@)
}

/// `m` holds the fixed tags of `tags`, and the result `v` (when there is
/// one) under each other tag.
pub open spec fn saved_under(m: Map<Seq<char>, RefV>, tags: &Tags, v: Option<RefV>) -> bool {
    &&& forall|k: Seq<char>| #[trigger] tags.fixed_tags@.contains_key(k) ==> m.contains_key(k) && m[k] == tags.fixed_tags@[k]
    &&& v matches Some(x) ==> forall|j: int| 0 <= j < tags.tags@.len() && !tags.fixed_tags@.contains_key(#[trigger] tags.tags@[j]@)
        ==> m.contains_key(tags.tags@[j]@) && m[tags.tags@[j]@] == x
}

pub struct SaveNext {
    pub it: Box<Scanner>,
    pub tags: Tags,
}

impl SaveNext {
    pub open spec fn height(&self) -> nat 
    {
        1 + self.it.height()
    }

    pub open spec fn wf(&self, qb: nat) -> bool 
    {
        self.it.wf(qb)
    }

    pub open spec fn rank(&self) -> nat 
    {
        self.it.rank()
    }

    pub open spec fn path_rank(&self) -> nat 
    {
        self.it.path_rank()
    }

    pub fn next<Q: QuadStore>(&mut self, qs: &Q) -> (r: bool)
        requires
            old(self).wf(qs.quad_bound()),
        ensures
            final(self).wf(qs.quad_bound()),
            final(self).height() <= old(self).height(),
            r ==> final(self).rank() < old(self).rank(),
            !r ==> final(self).rank() <= old(self).rank(),
            final(self).tags == old(self).tags,
            old(self).it.next_step(*final(self).it, r, qs.quad_bound()),
        decreases old(self).height(), 0nat,
    {
        self.it.next(qs)
    }

    pub fn next_path<Q: QuadStore>(&mut self, qs: &Q) -> (r: bool)
        requires
            old(self).wf(qs.quad_bound()),
        ensures
            final(self).wf(qs.quad_bound()),
            final(self).height() <= old(self).height(),
            final(self).rank() <= old(self).rank(),
            r ==> final(self).path_rank() < old(self).path_rank(),
            !r ==> final(self).path_rank() <= old(self).path_rank(),
            old(self).it.path_step(*final(self).it, r, qs.quad_bound()),
        decreases old(self).height(), 0nat,
    {
        self.it.next_path(qs)
    }

    pub fn result(&self) -> (r: Option<Ref>)
        ensures
            crate::graph::iterator::opt_ref_view(r) == self.it.spec_result(),
        decreases self.height(), 0nat,
    {
        self.it.result()
    }

    pub fn err(&self) -> (r: Option<String>)
        ensures
            crate::graph::iterator::opt_text(r) == self.it.spec_err(),
            r is Some == self.it.spec_failed(),
        decreases self.height(), 0nat,
    {
        self.it.err()
    }

    /// The tags of the underlying scanner, then the current result under
    /// every tag, then the fixed tags.
    pub fn tag_results(&self, dst: &mut TagMap)
        ensures
            saved_under(final(dst)@, &self.tags, self.it.spec_result()),
            exists|mid: Map<Seq<char>, RefV>| #[trigger] self.it.tags_step(old(dst)@, mid)
                && final(dst)@ == saved_into(mid, &self.tags, self.it.spec_result()),
        decreases self.height(), 0nat,
    {
        self.it.tag_results(dst);
        let v = self.it.result();
        save_tags(&self.tags, v, dst);
    }

    pub fn close(&mut self) -> (r: Result<(), String>)
        ensures
            final(self).height() <= old(self).height(),
        decreases old(self).height(), 0nat,
    {
        self.it.close()
    }
}

pub struct SaveContains {
    pub it: Box<Index>,
    pub tags: Tags,
}

impl SaveContains {
    /// A bound on `path_rank` that no operation changes.
    pub open spec fn path_bound(&self) -> nat {
        self.it.path_bound()
    }

    pub open spec fn height(&self) -> nat 
    {
        1 + self.it.height()
    }

    pub open spec fn wf(&self, qb: nat) -> bool 
    {
        self.it.wf(qb)
    }

    pub open spec fn path_rank(&self) -> nat 
    {
        self.it.path_rank()
    }

    pub fn contains<Q: QuadStore>(&mut self, qs: &Q, v: &Ref) -> (r: bool)
        requires
            old(self).wf(qs.quad_bound()),
        ensures
            final(self).path_bound() == old(self).path_bound(),
            final(self).wf(qs.quad_bound()),
            final(self).height() <= old(self).height(),
            final(self).tags == old(self).tags,
            old(self).it.contains_step(*final(self).it, v@, r, qs.quad_bound()),
        decreases old(self).height(), 0nat,
    {
        self.it.contains(qs, v)
    }

    pub fn next_path<Q: QuadStore>(&mut self, qs: &Q) -> (r: bool)
        requires
            old(self).wf(qs.quad_bound()),
        ensures
            final(self).path_bound() == old(self).path_bound(),
            final(self).wf(qs.quad_bound()),
            final(self).height() <= old(self).height(),
            r ==> final(self).path_rank() < old(self).path_rank(),
            !r ==> final(self).path_rank() <= old(self).path_rank(),
            old(self).it.path_step(*final(self).it, r, qs.quad_bound()),
        decreases old(self).height(), 0nat,
    {
        self.it.next_path(qs)
    }

    pub fn result(&self) -> (r: Option<Ref>)
        ensures
            crate::graph::iterator::opt_ref_view(r) == self.it.spec_result(),
        decreases self.height(), 0nat,
    {
        self.it.result()
    }

    pub fn err(&self) -> (r: Option<String>)
        ensures
            crate::graph::iterator::opt_text(r) == self.it.spec_err(),
            r is Some == self.it.spec_failed(),
        decreases self.height(), 0nat,
    {
        self.it.err()
    }

    pub fn tag_results(&self, dst: &mut TagMap)
        ensures
            saved_under(final(dst)@, &self.tags, self.it.spec_result()),
            exists|mid: Map<Seq<char>, RefV>| #[trigger] self.it.tags_step(old(dst)@, mid)
                && final(dst)@ == saved_into(mid, &self.tags, self.it.spec_result()),
        decreases self.height(), 0nat,
    {
        self.it.tag_results(dst);
        let v = self.it.result();
        save_tags(&self.tags, v, dst);
    }

    pub fn close(&mut self) -> (r: Result<(), String>)
        ensures
            final(self).height() <= old(self).height(),
        decreases old(self).height(), 0nat,
    {
        self.it.close()
    }
}

} // verus!
