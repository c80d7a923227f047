//! Maps from tag names to references, as built by `tag_results`.
use vstd::prelude::*;
use crate::graph::refs::{Ref, RefV};
use crate::strutil::str_eq;

verus! {

/// The (name, reference) pairs of a list of insertions, as views.
pub open spec fn entries_view(s: Seq<(String, Ref)>) -> Seq<(Seq<char>, RefV)> {
    s.map_values(|e: (String, Ref)| (e.0@, e.1@))
}

/// The map that a sequence of insertions builds: later insertions overwrite
/// earlier ones.
pub open spec fn tag_map_of(s: Seq<(Seq<char>, RefV)>) -> Map<Seq<char>, RefV>
    decreases s.len(),
{
    if s.len() == 0 {
        Map::empty()
    } else {
        tag_map_of(s.drop_last()).insert(s.last().0, s.last().1)
    }
}

/// A map from tag names to references, kept as the list of insertions.
pub struct TagMap {
    pub entries: Vec<(String, Ref)>,
}

impl View for TagMap {
    type V = Map<Seq<char>, RefV>;

    open spec fn view(&self) -> Map<Seq<char>, RefV> {
        tag_map_of(entries_view(self.entries@))
    }
}

/// Whether the insertion at `j` is the last one under its name.
pub open spec fn last_under_name(s: Seq<(Seq<char>, RefV)>, j: int) -> bool {
    forall|l: int| j < l < s.len() ==> (#[trigger] s[l]).0 != s[j].0
}

/// The map built by `s` holds, under the name of its last insertion under
/// that name, the reference of that insertion.
pub proof fn lemma_tag_map_last(s: Seq<(Seq<char>, RefV)>, j: int)
    requires
        0 <= j < s.len(),
        last_under_name(s, j),
    ensures
        tag_map_of(s).contains_key(s[j].0),
        tag_map_of(s)[s[j].0] == s[j].1,
    decreases s.len(),
{
    if j < s.len() - 1 {
        let p = s.drop_last();
        assert forall|l: int| j < l < p.len() implies (#[trigger] p[l]).0 != p[j].0 by {
            assert(p[l] == s[l]);
        }
        lemma_tag_map_last(p, j);
        assert(s[s.len() - 1].0 != s[j].0);
    }
}

/// Every name of the map built by `s` has a last insertion in `s`.
pub proof fn lemma_tag_map_key_last(s: Seq<(Seq<char>, RefV)>, k: Seq<char>)
    requires
        tag_map_of(s).contains_key(k),
    ensures
        exists|j: int| 0 <= j < s.len() && (#[trigger] s[j]).0 == k && last_under_name(s, j),
    decreases s.len(),
{
    if s.last().0 == k {
        assert(s[s.len() - 1].0 == k && last_under_name(s, s.len() - 1));
    } else {
        let p = s.drop_last();
        lemma_tag_map_key_last(p, k);
        let j = choose|j: int| 0 <= j < p.len() && (#[trigger] p[j]).0 == k && last_under_name(p, j);
        assert(s[j] == p[j]);
        assert forall|l: int| j < l < s.len() implies (#[trigger] s[l]).0 != s[j].0 by {
            if l < p.len() {
                assert(p[l] == s[l]);
            }
        }
    }
}

/// The insertions of `s` without those under `k`.
pub open spec fn without_key(s: Seq<(Seq<char>, RefV)>, k: Seq<char>) -> Seq<(Seq<char>, RefV)>
    decreases s.len(),
{
    if s.len() == 0 {
        s
    } else if s.last().0 == k {
        without_key(s.drop_last(), k)
    } else {
        without_key(s.drop_last(), k).push(s.last())
    }
}

proof fn lemma_tag_map_without(s: Seq<(Seq<char>, RefV)>, k: Seq<char>)
    ensures
        tag_map_of(without_key(s, k)) == tag_map_of(s).remove(k),
    decreases s.len(),
{
    if s.len() == 0 {
        assert(tag_map_of(s).remove(k) =~= Map::empty());
    } else {
        let p = s.drop_last();
        let e = s.last();
        lemma_tag_map_without(p, k);
        if e.0 == k {
            assert(tag_map_of(s).remove(k) =~= tag_map_of(p).remove(k));
        } else {
            let t = without_key(s, k);
            assert(t.drop_last() =~= without_key(p, k));
            assert(tag_map_of(t) =~= tag_map_of(s).remove(k));
        }
    }
}

impl TagMap {
    /// Whether no tag is stored.
    pub fn is_empty(&self) -> (r: bool)
        ensures
            r == (self@ =~= Map::<Seq<char>, RefV>::empty()),
    {
        proof {
            if self.entries@.len() > 0 {
                let s = entries_view(self.entries@);
                assert(tag_map_of(s).contains_key(s.last().0));
            } else {
                assert(entries_view(self.entries@) =~= Seq::empty());
            }
        }
        self.entries.len() == 0
    }

    pub fn new() -> (r: TagMap)
        ensures
            r@ == Map::<Seq<char>, RefV>::empty(),
    {
        let r = TagMap { entries: Vec::new() };
        proof {
            assert(entries_view(r.entries@) =~= Seq::empty());
        }
        r
    }

    pub fn insert(&mut self, k: String, v: Ref)
        ensures
            final(self)@ == old(self)@.insert(k@, v@),
    {
        self.entries.push((k, v));
        proof {
            assert(entries_view(self.entries@).drop_last() =~= entries_view(old(self).entries@));
        }
    }

    pub fn remove(&mut self, k: &String)
        ensures
            final(self)@ == old(self)@.remove(k@),
    {
        let mut kept: Vec<(String, Ref)> = Vec::new();
        let mut i: usize = 0;
        while i < self.entries.len()
            invariant
                i <= self.entries.len(),
                self.entries == old(self).entries,
                entries_view(kept@) == without_key(entries_view(self.entries@.take(i as int)), k@),
            decreases self.entries.len() - i,
        {
            let e = &self.entries[i];
            proof {
                assert(entries_view(self.entries@.take(i + 1)).drop_last()
                    =~= entries_view(self.entries@.take(i as int)));
            }
            if !str_eq(&e.0, k) {
                let ghost before = kept@;
                kept.push((e.0.clone(), e.1.copy()));
                proof {
                    assert(entries_view(kept@) =~= entries_view(before).push((e.0@, e.1@)));
                }
            }
            i = i + 1;
        }
        proof {
            assert(self.entries@.take(self.entries.len() as int) =~= self.entries@);
            lemma_tag_map_without(entries_view(self.entries@), k@);
        }
        self.entries = kept;
    }

    /// The reference stored under `k`, if any.
    pub fn get(&self, k: &String) -> (r: Option<Ref>)
        ensures
            match r {
                Some(v) => self@.contains_key(k@) && self@[k@] == v@,
                None => !self@.contains_key(k@),
            },
    {
        let mut i = self.entries.len();
        proof {
            assert(self.entries@.take(i as int) =~= self.entries@);
        }
        while i > 0
            invariant
                i <= self.entries.len(),
                tag_map_of(entries_view(self.entries@.take(i as int))).contains_key(k@) == self@.contains_key(k@),
                self@.contains_key(k@) ==> tag_map_of(entries_view(self.entries@.take(i as int)))[k@] == self@[k@],
            decreases i,
        {
            let e = &self.entries[i - 1];
            proof {
                assert(entries_view(self.entries@.take(i as int)).drop_last()
                    =~= entries_view(self.entries@.take(i - 1)));
            }
            if str_eq(&e.0, k) {
                return Some(e.1.copy());
            }
            i = i - 1;
        }
        proof {
            assert(entries_view(self.entries@.take(0)) =~= Seq::empty());
        }
        None
    }

    /// Inserts every entry of `other`, in order.
    pub fn extend(&mut self, other: &TagMap)
        ensures
            final(self)@ == old(self)@.union_prefer_right(other@),
    {
        let mut i: usize = 0;
        proof {
            assert(entries_view(other.entries@.take(0)) =~= Seq::empty());
            assert(old(self)@.union_prefer_right(Map::empty()) =~= old(self)@);
        }
        while i < other.entries.len()
            invariant
                i <= other.entries.len(),
                self@ == old(self)@.union_prefer_right(tag_map_of(entries_view(other.entries@.take(i as int)))),
            decreases other.entries.len() - i,
        {
            let e = &other.entries[i];
            self.insert(e.0.clone(), e.1.copy());
            proof {
                assert(entries_view(other.entries@.take(i + 1)).drop_last()
                    =~= entries_view(other.entries@.take(i as int)));
                assert(self@ =~= old(self)@.union_prefer_right(tag_map_of(entries_view(other.entries@.take(i + 1)))));
            }
            i = i + 1;
        }
        proof {
            assert(other.entries@.take(other.entries.len() as int) =~= other.entries@);
        }
    }

    pub fn copy(&self) -> (r: TagMap)
        ensures
            r@ == self@,
    {
        let mut r = TagMap::new();
        r.extend(self);
        proof {
            assert(r@ =~= self@);
        }
        r
    }
}

} // verus!
