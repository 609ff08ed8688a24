//! A set of message numbers.

use std::collections::HashSet;

use vstd::prelude::*;

verus! {

broadcast use vstd::std_specs::hash::group_hash_axioms;

/// A set of message numbers.
#[derive(Debug)]
pub struct IdSet {
    ids: HashSet<i64>,
}

impl View for IdSet {
    type V = Set<i64>;

    closed spec fn view(&self) -> Set<i64> {
        self.ids@
    }
}

/// Whether a number is among the first `n` of a walk over a set.
spec fn walked(walk: Seq<&i64>, n: int, id: i64) -> bool {
    exists|j: int| 0 <= j < n && *(#[trigger] walk[j]) == id
}

proof fn lemma_one_more(walk: Seq<&i64>, n: int)
    requires
        0 <= n < walk.len(),
    ensures
        forall|id: i64| #[trigger]
            walked(walk, n + 1, id) == (walked(walk, n, id) || *walk[n] == id),
{
    assert forall|id: i64| #[trigger]
        walked(walk, n + 1, id) == (walked(walk, n, id) || *walk[n] == id) by {
        if walked(walk, n, id) {
            let j = choose|j: int| 0 <= j < n && *(#[trigger] walk[j]) == id;
            assert(0 <= j < n + 1 && *walk[j] == id);
        }
    }
}

broadcast proof fn lemma_whole_walk(walk: Seq<&i64>, id: i64)
    ensures
        #[trigger] walk.unref().to_set().contains(id) == walked(walk, walk.len() as int, id),
{
    if walk.unref().contains(id) {
        let j = choose|j: int| 0 <= j < walk.unref().len() && walk.unref()[j] == id;
        assert(*walk[j] == id);
    }
    if walked(walk, walk.len() as int, id) {
        let j = choose|j: int| 0 <= j < walk.len() && *(#[trigger] walk[j]) == id;
        assert(walk.unref()[j] == id);
    }
}

impl IdSet {
    /// No number.
    pub fn new() -> (r: IdSet)
        ensures
            r@ == Set::<i64>::empty(),
    {
        IdSet { ids: HashSet::new() }
    }

    /// Whether `id` is in the set.
    pub fn contains(&self, id: i64) -> (r: bool)
        ensures
            r == self@.contains(id),
    {
        self.ids.contains(&id)
    }

    /// Adds `id`; tells whether it is new.
    pub fn insert(&mut self, id: i64) -> (fresh: bool)
        ensures
            fresh == !old(self)@.contains(id),
            final(self)@ == old(self)@.insert(id),
    {
        self.ids.insert(id)
    }

    /// The numbers of a list.
    pub fn from_list(list: &Vec<i64>) -> (r: IdSet)
        ensures
            r@ == list@.to_set(),
    {
        let mut r = IdSet::new();
        let mut i: usize = 0;
        assert(list@.take(0).to_set() =~= Set::<i64>::empty());
        while i < list.len()
            invariant
                i <= list@.len(),
                r@ == list@.take(i as int).to_set(),
            decreases list@.len() - i,
        {
            r.insert(list[i]);
            proof {
                let front = list@.take(i as int);
                let next = list@.take(i + 1);
                assert(next =~= front.push(list@[i as int]));
                assert forall|x: i64| #[trigger] next.to_set().contains(x) == front.to_set().insert(
                    list@[i as int],
                ).contains(x) by {
                    if front.contains(x) {
                        let j = choose|j: int| 0 <= j < front.len() && front[j] == x;
                        assert(next[j] == x);
                    }
                    if x == list@[i as int] {
                        assert(next[i as int] == x);
                    }
                }
                assert(next.to_set() =~= front.to_set().insert(list@[i as int]));
            }
            i += 1;
        }
        assert(list@.take(i as int) =~= list@);
        r
    }

    /// Keeps only what `other` holds too.
    pub fn keep_common(&mut self, other: &IdSet)
        ensures
            final(self)@ == old(self)@.intersect(other@),
    {
        broadcast use lemma_whole_walk;

        let mut kept = IdSet::new();
        let ghost all = self@;
        for id in it: self.ids.iter()
            invariant
                it.seq().unref().to_set() == all,
                forall|id: i64|
                    kept@.contains(id) == (walked(it.seq(), it.index(), id) && other@.contains(id)),
        {
            if other.contains(*id) {
                kept.insert(*id);
            }
            proof {
                lemma_one_more(it.seq(), it.index());
            }
        }
        *self = kept;
        assert(self@ =~= all.intersect(other@));
    }

    /// Whether every number is in `other` too.
    pub fn within(&self, other: &IdSet) -> (r: bool)
        ensures
            r == self@.subset_of(other@),
    {
        broadcast use lemma_whole_walk;

        for id in it: self.ids.iter()
            invariant
                it.seq().unref().to_set() == self@,
                forall|id: i64| walked(it.seq(), it.index(), id) ==> other@.contains(id),
        {
            proof {
                lemma_one_more(it.seq(), it.index());
            }
            if !other.contains(*id) {
                assert(walked(it.seq(), it.seq().len() as int, *id));
                assert(self@.contains(*id));
                return false;
            }
        }
        assert(self@.subset_of(other@));
        true
    }

    /// Whether no number is in `other`.
    pub fn apart_from(&self, other: &IdSet) -> (r: bool)
        ensures
            r == self@.disjoint(other@),
    {
        broadcast use lemma_whole_walk;

        for id in it: self.ids.iter()
            invariant
                it.seq().unref().to_set() == self@,
                forall|id: i64| walked(it.seq(), it.index(), id) ==> !other@.contains(id),
        {
            proof {
                lemma_one_more(it.seq(), it.index());
            }
            if other.contains(*id) {
                assert(walked(it.seq(), it.seq().len() as int, *id));
                assert(self@.contains(*id));
                return false;
            }
        }
        assert(self@.disjoint(other@));
        true
    }

    /// Adds every number of `other`.
    pub fn add_all(&mut self, other: &IdSet)
        ensures
            final(self)@ == old(self)@.union(other@),
    {
        broadcast use lemma_whole_walk;

        for id in it: other.ids.iter()
            invariant
                it.seq().unref().to_set() == other@,
                forall|id: i64|
                    self@.contains(id) == (old(self)@.contains(id) || walked(
                        it.seq(),
                        it.index(),
                        id,
                    )),
        {
            self.insert(*id);
            proof {
                lemma_one_more(it.seq(), it.index());
            }
        }
        assert(self@ =~= old(self)@.union(other@));
    }
}

impl Clone for IdSet {
    fn clone(&self) -> (r: IdSet)
        ensures
            r@ == self@,
    {
        let mut r = IdSet::new();
        r.add_all(self);
        assert(r@ =~= self@);
        r
    }
}

} // verus!
