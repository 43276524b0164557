//! Sets of reservation ids.

use vstd::prelude::*;

use crate::u256::U256;

verus! {

/// A set of ids.
pub struct IdSet {
    ids: Vec<U256>,
}

impl View for IdSet {
    type V = Set<U256>;

    closed spec fn view(&self) -> Set<U256> {
        self.ids@.to_set()
    }
}

impl IdSet {
    /// Whether no id is held twice.
    pub closed spec fn wf(&self) -> bool {
        self.ids@.no_duplicates()
    }

    /// The set without ids.
    pub fn new() -> (set: Self)
        ensures
            set.wf(),
            set@ == Set::<U256>::empty(),
    {
        let set = IdSet { ids: Vec::new() };
        assert(set@ =~= Set::<U256>::empty());
        set
    }

    /// Where `id` is held, if it is in the set.
    fn find(&self, id: U256) -> (r: Option<usize>)
        ensures
            match r {
                Some(i) => i < self.ids@.len() && self.ids@[i as int] == id,
                None => !self@.contains(id),
            },
    {
        let mut i: usize = 0;
        while i < self.ids.len()
            invariant
                i <= self.ids@.len(),
                forall|j: int| 0 <= j < i ==> self.ids@[j] != id,
            decreases self.ids@.len() - i,
        {
            if self.ids[i] == id {
                return Some(i);
            }
            i = i + 1;
        }
        None
    }

    /// Whether `id` is in the set.
    pub fn contains(&self, id: U256) -> (r: bool)
        ensures
            r == self@.contains(id),
    {
        self.find(id).is_some()
    }

    /// Puts `id` into the set.
    pub fn insert(&mut self, id: U256)
        requires
            old(self).wf(),
        ensures
            final(self).wf(),
            final(self)@ == old(self)@.insert(id),
    {
        if self.find(id).is_none() {
            let ghost before = self.ids@;
            self.ids.push(id);
            proof {
                assert forall|other: U256| before.push(id).contains(other) <==> before.contains(
                    other,
                ) || other == id by {
                    if before.contains(other) {
                        assert(before.push(id)[before.index_of(other)] == other);
                    }
                    assert(before.push(id)[before.len() as int] == id);
                }
            }
        }
        assert(self@ =~= old(self)@.insert(id));
    }

    /// Takes `id` out of the set.
    pub fn remove(&mut self, id: U256)
        requires
            old(self).wf(),
        ensures
            final(self).wf(),
            final(self)@ == old(self)@.remove(id),
    {
        if let Some(i) = self.find(id) {
            let ghost before = self.ids@;
            self.ids.remove(i);
            proof {
                let after = before.remove(i as int);
                assert forall|other: U256| after.contains(other) <==> before.contains(other)
                    && other != id by {
                    if before.contains(other) && other != id {
                        let k = before.index_of(other);
                        assert(after[if k < i { k } else { k - 1 }] == other);
                    }
                    if after.contains(other) {
                        let k = after.index_of(other);
                        let l = if k < i { k } else { k + 1 };
                        assert(before[l] == other);
                        assert(before[l] != before[i as int]);
                    }
                }
            }
        }
        assert(self@ =~= old(self)@.remove(id));
    }

    /// The ids that are in this set or in `other`, each once.
    pub fn union_ids(&self, other: &IdSet) -> (ids: Vec<U256>)
        requires
            self.wf(),
        ensures
            ids@.no_duplicates(),
            ids@.to_set() == self@.union(other@),
    {
        let mut all = IdSet::new();
        let mut i: usize = 0;
        assert(self.ids@.take(0).to_set() =~= Set::<U256>::empty());
        while i < self.ids.len()
            invariant
                i <= self.ids@.len(),
                all.wf(),
                all@ == self.ids@.take(i as int).to_set(),
            decreases self.ids@.len() - i,
        {
            all.insert(self.ids[i]);
            proof {
                lemma_take_next(self.ids@, i as int);
            }
            i = i + 1;
        }
        assert(self.ids@.take(i as int) =~= self.ids@);
        let mut k: usize = 0;
        assert(all@ =~= self@.union(other.ids@.take(0).to_set()));
        while k < other.ids.len()
            invariant
                k <= other.ids@.len(),
                all.wf(),
                all@ == self@.union(other.ids@.take(k as int).to_set()),
            decreases other.ids@.len() - k,
        {
            let ghost before = all@;
            all.insert(other.ids[k]);
            proof {
                lemma_take_next(other.ids@, k as int);
                assert(all@ =~= self@.union(other.ids@.take(k + 1).to_set()));
            }
            k = k + 1;
        }
        assert(other.ids@.take(k as int) =~= other.ids@);
        all.ids
    }
}

/// The ids up to the next one are those up to here and that one.
proof fn lemma_take_next(ids: Seq<U256>, i: int)
    requires
        0 <= i < ids.len(),
    ensures
        ids.take(i + 1).to_set() == ids.take(i).to_set().insert(ids[i]),
{
    let shorter = ids.take(i);
    let longer = ids.take(i + 1);
    assert forall|id: U256| longer.contains(id) <==> shorter.contains(id) || id == ids[i] by {
        if shorter.contains(id) {
            assert(longer[shorter.index_of(id)] == id);
        }
        if longer.contains(id) && id != ids[i] {
            assert(shorter[longer.index_of(id)] == id);
        }
        assert(longer[i] == ids[i]);
    }
    assert(longer.to_set() =~= shorter.to_set().insert(ids[i]));
}

} // verus!
