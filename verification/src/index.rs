//! The in-memory index: a mapping from key to the place and cached copy of
//! the latest record for that key.
//!
//! The mapping is kept as a vector of key-entry slots with pairwise distinct
//! keys; its mathematical content is the finite map folded from those slots.

use vstd::prelude::*;

use crate::cmd::Cmd;
use crate::cmd::CmdIdx;
use crate::cmd::IdxModel;

verus! {

/// One slot of the index.
pub struct IdxPair {
    pub key: String,
    pub idx: CmdIdx,
}

/// The finite map folded from a sequence of slots; a later slot for the
/// same key overrides an earlier one.
pub open spec fn map_of(s: Seq<(Seq<char>, IdxModel)>) -> Map<Seq<char>, IdxModel>
    decreases s.len(),
{
    if s.len() == 0 {
        Map::empty()
    } else {
        map_of(s.drop_last()).insert(s.last().0, s.last().1)
    }
}

/// A slot's key is in the folded map.
pub proof fn lemma_map_of_member(s: Seq<(Seq<char>, IdxModel)>, i: int)
    requires
        0 <= i < s.len(),
        forall|a: int, b: int| 0 <= a < b < s.len() ==> s[a].0 != s[b].0,
    ensures
        map_of(s).contains_key(s[i].0),
        map_of(s)[s[i].0] == s[i].1,
    decreases s.len(),
{
    if i == s.len() - 1 {
    } else {
        lemma_map_of_member(s.drop_last(), i);
    }
}

/// A key that no slot holds is not in the folded map.
pub proof fn lemma_map_of_absent(s: Seq<(Seq<char>, IdxModel)>, k: Seq<char>)
    requires
        forall|i: int| 0 <= i < s.len() ==> s[i].0 != k,
    ensures
        !map_of(s).contains_key(k),
    decreases s.len(),
{
    if s.len() > 0 {
        lemma_map_of_absent(s.drop_last(), k);
    }
}

/// Every key of the folded map comes from some slot.
pub proof fn lemma_map_of_domain(s: Seq<(Seq<char>, IdxModel)>, k: Seq<char>)
    requires
        map_of(s).contains_key(k),
    ensures
        exists|i: int| 0 <= i < s.len() && s[i].0 == k,
    decreases s.len(),
{
    if s.len() > 0 {
        if s.last().0 == k {
            assert(s[s.len() - 1].0 == k);
        } else {
            lemma_map_of_domain(s.drop_last(), k);
            let i = choose|i: int| 0 <= i < s.drop_last().len() && s.drop_last()[i].0 == k;
            assert(s[i].0 == k);
        }
    }
}

/// Replacing the one slot that holds `k` inserts into the folded map.
pub proof fn lemma_map_of_update(s: Seq<(Seq<char>, IdxModel)>, i: int, v: IdxModel)
    requires
        0 <= i < s.len(),
        forall|a: int, b: int| 0 <= a < b < s.len() ==> s[a].0 != s[b].0,
    ensures
        map_of(s.update(i, (s[i].0, v))) == map_of(s).insert(s[i].0, v),
    decreases s.len(),
{
    let t = s.update(i, (s[i].0, v));
    if i == s.len() - 1 {
        assert(t.drop_last() =~= s.drop_last());
        assert(map_of(t) =~= map_of(s).insert(s[i].0, v));
    } else {
        assert(t.drop_last() =~= s.drop_last().update(i, (s[i].0, v)));
        lemma_map_of_update(s.drop_last(), i, v);
        assert(map_of(t) == map_of(s.drop_last()).insert(s[i].0, v).insert(s.last().0, s.last().1));
        assert(s[i].0 != s.last().0);
        assert(map_of(s.drop_last()).insert(s[i].0, v).insert(s.last().0, s.last().1) =~= map_of(
            s.drop_last(),
        ).insert(s.last().0, s.last().1).insert(s[i].0, v));
    }
}

/// The in-memory index.
pub struct Index {
    pub entries: Vec<IdxPair>,
}

impl Index {
    /// The slots, each as the key's characters beside the entry's shape.
    pub open spec fn slots(self) -> Seq<(Seq<char>, IdxModel)> {
        self.entries@.map_values(|p: IdxPair| (p.key@, p.idx@))
    }

    /// Keys are pairwise distinct.
    pub open spec fn wf(self) -> bool {
        forall|a: int, b: int|
            0 <= a < b < self.slots().len() ==> (#[trigger] self.slots()[a]).0 != (
            #[trigger] self.slots()[b]).0
    }

    /// The mapping this index holds.
    pub open spec fn model(self) -> Map<Seq<char>, IdxModel> {
        map_of(self.slots())
    }

    /// The empty index.
    pub fn new() -> (r: Index)
        ensures
            r.wf(),
            r.slots() == Seq::<(Seq<char>, IdxModel)>::empty(),
            r.model() == Map::<Seq<char>, IdxModel>::empty(),
    {
        let r = Index { entries: Vec::new() };
        proof {
            assert(r.slots() =~= Seq::<(Seq<char>, IdxModel)>::empty());
        }
        r
    }

    /// Where `k` sits among the slots, if anywhere.
    fn find(&self, k: &String) -> (r: Option<usize>)
        ensures
            r matches Some(i) ==> i < self.slots().len() && self.slots()[i as int].0 == k@,
            r is None ==> forall|i: int| 0 <= i < self.slots().len() ==> self.slots()[i].0 != k@,
    {
        let mut i: usize = 0;
        let n = self.entries.len();
        while i < n
            invariant
                0 <= i <= n,
                n == self.slots().len(),
                forall|j: int| 0 <= j < i ==> self.slots()[j].0 != k@,
            decreases n - i,
        {
            if self.entries[i].key.eq(k) {
                return Some(i);
            }
            i = i + 1;
        }
        None
    }

    /// Looks the key up.
    pub fn get(&self, k: &String) -> (r: Option<&CmdIdx>)
        requires
            self.wf(),
        ensures
            r matches Some(c) ==> self.model().contains_key(k@) && c@ == self.model()[k@],
            r is None ==> !self.model().contains_key(k@),
    {
        match self.find(k) {
            Some(i) => {
                proof {
                    lemma_map_of_member(self.slots(), i as int);
                }
                Some(&self.entries[i].idx)
            },
            None => {
                proof {
                    lemma_map_of_absent(self.slots(), k@);
                }
                None
            },
        }
    }

    /// Binds `k` to `idx`, overriding any earlier slot for `k`.
    pub fn insert(&mut self, k: String, idx: CmdIdx)
        requires
            old(self).wf(),
        ensures
            final(self).wf(),
            final(self).model() == old(self).model().insert(k@, idx@),
            final(self).slots().len() <= old(self).slots().len() + 1,
    {
        let ghost s0 = self.slots();
        match self.find(&k) {
            Some(i) => {
                proof {
                    lemma_map_of_update(s0, i as int, idx@);
                }
                self.entries.set(i, IdxPair { key: k, idx });
                proof {
                    assert(self.slots() =~= s0.update(i as int, (s0[i as int].0, idx@)));
                }
            },
            None => {
                self.entries.push(IdxPair { key: k, idx });
                proof {
                    assert(self.slots().drop_last() =~= s0);
                    assert(self.slots() =~= s0.push((self.slots().last().0, idx@)));
                }
            },
        }
    }

    /// Binds a key that is not yet in the index; the slot goes at the end.
    pub fn insert_fresh(&mut self, k: String, idx: CmdIdx)
        requires
            old(self).wf(),
            !old(self).model().contains_key(k@),
        ensures
            final(self).wf(),
            final(self).slots() == old(self).slots().push((k@, idx@)),
            final(self).model() == old(self).model().insert(k@, idx@),
    {
        let ghost s0 = self.slots();
        proof {
            if exists|i: int| 0 <= i < s0.len() && s0[i].0 == k@ {
                let i = choose|i: int| 0 <= i < s0.len() && s0[i].0 == k@;
                lemma_map_of_member(s0, i);
                assert(false);
            }
        }
        self.entries.push(IdxPair { key: k, idx });
        proof {
            assert(self.slots().drop_last() =~= s0);
            assert(self.slots() =~= s0.push((k@, idx@)));
        }
    }

    /// How many keys the index holds.
    pub fn len(&self) -> (r: usize)
        ensures
            r == self.slots().len(),
    {
        self.entries.len()
    }

    /// The slot at position `i`.
    pub fn pair_at(&self, i: usize) -> (r: &IdxPair)
        requires
            i < self.slots().len(),
        ensures
            r.key@ == self.slots()[i as int].0,
            r.idx@ == self.slots()[i as int].1,
    {
        &self.entries[i]
    }
}

} // verus!
