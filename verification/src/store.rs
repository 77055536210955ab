//! Small association stores backing the sparse voxel world: vectors of
//! key-value entries with pairwise-distinct keys, viewed in specifications
//! as finite maps.

use vstd::prelude::*;
use crate::math::{IVec2, IVec3};
use crate::voxels::VoxelInfo;

verus! {

/// The finite map described by an entry sequence; later entries win, though
/// the stores below keep their keys distinct so order never matters.
pub open spec fn assoc_map<K, V>(s: Seq<(K, V)>) -> Map<K, V>
    decreases s.len(),
{
    if s.len() == 0 {
        Map::empty()
    } else {
        assoc_map(s.drop_last()).insert(s.last().0, s.last().1)
    }
}

/// Pairwise-distinct keys.
pub open spec fn distinct_keys<K, V>(s: Seq<(K, V)>) -> bool {
    forall|i: int, j: int| #![trigger s[i], s[j]] 0 <= j < i < s.len() ==> s[i].0 != s[j].0
}

/// A key is in the map of an entry sequence exactly when some entry
/// carries it.
pub proof fn lemma_assoc_contains<K, V>(s: Seq<(K, V)>, k: K)
    ensures
        assoc_map(s).dom().contains(k) <==> exists|i: int| 0 <= i < s.len() && (#[trigger] s[i]).0 == k,
    decreases s.len(),
{
    if s.len() > 0 {
        lemma_assoc_contains(s.drop_last(), k);
        if s.last().0 == k {
            assert((s[s.len() - 1]).0 == k);
        } else {
            if assoc_map(s).dom().contains(k) {
                let i = choose|i: int| 0 <= i < s.drop_last().len() && (#[trigger] s.drop_last()[i]).0 == k;
                assert((s[i]).0 == k);
            }
            if exists|i: int| 0 <= i < s.len() && (#[trigger] s[i]).0 == k {
                let i = choose|i: int| 0 <= i < s.len() && (#[trigger] s[i]).0 == k;
                assert(i < s.len() - 1);
                assert((s.drop_last()[i]).0 == k);
            }
        }
    }
}

/// With distinct keys, the entry holding a key gives the map's value there.
pub proof fn lemma_assoc_value<K, V>(s: Seq<(K, V)>, i: int)
    requires
        distinct_keys(s),
        0 <= i < s.len(),
    ensures
        assoc_map(s).dom().contains(s[i].0),
        assoc_map(s)[s[i].0] == s[i].1,
    decreases s.len(),
{
    lemma_assoc_contains(s, s[i].0);
    if i == s.len() - 1 {
    } else {
        assert(s[s.len() - 1].0 != s[i].0);
        assert(s.drop_last()[i] == s[i]);
        assert(distinct_keys(s.drop_last())) by {
            assert(forall|a: int, b: int| #![trigger s.drop_last()[a], s.drop_last()[b]]
                0 <= b < a < s.drop_last().len() ==> s[a].0 != s[b].0);
        }
        lemma_assoc_value(s.drop_last(), i);
    }
}

/// Removing the entry at `i` removes exactly its key from the map.
pub proof fn lemma_assoc_remove<K, V>(s: Seq<(K, V)>, i: int)
    requires
        distinct_keys(s),
        0 <= i < s.len(),
    ensures
        assoc_map(s.remove(i)) == assoc_map(s).remove(s[i].0),
    decreases s.len(),
{
    let k = s[i].0;
    if i == s.len() - 1 {
        assert(s.remove(i) =~= s.drop_last());
        lemma_assoc_contains(s.drop_last(), k);
        assert(!assoc_map(s.drop_last()).dom().contains(k)) by {
            if assoc_map(s.drop_last()).dom().contains(k) {
                let j = choose|j: int|
                    0 <= j < s.drop_last().len() && (#[trigger] s.drop_last()[j]).0 == k;
                assert(s[j].0 == k);
            }
        }
        assert(assoc_map(s.drop_last()) =~= assoc_map(s).remove(k));
    } else {
        assert(distinct_keys(s.drop_last())) by {
            assert(forall|a: int, b: int| #![trigger s.drop_last()[a], s.drop_last()[b]]
                0 <= b < a < s.drop_last().len() ==> s[a].0 != s[b].0);
        }
        lemma_assoc_remove(s.drop_last(), i);
        assert(s.remove(i).drop_last() =~= s.drop_last().remove(i));
        assert(s.remove(i).last() == s.last());
        assert(assoc_map(s.remove(i))
            == assoc_map(s.drop_last().remove(i)).insert(s.last().0, s.last().1));
        assert(s.last().0 != k);
        assert(assoc_map(s.drop_last()).remove(k).insert(s.last().0, s.last().1)
            =~= assoc_map(s.drop_last()).insert(s.last().0, s.last().1).remove(k));
    }
}

/// A sparse store of voxel cells, keyed by grid position.
pub struct VoxelStore {
    pub entries: Vec<(IVec3, VoxelInfo)>,
}

impl VoxelStore {
    /// The map this store represents.
    pub open spec fn view_map(&self) -> Map<IVec3, VoxelInfo> {
        assoc_map(self.entries@)
    }

    /// Keys are pairwise distinct.
    pub open spec fn wf(&self) -> bool {
        distinct_keys(self.entries@)
    }

    pub fn new() -> (r: VoxelStore)
        ensures
            r.wf(),
            r.view_map() == Map::<IVec3, VoxelInfo>::empty(),
            r.entries@.len() == 0,
    {
        VoxelStore { entries: Vec::new() }
    }

    /// Index of the entry holding `k`, if any.
    fn find(&self, k: IVec3) -> (r: Option<usize>)
        ensures
            match r {
                Some(i) => i < self.entries@.len() && self.entries@[i as int].0 == k,
                None => forall|i: int| 0 <= i < self.entries@.len()
                    ==> (#[trigger] self.entries@[i]).0 != k,
            },
    {
        let mut i: usize = 0;
        while i < self.entries.len()
            invariant
                0 <= i <= self.entries@.len(),
                forall|j: int| 0 <= j < i ==> (#[trigger] self.entries@[j]).0 != k,
            decreases self.entries@.len() - i,
        {
            if self.entries[i].0 == k {
                return Some(i);
            }
            i = i + 1;
        }
        None
    }

    /// Looks the key up in the store.
    pub fn get(&self, k: IVec3) -> (r: Option<VoxelInfo>)
        requires
            self.wf(),
        ensures
            r == (if self.view_map().dom().contains(k) {
                Some(self.view_map()[k])
            } else {
                Option::<VoxelInfo>::None
            }),
    {
        proof {
            lemma_assoc_contains(self.entries@, k);
        }
        match self.find(k) {
            Some(i) => {
                proof {
                    lemma_assoc_value(self.entries@, i as int);
                }
                Some(self.entries[i].1)
            }
            None => None,
        }
    }

    /// Removes the key, returning the cell it held.
    pub fn remove(&mut self, k: IVec3) -> (r: Option<VoxelInfo>)
        requires
            old(self).wf(),
        ensures
            final(self).wf(),
            r == (if old(self).view_map().dom().contains(k) {
                Some(old(self).view_map()[k])
            } else {
                Option::<VoxelInfo>::None
            }),
            final(self).view_map() == old(self).view_map().remove(k),
            final(self).entries@.len() <= old(self).entries@.len(),
    {
        proof {
            lemma_assoc_contains(self.entries@, k);
        }
        match self.find(k) {
            Some(i) => {
                proof {
                    lemma_assoc_value(self.entries@, i as int);
                    lemma_assoc_remove(self.entries@, i as int);
                    assert(forall|a: int, b: int|
                        #![trigger old(self).entries@.remove(i as int)[a], old(self).entries@.remove(i as int)[b]]
                        0 <= b < a < old(self).entries@.remove(i as int).len()
                            ==> old(self).entries@.remove(i as int)[a].0
                                != old(self).entries@.remove(i as int)[b].0);
                }
                let e = self.entries.remove(i);
                Some(e.1)
            }
            None => {
                proof {
                    assert(self.view_map() =~= self.view_map().remove(k));
                }
                None
            }
        }
    }

    /// Inserts or replaces the cell at `k`.
    pub fn set(&mut self, k: IVec3, v: VoxelInfo)
        requires
            old(self).wf(),
        ensures
            final(self).wf(),
            final(self).view_map() == old(self).view_map().insert(k, v),
    {
        let _ = self.remove(k);
        proof {
            lemma_assoc_contains(self.entries@, k);
            assert(forall|i: int| 0 <= i < self.entries@.len()
                ==> (#[trigger] self.entries@[i]).0 != k);
        }
        let ghost mid = self.entries@;
        self.entries.push((k, v));
        proof {
            let s = self.entries@;
            assert(s.drop_last() =~= mid);
            assert(forall|a: int, b: int| #![trigger s[a], s[b]]
                0 <= b < a < s.len() ==> s[a].0 != s[b].0);
            assert(assoc_map(s) == assoc_map(mid).insert(k, v));
            assert(old(self).view_map().remove(k).insert(k, v) =~= old(self).view_map().insert(k, v));
        }
    }

    /// A snapshot of all entries, in storage order.
    pub fn pairs(&self) -> (r: Vec<(IVec3, VoxelInfo)>)
        ensures
            r@ == self.entries@,
    {
        let mut out: Vec<(IVec3, VoxelInfo)> = Vec::new();
        let mut i: usize = 0;
        while i < self.entries.len()
            invariant
                0 <= i <= self.entries@.len(),
                out@ == self.entries@.take(i as int),
            decreases self.entries@.len() - i,
        {
            out.push(self.entries[i]);
            proof {
                assert(out@ =~= self.entries@.take(i + 1));
            }
            i = i + 1;
        }
        proof {
            assert(out@ =~= self.entries@);
        }
        out
    }

    /// The grid positions of all cells in the given column: every
    /// returned position is a stored cell of the column, and every stored
    /// cell of the column is returned.
    pub fn column_positions(&self, col: IVec2) -> (r: Vec<IVec3>)
        requires
            self.wf(),
        ensures
            forall|j: int| 0 <= j < r@.len()
                ==> self.view_map().dom().contains(#[trigger] r@[j]) && r@[j].spec_xz() == col,
            forall|p: IVec3| self.view_map().dom().contains(p) && p.spec_xz() == col
                ==> r@.contains(p),
    {
        let mut out: Vec<IVec3> = Vec::new();
        let mut i: usize = 0;
        while i < self.entries.len()
            invariant
                self.wf(),
                0 <= i <= self.entries@.len(),
                forall|j: int| 0 <= j < out@.len()
                    ==> self.view_map().dom().contains(#[trigger] out@[j]) && out@[j].spec_xz() == col,
                forall|k: int| 0 <= k < i && (#[trigger] self.entries@[k]).0.spec_xz() == col
                    ==> out@.contains(self.entries@[k].0),
            decreases self.entries@.len() - i,
        {
            let ghost pre = out@;
            let p = self.entries[i].0;
            if p.x == col.x && p.z == col.y {
                proof {
                    lemma_assoc_value(self.entries@, i as int);
                }
                out.push(p);
                proof {
                    assert(out@[out@.len() - 1] == p);
                    assert forall|k: int|
                        0 <= k < i + 1 && (#[trigger] self.entries@[k]).0.spec_xz() == col
                        implies out@.contains(self.entries@[k].0) by {
                        if k < i {
                            let j = choose|j: int| 0 <= j < pre.len() && pre[j] == self.entries@[k].0;
                            assert(out@[j] == self.entries@[k].0);
                        }
                    }
                }
            } else {
                proof {
                    assert(!(p.spec_xz() == col));
                }
            }
            i = i + 1;
        }
        proof {
            assert forall|p: IVec3| self.view_map().dom().contains(p) && p.spec_xz() == col
                implies out@.contains(p) by {
                lemma_assoc_contains(self.entries@, p);
                let k = choose|k: int|
                    0 <= k < self.entries@.len() && (#[trigger] self.entries@[k]).0 == p;
                assert(out@.contains(self.entries@[k].0));
            }
        }
        out
    }
}

/// A sparse store of per-column vertical offsets.
pub struct ShiftStore {
    pub entries: Vec<(IVec2, i32)>,
}

impl ShiftStore {
    /// The map this store represents.
    pub open spec fn view_map(&self) -> Map<IVec2, i32> {
        assoc_map(self.entries@)
    }

    /// Keys are pairwise distinct.
    pub open spec fn wf(&self) -> bool {
        distinct_keys(self.entries@)
    }

    pub fn new() -> (r: ShiftStore)
        ensures
            r.wf(),
            r.view_map() == Map::<IVec2, i32>::empty(),
    {
        ShiftStore { entries: Vec::new() }
    }

    /// Index of the entry holding `k`, if any.
    fn find(&self, k: IVec2) -> (r: Option<usize>)
        ensures
            match r {
                Some(i) => i < self.entries@.len() && self.entries@[i as int].0 == k,
                None => forall|i: int| 0 <= i < self.entries@.len()
                    ==> (#[trigger] self.entries@[i]).0 != k,
            },
    {
        let mut i: usize = 0;
        while i < self.entries.len()
            invariant
                0 <= i <= self.entries@.len(),
                forall|j: int| 0 <= j < i ==> (#[trigger] self.entries@[j]).0 != k,
            decreases self.entries@.len() - i,
        {
            if self.entries[i].0 == k {
                return Some(i);
            }
            i = i + 1;
        }
        None
    }

    /// Looks the column up in the store.
    pub fn get(&self, k: IVec2) -> (r: Option<i32>)
        requires
            self.wf(),
        ensures
            r == (if self.view_map().dom().contains(k) {
                Some(self.view_map()[k])
            } else {
                Option::<i32>::None
            }),
    {
        proof {
            lemma_assoc_contains(self.entries@, k);
        }
        match self.find(k) {
            Some(i) => {
                proof {
                    lemma_assoc_value(self.entries@, i as int);
                }
                Some(self.entries[i].1)
            }
            None => None,
        }
    }

    /// Removes the column's entry.
    pub fn remove(&mut self, k: IVec2)
        requires
            old(self).wf(),
        ensures
            final(self).wf(),
            final(self).view_map() == old(self).view_map().remove(k),
    {
        proof {
            lemma_assoc_contains(self.entries@, k);
        }
        match self.find(k) {
            Some(i) => {
                proof {
                    lemma_assoc_value(self.entries@, i as int);
                    lemma_assoc_remove(self.entries@, i as int);
                    assert(forall|a: int, b: int|
                        #![trigger old(self).entries@.remove(i as int)[a], old(self).entries@.remove(i as int)[b]]
                        0 <= b < a < old(self).entries@.remove(i as int).len()
                            ==> old(self).entries@.remove(i as int)[a].0
                                != old(self).entries@.remove(i as int)[b].0);
                }
                let _ = self.entries.remove(i);
            }
            None => {
                proof {
                    assert(self.view_map() =~= self.view_map().remove(k));
                }
            }
        }
    }

    /// Inserts or replaces the offset of column `k`.
    pub fn set(&mut self, k: IVec2, v: i32)
        requires
            old(self).wf(),
        ensures
            final(self).wf(),
            final(self).view_map() == old(self).view_map().insert(k, v),
    {
        self.remove(k);
        proof {
            lemma_assoc_contains(self.entries@, k);
            assert(forall|i: int| 0 <= i < self.entries@.len()
                ==> (#[trigger] self.entries@[i]).0 != k);
        }
        let ghost mid = self.entries@;
        self.entries.push((k, v));
        proof {
            let s = self.entries@;
            assert(s.drop_last() =~= mid);
            assert(forall|a: int, b: int| #![trigger s[a], s[b]]
                0 <= b < a < s.len() ==> s[a].0 != s[b].0);
            assert(assoc_map(s) == assoc_map(mid).insert(k, v));
            assert(old(self).view_map().remove(k).insert(k, v) =~= old(self).view_map().insert(k, v));
        }
    }
}

} // verus!
