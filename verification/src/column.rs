//! Columns: a dense vector of 32-bit integers together with an optional
//! index. A B-tree index is held as an association list sorted by key, each
//! key carrying the positions at which it occurs.

use crate::model::{
    eq_positions, in_range, is_perm_of_range, is_sorter_for, lemma_count_le_boundary,
    lemma_count_lt_boundary, lemma_eq_positions_props, permuted_view, sorted,
};
use vstd::prelude::*;
use vstd::seq_lib::group_to_multiset_ensures;

verus! {

/// A value-to-positions index: entries sorted by strictly increasing key,
/// each entry holding the positions where its key occurs, in order.
pub struct BTreeIndex {
    pub entries: Vec<(i32, Vec<usize>)>,
}

impl BTreeIndex {
    pub open spec fn model(&self) -> Seq<(i32, Seq<usize>)> {
        self.entries@.map_values(|p: (i32, Vec<usize>)| (p.0, p.1@))
    }
}

/// Whether a key occurs in the index.
pub open spec fn btree_has_key(m: Seq<(i32, Seq<usize>)>, v: i32) -> bool {
    exists|i: int| 0 <= i < m.len() && (#[trigger] m[i]).0 == v
}

/// The index is exactly the value-to-positions map of `data`: keys strictly
/// increase, each key's list holds precisely the positions carrying it, and
/// every position is covered.
pub open spec fn btree_wf(m: Seq<(i32, Seq<usize>)>, data: Seq<i32>) -> bool {
    &&& forall|i: int, j: int| 0 <= i < j < m.len() ==> m[i].0 < m[j].0
    &&& forall|i: int|
        0 <= i < m.len() ==> (#[trigger] m[i]).1 == eq_positions(data, m[i].0) && m[i].1.len() > 0
    &&& forall|p: int| 0 <= p < data.len() ==> btree_has_key(m, #[trigger] data[p])
}

/// Extending the data by one value extends exactly that value's positions.
proof fn lemma_eq_positions_extend(data: Seq<i32>, idx: int, k: i32)
    requires
        0 <= idx < data.len() <= usize::MAX,
    ensures
        eq_positions(data.take(idx + 1), k) == if data[idx] == k {
            eq_positions(data.take(idx), k).push(idx as usize)
        } else {
            eq_positions(data.take(idx), k)
        },
{
    let cur = data.take(idx + 1);
    assert(cur.drop_last() =~= data.take(idx));
    assert(cur.last() == data[idx]);
    if data[idx] == k {
        assert(eq_positions(cur, k) =~= eq_positions(data.take(idx), k).push(idx as usize));
    } else {
        assert(eq_positions(cur, k) =~= eq_positions(data.take(idx), k));
    }
}

/// A value that occurs nowhere has no positions.
proof fn lemma_eq_positions_absent(data: Seq<i32>, k: i32)
    requires
        data.len() <= usize::MAX,
        forall|p: int| 0 <= p < data.len() ==> data[p] != k,
    ensures
        eq_positions(data, k) == Seq::<usize>::empty(),
{
    lemma_eq_positions_props(data, k);
    if eq_positions(data, k).len() > 0 {
        assert(data[eq_positions(data, k)[0] as int] == k);
        assert(false);
    }
    assert(eq_positions(data, k) =~= Seq::<usize>::empty());
}

/// The first entry slot whose key is at least `v`.
fn find_key_slot(entries: &Vec<(i32, Vec<usize>)>, v: i32) -> (r: usize)
    ensures
        r <= entries@.len(),
        forall|j: int| 0 <= j < r ==> (#[trigger] entries@[j]).0 < v,
        r < entries@.len() ==> entries@[r as int].0 >= v,
{
    let mut i: usize = 0;
    while i < entries.len()
        invariant
            i <= entries@.len(),
            forall|j: int| 0 <= j < i ==> (#[trigger] entries@[j]).0 < v,
        decreases entries@.len() - i,
    {
        if entries[i].0 >= v {
            return i;
        }
        i = i + 1;
    }
    i
}

impl BTreeIndex {
    pub fn new() -> (r: BTreeIndex)
        ensures
            r.model() == Seq::<(i32, Seq<usize>)>::empty(),
    {
        let r = BTreeIndex { entries: Vec::new() };
        proof {
            assert(r.model() =~= Seq::<(i32, Seq<usize>)>::empty());
        }
        r
    }

    /// Records that position `idx` holds value `v`, where `idx` is the next
    /// position past `data`.
    pub(crate) fn record(&mut self, v: i32, idx: usize, Ghost(data): Ghost<Seq<i32>>)
        requires
            btree_wf(old(self).model(), data),
            idx as int == data.len(),
            data.len() < usize::MAX,
        ensures
            btree_wf(final(self).model(), data.push(v)),
    {
        let ghost data2 = data.push(v);
        proof {
            assert(data2.take(idx as int) =~= data);
            assert(data2.take(idx as int + 1) =~= data2);
            assert(data2[idx as int] == v);
        }
        let slot = find_key_slot(&self.entries, v);
        let ghost old_model = self.model();
        if slot < self.entries.len() && self.entries[slot].0 == v {
            let list = &mut self.entries[slot].1;
            list.push(idx);
            proof {
                let m = self.model();
                assert(forall|j: int|
                    0 <= j < m.len() && j != slot ==> #[trigger] m[j] == old_model[j]);
                assert(m[slot as int].0 == v);
                assert(m[slot as int].1 == old_model[slot as int].1.push(idx));
                assert forall|i: int| 0 <= i < m.len() implies (#[trigger] m[i]).1 == eq_positions(
                    data2,
                    m[i].0,
                ) && m[i].1.len() > 0 by {
                    lemma_eq_positions_extend(data2, idx as int, m[i].0);
                    if i != slot {
                        assert(old_model[i].0 != v);
                    }
                }
                assert forall|p: int| 0 <= p < data2.len() implies btree_has_key(
                    m,
                    #[trigger] data2[p],
                ) by {
                    if p < data.len() {
                        assert(btree_has_key(old_model, data[p]));
                        let i = choose|i: int|
                            0 <= i < old_model.len() && (#[trigger] old_model[i]).0 == data[p];
                        assert(m[i].0 == data[p]);
                    } else {
                        assert(m[slot as int].0 == v);
                    }
                }
            }
        } else {
            let mut list: Vec<usize> = Vec::new();
            list.push(idx);
            self.entries.insert(slot, (v, list));
            proof {
                let m = self.model();
                assert(forall|j: int| 0 <= j < slot ==> #[trigger] m[j] == old_model[j]);
                assert(forall|j: int|
                    slot < j < m.len() ==> #[trigger] m[j] == old_model[j - 1]);
                assert(m[slot as int].0 == v && m[slot as int].1 == seq![idx]);
                assert(forall|j: int|
                    0 <= j < old_model.len() ==> (#[trigger] old_model[j]).0 != v);
                assert forall|i: int, j: int| 0 <= i < j < m.len() implies m[i].0 < m[j].0 by {
                    if i < slot && j == slot {
                        assert(old_model[i].0 < v);
                    } else if i == slot && j > slot {
                        assert(old_model[j - 1].0 >= v);
                        assert(old_model[j - 1].0 != v);
                    }
                }
                assert forall|i: int| 0 <= i < m.len() implies (#[trigger] m[i]).1 == eq_positions(
                    data2,
                    m[i].0,
                ) && m[i].1.len() > 0 by {
                    lemma_eq_positions_extend(data2, idx as int, m[i].0);
                    if i == slot {
                        assert forall|p: int| 0 <= p < data.len() implies data[p] != v by {
                            if data[p] == v {
                                assert(btree_has_key(old_model, data[p]));
                            }
                        }
                        lemma_eq_positions_absent(data, v);
                        assert(m[i].1 =~= eq_positions(data, v).push(idx));
                    } else {
                        assert(m[i].0 != v);
                    }
                }
                assert forall|p: int| 0 <= p < data2.len() implies btree_has_key(
                    m,
                    #[trigger] data2[p],
                ) by {
                    if p < data.len() {
                        let i = choose|i: int|
                            0 <= i < old_model.len() && (#[trigger] old_model[i]).0 == data[p];
                        if i < slot {
                            assert(m[i].0 == data[p]);
                        } else {
                            assert(m[i + 1].0 == data[p]);
                        }
                    } else {
                        assert(m[slot as int].0 == v);
                    }
                }
            }
        }
    }
}

/// The positions of all keys in `[lo, hi)`, in key order.
pub open spec fn btree_range_concat(m: Seq<(i32, Seq<usize>)>, lo: i32, hi: i32) -> Seq<usize>
    decreases m.len(),
{
    if m.len() == 0 {
        Seq::empty()
    } else {
        btree_range_concat(m.drop_last(), lo, hi) + if in_range(m.last().0, lo, hi) {
            m.last().1
        } else {
            Seq::empty()
        }
    }
}

impl BTreeIndex {
    /// Walks the keys in `[lo, hi)` and concatenates their position lists.
    pub fn range_concat(&self, lo: i32, hi: i32) -> (r: Vec<usize>)
        ensures
            r@ == btree_range_concat(self.model(), lo, hi),
    {
        let mut out: Vec<usize> = Vec::new();
        let ghost m = self.model();
        proof {
            assert(m.take(0) =~= Seq::<(i32, Seq<usize>)>::empty());
            assert(out@ =~= btree_range_concat(m.take(0), lo, hi));
        }
        let mut i: usize = 0;
        while i < self.entries.len()
            invariant
                i <= self.entries@.len(),
                m == self.model(),
                m.len() == self.entries@.len(),
                out@ == btree_range_concat(m.take(i as int), lo, hi),
            decreases self.entries@.len() - i,
        {
            let ghost out0 = out@;
            let key = self.entries[i].0;
            if key >= lo && key < hi {
                let list = &self.entries[i].1;
                let mut j: usize = 0;
                while j < list.len()
                    invariant
                        j <= list@.len(),
                        out@ == out0 + list@.take(j as int),
                    decreases list@.len() - j,
                {
                    out.push(list[j]);
                    proof {
                        assert(out@ =~= out0 + list@.take(j as int + 1));
                    }
                    j = j + 1;
                }
                proof {
                    assert(list@.take(list@.len() as int) =~= list@);
                }
            }
            proof {
                let cur = m.take(i as int + 1);
                assert(cur.drop_last() =~= m.take(i as int));
                assert(cur.last() == m[i as int]);
                assert(m[i as int].0 == key);
                if in_range(key, lo, hi) {
                    assert(m[i as int].1 == self.entries@[i as int].1@);
                    assert(out@ =~= btree_range_concat(cur, lo, hi));
                } else {
                    assert(out@ =~= btree_range_concat(cur, lo, hi));
                }
            }
            i = i + 1;
        }
        proof {
            assert(m.take(m.len() as int) =~= m);
        }
        out
    }
}

/// Every position a range walk hands out indexes into the data.
pub proof fn lemma_btree_range_concat_bounds(
    m: Seq<(i32, Seq<usize>)>,
    data: Seq<i32>,
    lo: i32,
    hi: i32,
)
    requires
        data.len() <= usize::MAX,
        forall|i: int| 0 <= i < m.len() ==> (#[trigger] m[i]).1 == eq_positions(data, m[i].0),
    ensures
        forall|k: int|
            0 <= k < btree_range_concat(m, lo, hi).len() ==> (#[trigger] btree_range_concat(
                m,
                lo,
                hi,
            )[k]) < data.len(),
    decreases m.len(),
{
    if m.len() > 0 {
        let pre = m.drop_last();
        assert(forall|i: int| 0 <= i < pre.len() ==> pre[i] == #[trigger] m[i]);
        lemma_btree_range_concat_bounds(pre, data, lo, hi);
        lemma_eq_positions_props(data, m.last().0);
        let cur = btree_range_concat(m, lo, hi);
        let prev = btree_range_concat(pre, lo, hi);
        assert forall|k: int| 0 <= k < cur.len() implies (#[trigger] cur[k]) < data.len() by {
            if k < prev.len() {
                assert(cur[k] == prev[k]);
            } else {
                assert(in_range(m.last().0, lo, hi));
                assert(cur[k] == m.last().1[k - prev.len()]);
                assert(m[m.len() - 1].1 == eq_positions(data, m[m.len() - 1].0));
            }
        }
    }
}

pub enum ColumnIndex {
    NoIndex,
    UnclusteredSorted { sorter: Vec<usize> },
    UnclusteredBTree { btree: BTreeIndex },
    ClusteredSorted,
    ClusteredBTree { btree: BTreeIndex },
}

pub struct Column {
    pub name: String,
    pub index: ColumnIndex,
    pub data: Vec<i32>,
}

impl Column {
    /// The index, if any, is faithful to the current data.
    pub open spec fn index_wf(&self) -> bool {
        match self.index {
            ColumnIndex::NoIndex => true,
            ColumnIndex::UnclusteredSorted { sorter } => is_sorter_for(sorter@, self.data@),
            ColumnIndex::UnclusteredBTree { btree } => btree_wf(btree.model(), self.data@),
            ColumnIndex::ClusteredSorted => sorted(self.data@),
            ColumnIndex::ClusteredBTree { btree } => sorted(self.data@) && btree_wf(
                btree.model(),
                self.data@,
            ),
        }
    }

    pub open spec fn is_clustered(&self) -> bool {
        self.index is ClusteredSorted || self.index is ClusteredBTree
    }

    pub fn new(name: String) -> (r: Column)
        ensures
            r.name == name,
            r.data@ == Seq::<i32>::empty(),
            r.index is NoIndex,
            r.index_wf(),
    {
        let r = Column { name, data: Vec::new(), index: ColumnIndex::NoIndex };
        proof {
            assert(r.data@ =~= Seq::<i32>::empty());
        }
        r
    }
}

/// Relies on rayon's `par_sort_unstable_by_key`: sorts the index slice in
/// place — reordering its elements, hence preserving their multiset — so
/// that the keyed data values read in non-decreasing order.
#[verifier::external_body]
fn par_sort_indices_by(data: &Vec<i32>, idx: &mut Vec<usize>)
    requires
        forall|i: int| 0 <= i < old(idx)@.len() ==> (#[trigger] old(idx)@[i]) < data@.len(),
    ensures
        final(idx)@.len() == old(idx)@.len(),
        final(idx)@.to_multiset() == old(idx)@.to_multiset(),
        forall|i: int, j: int|
            0 <= i <= j < final(idx)@.len()
                ==> data@[final(idx)@[i] as int] <= data@[final(idx)@[j] as int],
{
    rayon::prelude::ParallelSliceMut::par_sort_unstable_by_key(
        idx.as_mut_slice(),
        |i: &usize| data[*i],
    );
}

impl Column {
    /// The permutation that sorts the column's data.
    pub fn argsort(&self) -> (r: Vec<usize>)
        ensures
            is_sorter_for(r@, self.data@),
    {
        let n = self.data.len();
        let mut idx: Vec<usize> = Vec::new();
        let mut i: usize = 0;
        while i < n
            invariant
                i <= n,
                idx@.len() == i,
                forall|k: int| 0 <= k < i ==> idx@[k] == k as usize,
            decreases n - i,
        {
            idx.push(i);
            i = i + 1;
        }
        let ghost ident = idx@;
        par_sort_indices_by(&self.data, &mut idx);
        proof {
            broadcast use group_to_multiset_ensures;

            assert(ident.no_duplicates());
            ident.lemma_multiset_has_no_duplicates();
            assert forall|k: int| 0 <= k < idx@.len() implies (#[trigger] idx@[k]) < n by {
                assert(idx@.to_multiset().contains(idx@[k]));
                assert(ident.contains(idx@[k]));
                let j = choose|j: int| 0 <= j < ident.len() && ident[j] == idx@[k];
            }
            assert forall|x: usize| idx@.to_multiset().contains(x) implies idx@.to_multiset().count(
                x,
            ) == 1 by {
                assert(ident.to_multiset().contains(x));
            }
            idx@.lemma_multiset_has_no_duplicates_conv();
            assert(is_perm_of_range(idx@, self.data@.len()));
            assert forall|i2: int, j2: int|
                0 <= i2 <= j2 < permuted_view(self.data@, idx@).len() implies permuted_view(
                self.data@,
                idx@,
            )[i2] <= permuted_view(self.data@, idx@)[j2] by {
                assert(self.data@[idx@[i2] as int] <= self.data@[idx@[j2] as int]);
            }
        }
        idx
    }

    /// The value-to-positions map of the current data, built by one scan.
    pub fn bulk_load_btree(&self) -> (r: BTreeIndex)
        ensures
            btree_wf(r.model(), self.data@),
    {
        let mut b = BTreeIndex::new();
        let n = self.data.len();
        proof {
            assert(self.data@.take(0) =~= Seq::<i32>::empty());
        }
        let mut i: usize = 0;
        while i < n
            invariant
                i <= n,
                n == self.data@.len(),
                btree_wf(b.model(), self.data@.take(i as int)),
            decreases n - i,
        {
            let v = self.data[i];
            b.record(v, i, Ghost(self.data@.take(i as int)));
            proof {
                assert(self.data@.take(i as int).push(self.data@[i as int]) =~= self.data@.take(
                    i as int + 1,
                ));
            }
            i = i + 1;
        }
        proof {
            assert(self.data@.take(n as int) =~= self.data@);
        }
        b
    }
}

/// The insertion point binary search reports: `i32::MAX` maps to the end and
/// `i32::MIN` to the start, so open range bounds need no special casing at
/// the callers; otherwise the number of elements strictly below (leftmost
/// slot) or at most (rightmost slot) the key.
pub open spec fn spec_binsearch(view: Seq<i32>, key: i32, align_left: bool) -> int {
    if key == i32::MAX {
        view.len() as int
    } else if key == i32::MIN {
        0
    } else if align_left {
        crate::model::count_lt(view, key)
    } else {
        crate::model::count_le(view, key)
    }
}

/// Inserting a value at its binary-search slot keeps a sorted sequence
/// sorted, whichever alignment the search used.
pub proof fn lemma_insert_at_binsearch_sorted(s: Seq<i32>, v: i32, align_left: bool)
    requires
        sorted(s),
    ensures
        0 <= spec_binsearch(s, v, align_left) <= s.len(),
        sorted(s.insert(spec_binsearch(s, v, align_left), v)),
{
    let p = spec_binsearch(s, v, align_left);
    if v == i32::MAX {
        crate::model::lemma_insert_sorted(s, v, p);
    } else if v == i32::MIN {
        crate::model::lemma_insert_sorted(s, v, p);
    } else if align_left {
        crate::model::lemma_sorted_count_lt(s, v);
        crate::model::lemma_insert_sorted(s, v, p);
    } else {
        crate::model::lemma_sorted_count_le(s, v);
        crate::model::lemma_insert_sorted(s, v, p);
    }
}

impl Column {
    /// An insertion index into the sorted order: over `data[sorter[·]]` when
    /// a sorter is given, over `data` itself (which the caller asserts is
    /// sorted) otherwise.
    pub fn binsearch(&self, key: i32, sorter: Option<&Vec<usize>>, align_left: bool) -> (r: usize)
        requires
            match sorter {
                Some(s) => (forall|i: int|
                    0 <= i < s@.len() ==> (#[trigger] s@[i]) < self.data@.len()) && sorted(
                    permuted_view(self.data@, s@),
                ),
                None => sorted(self.data@),
            },
        ensures
            ({
                let view = match sorter {
                    Some(s) => permuted_view(self.data@, s@),
                    None => self.data@,
                };
                r <= view.len() && r == spec_binsearch(view, key, align_left)
            }),
    {
        let n = match sorter {
            Some(s) => s.len(),
            None => self.data.len(),
        };
        if key == i32::MAX {
            return n;
        } else if key == i32::MIN {
            return 0;
        }
        let ghost view = match sorter {
            Some(s) => permuted_view(self.data@, s@),
            None => self.data@,
        };
        let mut low: usize = 0;
        let mut high: usize = n;
        while low < high
            invariant
                0 <= low <= high <= n,
                n == view.len(),
                sorted(view),
                match sorter {
                    Some(s) => (forall|i: int|
                        0 <= i < s@.len() ==> (#[trigger] s@[i]) < self.data@.len()) && view
                        == permuted_view(self.data@, s@),
                    None => view == self.data@,
                },
                align_left ==> (forall|i: int| 0 <= i < low ==> view[i] < key) && (forall|i: int|
                    high <= i < n ==> view[i] >= key),
                !align_left ==> (forall|i: int| 0 <= i < low ==> view[i] <= key) && (forall|i: int|
                    high <= i < n ==> view[i] > key),
            decreases high - low,
    {
            let mid = low + (high - low) / 2;
            let val = match sorter {
                Some(s) => self.data[s[mid]],
                None => self.data[mid],
            };
            proof {
                assert(val == view[mid as int]);
            }
            let goes_right = if align_left {
                val < key
            } else {
                val <= key
            };
            if goes_right {
                low = mid + 1;
            } else {
                high = mid;
            }
        }
        proof {
            if align_left {
                lemma_count_lt_boundary(view, key, low as int);
            } else {
                lemma_count_le_boundary(view, key, low as int);
            }
        }
        low
    }

    pub fn set_index_unclustered_sorted(&mut self)
        ensures
            final(self).data == old(self).data,
            final(self).name == old(self).name,
            final(self).index is UnclusteredSorted,
            final(self).index_wf(),
    {
        let sorter = self.argsort();
        self.index = ColumnIndex::UnclusteredSorted { sorter };
    }

    pub fn set_index_unclustered_btree(&mut self)
        ensures
            final(self).data == old(self).data,
            final(self).name == old(self).name,
            final(self).index is UnclusteredBTree,
            final(self).index_wf(),
    {
        let btree = self.bulk_load_btree();
        self.index = ColumnIndex::UnclusteredBTree { btree };
    }

    pub fn set_index_clustered_sorted(&mut self)
        requires
            sorted(old(self).data@),
        ensures
            final(self).data == old(self).data,
            final(self).name == old(self).name,
            final(self).index is ClusteredSorted,
            final(self).index_wf(),
    {
        self.index = ColumnIndex::ClusteredSorted;
    }

    pub fn set_index_clustered_btree(&mut self)
        requires
            sorted(old(self).data@),
        ensures
            final(self).data == old(self).data,
            final(self).name == old(self).name,
            final(self).index is ClusteredBTree,
            final(self).index_wf(),
    {
        let btree = self.bulk_load_btree();
        self.index = ColumnIndex::ClusteredBTree { btree };
    }
}

impl ColumnIndex {
    /// The persisted discriminator byte of each index variant; auxiliary
    /// structures are rebuilt at load time, never stored.
    pub fn discriminant(&self) -> (r: u8)
        ensures
            r == match self {
                ColumnIndex::NoIndex => 0u8,
                ColumnIndex::UnclusteredSorted { .. } => 1u8,
                ColumnIndex::UnclusteredBTree { .. } => 2u8,
                ColumnIndex::ClusteredSorted => 3u8,
                ColumnIndex::ClusteredBTree { .. } => 4u8,
            },
    {
        match self {
            ColumnIndex::NoIndex => 0,
            ColumnIndex::UnclusteredSorted { .. } => 1,
            ColumnIndex::UnclusteredBTree { .. } => 2,
            ColumnIndex::ClusteredSorted => 3,
            ColumnIndex::ClusteredBTree { .. } => 4,
        }
    }

    /// The skeleton index a discriminator byte denotes: the variant with an
    /// empty auxiliary structure, to be rebuilt from data.
    pub fn from_discriminant(d: u8) -> (r: Option<ColumnIndex>)
        ensures
            match r {
                Some(idx) => d <= 4 && idx.discriminant_matches(d) && idx.is_skeleton(),
                None => d > 4,
            },
    {
        if d == 0 {
            Some(ColumnIndex::NoIndex)
        } else if d == 1 {
            Some(ColumnIndex::UnclusteredSorted { sorter: Vec::new() })
        } else if d == 2 {
            Some(ColumnIndex::UnclusteredBTree { btree: BTreeIndex::new() })
        } else if d == 3 {
            Some(ColumnIndex::ClusteredSorted)
        } else if d == 4 {
            Some(ColumnIndex::ClusteredBTree { btree: BTreeIndex::new() })
        } else {
            None
        }
    }

    /// The variant matches the given discriminator byte.
    pub open spec fn discriminant_matches(&self, d: u8) -> bool {
        match self {
            ColumnIndex::NoIndex => d == 0,
            ColumnIndex::UnclusteredSorted { .. } => d == 1,
            ColumnIndex::UnclusteredBTree { .. } => d == 2,
            ColumnIndex::ClusteredSorted => d == 3,
            ColumnIndex::ClusteredBTree { .. } => d == 4,
        }
    }

    /// The auxiliary structure is empty, as right after deserialization.
    pub open spec fn is_skeleton(&self) -> bool {
        match self {
            ColumnIndex::NoIndex => true,
            ColumnIndex::UnclusteredSorted { sorter } => sorter@.len() == 0,
            ColumnIndex::UnclusteredBTree { btree } => btree.model().len() == 0,
            ColumnIndex::ClusteredSorted => true,
            ColumnIndex::ClusteredBTree { btree } => btree.model().len() == 0,
        }
    }
}

} // verus!
