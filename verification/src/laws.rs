//! Cross-cutting laws of the engine, proved from the public contracts:
//! every index variant selects the same multiset of positions as a linear
//! scan; fetching a scan's selection yields exactly the in-range values in
//! order; and every join algorithm produces the nested-loop multiset of
//! pairs.

use crate::column::{btree_has_key, btree_range_concat, btree_wf, spec_binsearch, Column,
    ColumnIndex};
use crate::command::join::{hash_join_pairs, hash_result, join_pairs, row_pairs, swap_pairs};
use crate::command::select::{bounded_subrange, selected_positions};
use crate::model::{eq_positions, gather_values, in_range, is_perm_of_range, is_sorter_for,
    lemma_eq_positions_props, lemma_scan_positions_props, lemma_sorted_count_lt, permuted_view,
    range_positions, scan_positions, sorted};
use vstd::prelude::*;
use vstd::seq_lib::group_to_multiset_ensures;
use vstd::seq_lib::lemma_multiset_commutative;

verus! {

/// Every index below `n` occurs in a permutation of `[0, n)`.
pub proof fn lemma_perm_contains_all(s: Seq<usize>, n: nat, u: usize)
    requires
        is_perm_of_range(s, n),
        (u as nat) < n,
    ensures
        s.contains(u),
{
    let f = |x: usize| x as int;
    assert(vstd::relations::injective(f)) by {
        assert forall|x1: usize, x2: usize| #[trigger] f(x1) == #[trigger] f(x2) implies x1
            == x2 by {}
    }
    let mapped = s.map_values(f);
    assert(s.no_duplicates());
    s.lemma_no_duplicates_injective(f);
    mapped.unique_seq_to_set();
    broadcast use vstd::seq_lib::seq_to_set_is_finite;

    let range = vstd::set_lib::set_int_range(0, n as int);
    vstd::set_lib::lemma_int_range(0, n as int);
    assert(mapped.to_set().subset_of(range)) by {
        assert forall|x: int| mapped.to_set().contains(x) implies range.contains(x) by {
            let k = choose|k: int| 0 <= k < mapped.len() && mapped[k] == x;
            assert(s[k] < n);
        }
    }
    vstd::set_lib::lemma_subset_equality(mapped.to_set(), range);
    assert(range.contains(u as int));
    assert(mapped.to_set().contains(u as int));
    assert(mapped.contains(u as int));
    let k = choose|k: int| 0 <= k < mapped.len() && mapped[k] == u as int;
    assert(s[k] == u);
}

/// Two duplicate-free position sequences with the same members hold the
/// same multiset.
pub proof fn lemma_nodup_same_members_multiset(a: Seq<usize>, b: Seq<usize>)
    requires
        a.no_duplicates(),
        b.no_duplicates(),
        forall|u: usize| a.contains(u) <==> b.contains(u),
    ensures
        a.to_multiset() == b.to_multiset(),
{
    broadcast use group_to_multiset_ensures;

    a.lemma_multiset_has_no_duplicates();
    b.lemma_multiset_has_no_duplicates();
    assert forall|u: usize| a.to_multiset().count(u) == b.to_multiset().count(u) by {
        if a.contains(u) {
            assert(a.to_multiset().contains(u) && b.to_multiset().contains(u));
        } else {
            assert(!a.to_multiset().contains(u) && !b.to_multiset().contains(u));
        }
    }
    assert(a.to_multiset() =~= b.to_multiset());
}

/// A scan's output has no repeated positions.
pub proof fn lemma_scan_no_duplicates(data: Seq<i32>, lo: i32, hi: i32)
    requires
        data.len() <= usize::MAX,
    ensures
        scan_positions(data, lo, hi).no_duplicates(),
{
    lemma_scan_positions_props(data, lo, hi);
    let s = scan_positions(data, lo, hi);
    assert forall|i: int, j: int|
        0 <= i < s.len() && 0 <= j < s.len() && i != j implies s[i] != s[j] by {
        if i < j {
            assert(s[i] < s[j]);
        } else {
            assert(s[j] < s[i]);
        }
    }
}

/// Membership and distinctness of a B-tree range walk: it hands out
/// exactly the positions whose value lies in the range and has a key.
proof fn lemma_btree_concat_members(m: Seq<(i32, Seq<usize>)>, data: Seq<i32>, lo: i32, hi: i32)
    requires
        data.len() <= usize::MAX,
        forall|i: int| 0 <= i < m.len() ==> (#[trigger] m[i]).1 == eq_positions(data, m[i].0),
        forall|i: int, j: int| 0 <= i < j < m.len() ==> m[i].0 < m[j].0,
    ensures
        btree_range_concat(m, lo, hi).no_duplicates(),
        forall|u: usize|
            btree_range_concat(m, lo, hi).contains(u) <==> ((u as int) < data.len() && in_range(
                data[u as int],
                lo,
                hi,
            ) && btree_has_key(m, data[u as int])),
    decreases m.len(),
{
    let cur = btree_range_concat(m, lo, hi);
    if m.len() == 0 {
        assert forall|u: usize| !cur.contains(u) by {
            if cur.contains(u) {
                let k = choose|k: int| 0 <= k < cur.len() && cur[k] == u;
            }
        }
        assert forall|u: usize| !btree_has_key(m, data[u as int]) by {
            if btree_has_key(m, data[u as int]) {
                let i = choose|i: int| 0 <= i < m.len() && (#[trigger] m[i]).0 == data[u as int];
            }
        }
    } else {
        let pre = m.drop_last();
        assert(forall|i: int| 0 <= i < pre.len() ==> pre[i] == #[trigger] m[i]);
        lemma_btree_concat_members(pre, data, lo, hi);
        let prev = btree_range_concat(pre, lo, hi);
        let last_key = m.last().0;
        let tail: Seq<usize> = if in_range(last_key, lo, hi) {
            m.last().1
        } else {
            Seq::empty()
        };
        assert(cur == prev + tail);
        lemma_eq_positions_props(data, last_key);
        assert(m[m.len() - 1].1 == eq_positions(data, last_key));
        assert forall|u: usize| cur.contains(u) implies ((u as int) < data.len() && in_range(
            data[u as int],
            lo,
            hi,
        ) && btree_has_key(m, data[u as int])) by {
            let k = choose|k: int| 0 <= k < cur.len() && cur[k] == u;
            if k < prev.len() {
                assert(prev[k] == u);
                assert(prev.contains(u));
                let i = choose|i: int|
                    0 <= i < pre.len() && (#[trigger] pre[i]).0 == data[u as int];
                assert(m[i].0 == data[u as int]);
            } else {
                assert(tail[k - prev.len()] == u);
                assert(in_range(last_key, lo, hi));
                assert(data[u as int] == last_key);
                assert(m[m.len() - 1].0 == data[u as int]);
            }
        }
        assert forall|u: usize|
            ((u as int) < data.len() && in_range(data[u as int], lo, hi) && btree_has_key(
                m,
                data[u as int],
            )) implies cur.contains(u) by {
            let i = choose|i: int| 0 <= i < m.len() && (#[trigger] m[i]).0 == data[u as int];
            if i < m.len() - 1 {
                assert(btree_has_key(pre, data[u as int])) by {
                    assert(pre[i].0 == data[u as int]);
                }
                assert(prev.contains(u));
                let k = choose|k: int| 0 <= k < prev.len() && prev[k] == u;
                assert(cur[k] == u);
            } else {
                assert(data[u as int] == last_key);
                assert(in_range(last_key, lo, hi));
                assert(eq_positions(data, last_key).contains(u));
                let k = choose|k: int| 0 <= k < tail.len() && tail[k] == u;
                assert(cur[prev.len() + k] == u);
            }
        }
        assert forall|i: int, j: int|
            0 <= i < cur.len() && 0 <= j < cur.len() && i != j implies cur[i] != cur[j] by {
            let lo_i = if i < j {
                i
            } else {
                j
            };
            let hi_j = if i < j {
                j
            } else {
                i
            };
            if hi_j < prev.len() {
                assert(prev[lo_i] == cur[lo_i] && prev[hi_j] == cur[hi_j]);
            } else if lo_i >= prev.len() {
                assert(tail[lo_i - prev.len()] != tail[hi_j - prev.len()]) by {
                    assert(in_range(last_key, lo, hi));
                    assert(eq_positions(data, last_key)[lo_i - prev.len()] < eq_positions(
                        data,
                        last_key,
                    )[hi_j - prev.len()]);
                }
            } else {
                let a = cur[lo_i];
                let b = cur[hi_j];
                if a == b {
                    assert(prev.contains(a)) by {
                        assert(prev[lo_i] == a);
                    }
                    assert(btree_has_key(pre, data[a as int]));
                    let w = choose|w: int|
                        0 <= w < pre.len() && (#[trigger] pre[w]).0 == data[a as int];
                    assert(in_range(last_key, lo, hi));
                    assert(data[b as int] == last_key) by {
                        assert(tail[hi_j - prev.len()] == b);
                        assert(eq_positions(data, last_key).contains(b));
                    }
                    assert(m[w].0 < m[m.len() - 1].0);
                    assert(false);
                }
            }
        }
    }
}

/// Whichever index a column carries, a range select picks the same
/// multiset of positions as a linear scan of the data. The one proviso:
/// with an upper bound of the greatest 32-bit integer, the data must not
/// hold that value — a scan excludes it while a sorted index's open upper
/// bound includes it.
pub proof fn lemma_select_variants_agree(col: Column, lo: i32, hi: i32)
    requires
        col.index_wf(),
        col.data@.len() <= usize::MAX,
        hi == i32::MAX ==> forall|i: int|
            0 <= i < col.data@.len() ==> (#[trigger] col.data@[i]) != i32::MAX,
    ensures
        selected_positions(col, lo, hi).to_multiset() == scan_positions(
            col.data@,
            lo,
            hi,
        ).to_multiset(),
{
    let data = col.data@;
    let scan = scan_positions(data, lo, hi);
    lemma_scan_positions_props(data, lo, hi);
    lemma_scan_no_duplicates(data, lo, hi);
    match col.index {
        ColumnIndex::NoIndex => {},
        ColumnIndex::UnclusteredSorted { sorter } => {
            let view = permuted_view(data, sorter@);
            let a = spec_binsearch(view, lo, true);
            let b = spec_binsearch(view, hi, true);
            let w = bounded_subrange(sorter@, a, b);
            if lo == i32::MAX {
                assert(a == view.len());
                if scan.len() > 0 {
                    assert(in_range(data[scan[0] as int], lo, hi));
                    assert(false);
                }
                assert(scan =~= Seq::<usize>::empty());
                assert(w =~= Seq::<usize>::empty());
            } else {
                assert(0 <= a <= view.len() && (forall|k: int|
                    0 <= k < a ==> view[k] < lo) && (forall|k: int|
                    a <= k < view.len() ==> view[k] >= lo)) by {
                    if lo == i32::MIN {
                    } else {
                        lemma_sorted_count_lt(view, lo);
                    }
                }
                assert(0 <= b <= view.len() && (forall|k: int| 0 <= k < b ==> view[k] < hi) && (
                forall|k: int| b <= k < view.len() ==> view[k] >= hi)) by {
                    if hi == i32::MAX {
                        assert forall|k: int| 0 <= k < view.len() implies view[k] < hi by {
                            assert(data[sorter@[k] as int] != i32::MAX);
                        }
                    } else if hi == i32::MIN {
                    } else {
                        lemma_sorted_count_lt(view, hi);
                    }
                }
                assert forall|u: usize| w.contains(u) implies scan.contains(u) by {
                    let k0 = choose|k: int| 0 <= k < w.len() && w[k] == u;
                    let k = k0 + a;
                    assert(sorter@[k] == u);
                    assert(view[k] == data[u as int]);
                    assert(in_range(data[u as int], lo, hi));
                    assert(u < data.len());
                }
                assert forall|u: usize| scan.contains(u) implies w.contains(u) by {
                    let q = choose|q: int| 0 <= q < scan.len() && scan[q] == u;
                    assert((u as int) < data.len() && in_range(data[u as int], lo, hi));
                    lemma_perm_contains_all(sorter@, data.len() as nat, u);
                    let k = choose|k: int| 0 <= k < sorter@.len() && sorter@[k] == u;
                    assert(view[k] == data[u as int]);
                    assert(a <= k < b);
                    assert(w[k - a] == u);
                }
                assert(w.no_duplicates()) by {
                    assert forall|i: int, j: int|
                        0 <= i < w.len() && 0 <= j < w.len() && i != j implies w[i] != w[j] by {
                        assert(w[i] == sorter@[i + a] && w[j] == sorter@[j + a]);
                    }
                }
                lemma_nodup_same_members_multiset(w, scan);
            }
        },
        ColumnIndex::ClusteredSorted => {
            let a = spec_binsearch(data, lo, true);
            let b = spec_binsearch(data, hi, true);
            let w = selected_positions(col, lo, hi);
            if lo == i32::MAX {
                assert(a == data.len());
                if scan.len() > 0 {
                    assert(in_range(data[scan[0] as int], lo, hi));
                    assert(false);
                }
                assert(scan =~= Seq::<usize>::empty());
                assert(b <= data.len()) by {
                    if hi == i32::MAX {
                    } else if hi == i32::MIN {
                    } else {
                        lemma_sorted_count_lt(data, hi);
                    }
                }
                if a <= b {
                    assert(b - a <= 0);
                    assert(w =~= Seq::<usize>::empty());
                } else {
                    assert(w =~= Seq::<usize>::empty());
                }
            } else {
                assert(0 <= a <= data.len() && (forall|k: int| 0 <= k < a ==> data[k] < lo) && (
                forall|k: int| a <= k < data.len() ==> data[k] >= lo)) by {
                    if lo == i32::MIN {
                    } else {
                        lemma_sorted_count_lt(data, lo);
                    }
                }
                assert(0 <= b <= data.len() && (forall|k: int| 0 <= k < b ==> data[k] < hi) && (
                forall|k: int| b <= k < data.len() ==> data[k] >= hi)) by {
                    if hi == i32::MAX {
                        assert forall|k: int| 0 <= k < data.len() implies data[k] < hi by {
                            assert(data[k] != i32::MAX);
                        }
                    } else if hi == i32::MIN {
                    } else {
                        lemma_sorted_count_lt(data, hi);
                    }
                }
                assert forall|u: usize| w.contains(u) implies scan.contains(u) by {
                    let k = choose|k: int| 0 <= k < w.len() && w[k] == u;
                    assert(a <= b);
                    assert(u as int == a + k);
                    assert(in_range(data[u as int], lo, hi));
                }
                assert forall|u: usize| scan.contains(u) implies w.contains(u) by {
                    let q = choose|q: int| 0 <= q < scan.len() && scan[q] == u;
                    assert((u as int) < data.len() && in_range(data[u as int], lo, hi));
                    assert(a <= u as int && (u as int) < b);
                    assert(a <= b);
                    assert(w == range_positions(a, b - a));
                    assert(w[u as int - a] == u);
                }
                assert(w.no_duplicates()) by {
                    if a <= b {
                        assert forall|i: int, j: int|
                            0 <= i < w.len() && 0 <= j < w.len() && i != j implies w[i] != w[j] by {
                            assert(w[i] == (a + i) as usize && w[j] == (a + j) as usize);
                        }
                    }
                }
                lemma_nodup_same_members_multiset(w, scan);
            }
        },
        ColumnIndex::UnclusteredBTree { btree } => {
            lemma_btree_members_agree(btree.model(), data, lo, hi, scan);
        },
        ColumnIndex::ClusteredBTree { btree } => {
            lemma_btree_members_agree(btree.model(), data, lo, hi, scan);
        },
    }
}

/// The B-tree walk and the scan pick the same multiset.
proof fn lemma_btree_members_agree(
    m: Seq<(i32, Seq<usize>)>,
    data: Seq<i32>,
    lo: i32,
    hi: i32,
    scan: Seq<usize>,
)
    requires
        data.len() <= usize::MAX,
        btree_wf(m, data),
        scan == scan_positions(data, lo, hi),
    ensures
        btree_range_concat(m, lo, hi).to_multiset() == scan.to_multiset(),
{
    lemma_scan_positions_props(data, lo, hi);
    lemma_scan_no_duplicates(data, lo, hi);
    lemma_btree_concat_members(m, data, lo, hi);
    let w = btree_range_concat(m, lo, hi);
    assert forall|u: usize| w.contains(u) <==> scan.contains(u) by {
        if w.contains(u) {
            assert((u as int) < data.len() && in_range(data[u as int], lo, hi));
        }
        if scan.contains(u) {
            let q = choose|q: int| 0 <= q < scan.len() && scan[q] == u;
            assert((u as int) < data.len() && in_range(data[u as int], lo, hi));
            assert(btree_has_key(m, data[u as int]));
        }
    }
    lemma_nodup_same_members_multiset(w, scan);
}

/// The in-range values of a vector, in position order.
pub open spec fn values_in_range(v: Seq<i32>, lo: i32, hi: i32) -> Seq<i32>
    decreases v.len(),
{
    if v.len() == 0 {
        Seq::empty()
    } else {
        values_in_range(v.drop_last(), lo, hi) + if in_range(v.last(), lo, hi) {
            seq![v.last()]
        } else {
            Seq::empty()
        }
    }
}

/// Fetching a scan's selection yields exactly the vector's in-range
/// values, in their original order.
pub proof fn lemma_fetch_of_scan_select(v: Seq<i32>, lo: i32, hi: i32)
    requires
        v.len() <= usize::MAX,
    ensures
        gather_values(v, scan_positions(v, lo, hi)) == values_in_range(v, lo, hi),
    decreases v.len(),
{
    if v.len() == 0 {
        assert(gather_values(v, scan_positions(v, lo, hi)) =~= values_in_range(v, lo, hi));
    } else {
        let pre = v.drop_last();
        lemma_fetch_of_scan_select(pre, lo, hi);
        lemma_scan_positions_props(pre, lo, hi);
        let n = v.len() as int;
        let scan_pre = scan_positions(pre, lo, hi);
        let scan_cur = scan_positions(v, lo, hi);
        let tail: Seq<usize> = if in_range(v.last(), lo, hi) {
            seq![(n - 1) as usize]
        } else {
            Seq::empty()
        };
        assert(scan_cur == scan_pre + tail);
        assert(gather_values(v, scan_pre) =~= gather_values(pre, scan_pre)) by {
            assert(forall|k: int|
                0 <= k < scan_pre.len() ==> (#[trigger] scan_pre[k]) < pre.len() && pre[scan_pre[k] as int]
                    == v[scan_pre[k] as int]);
        }
        assert(gather_values(v, scan_cur) =~= gather_values(v, scan_pre) + gather_values(v, tail));
        if in_range(v.last(), lo, hi) {
            assert(gather_values(v, tail) =~= seq![v.last()]);
        } else {
            assert(gather_values(v, tail) =~= Seq::<i32>::empty());
        }
        assert(gather_values(v, scan_cur) =~= values_in_range(v, lo, hi));
    }
}

/// When the in-range values sit in one contiguous block, the filter is
/// exactly that block.
proof fn lemma_values_in_range_contiguous(data: Seq<i32>, lo: i32, hi: i32, a: int, b: int)
    requires
        0 <= a <= b <= data.len(),
        forall|k: int| 0 <= k < a ==> !in_range(#[trigger] data[k], lo, hi),
        forall|k: int| a <= k < b ==> in_range(#[trigger] data[k], lo, hi),
        forall|k: int| b <= k < data.len() ==> !in_range(#[trigger] data[k], lo, hi),
    ensures
        values_in_range(data, lo, hi) == data.subrange(a, b),
    decreases data.len(),
{
    if data.len() == 0 {
        assert(values_in_range(data, lo, hi) =~= data.subrange(a, b));
    } else {
        let pre = data.drop_last();
        let n = data.len() as int;
        assert(forall|k: int| 0 <= k < n - 1 ==> #[trigger] pre[k] == data[k]);
        if b == n && a < n {
            lemma_values_in_range_contiguous(pre, lo, hi, a, b - 1);
            assert(in_range(data.last(), lo, hi));
            assert(values_in_range(data, lo, hi) =~= data.subrange(a, b));
        } else if b == n && a == n {
            lemma_values_in_range_contiguous(pre, lo, hi, n - 1, n - 1);
            assert(!in_range(data.last(), lo, hi));
            assert(values_in_range(data, lo, hi) =~= data.subrange(a, b));
        } else {
            lemma_values_in_range_contiguous(pre, lo, hi, a, b);
            assert(!in_range(data.last(), lo, hi));
            assert(values_in_range(data, lo, hi) =~= data.subrange(a, b));
        }
    }
}

/// Fetching a clustered select's positions also yields exactly the
/// in-range values in order: on sorted data they form one block. The same
/// proviso on an upper bound of the greatest integer applies as for the
/// multiset law.
pub proof fn lemma_fetch_of_clustered_select(col: Column, lo: i32, hi: i32)
    requires
        col.index_wf(),
        col.index is ClusteredSorted,
        col.data@.len() <= usize::MAX,
        hi == i32::MAX ==> forall|i: int|
            0 <= i < col.data@.len() ==> (#[trigger] col.data@[i]) != i32::MAX,
    ensures
        gather_values(col.data@, selected_positions(col, lo, hi)) == values_in_range(
            col.data@,
            lo,
            hi,
        ),
{
    let data = col.data@;
    let n = data.len() as int;
    let a = spec_binsearch(data, lo, true);
    let b = spec_binsearch(data, hi, true);
    let w = selected_positions(col, lo, hi);
    if lo == i32::MAX {
        assert(forall|k: int| 0 <= k < n ==> !in_range(#[trigger] data[k], lo, hi));
        lemma_values_in_range_contiguous(data, lo, hi, n, n);
        assert(b <= n) by {
            if hi == i32::MAX {
            } else if hi == i32::MIN {
            } else {
                lemma_sorted_count_lt(data, hi);
            }
        }
        if a <= b {
            assert(w =~= Seq::<usize>::empty());
        } else {
            assert(w =~= Seq::<usize>::empty());
        }
        assert(gather_values(data, w) =~= data.subrange(n, n));
    } else {
        assert(0 <= a <= n && (forall|k: int| 0 <= k < a ==> data[k] < lo) && (forall|k: int|
            a <= k < n ==> data[k] >= lo)) by {
            if lo == i32::MIN {
            } else {
                lemma_sorted_count_lt(data, lo);
            }
        }
        assert(0 <= b <= n && (forall|k: int| 0 <= k < b ==> data[k] < hi) && (forall|k: int|
            b <= k < n ==> data[k] >= hi)) by {
            if hi == i32::MAX {
                assert forall|k: int| 0 <= k < n implies data[k] < hi by {
                    assert(data[k] != i32::MAX);
                }
            } else if hi == i32::MIN {
            } else {
                lemma_sorted_count_lt(data, hi);
            }
        }
        if a <= b {
            lemma_values_in_range_contiguous(data, lo, hi, a, b);
            assert(w == range_positions(a, b - a));
            assert(gather_values(data, w) =~= data.subrange(a, b));
        } else {
            assert(forall|k: int| 0 <= k < n ==> !in_range(#[trigger] data[k], lo, hi));
            lemma_values_in_range_contiguous(data, lo, hi, n, n);
            assert(w =~= Seq::<usize>::empty());
            assert(gather_values(data, w) =~= data.subrange(n, n));
        }
    }
}

/// When the exact sum fits 64 bits — as any practical vector's does — the
/// stored sum aggregate is the exact mathematical sum.
pub proof fn lemma_sum_exact_when_in_range(vals: Seq<i32>)
    requires
        i64::MIN <= crate::command::agg::sum_int(vals) <= i64::MAX,
    ensures
        crate::model::wrap_to_i64(crate::command::agg::sum_int(vals))
            == crate::command::agg::sum_int(vals),
{
    let s = crate::command::agg::sum_int(vals);
    vstd::arithmetic::div_mod::lemma_mod_multiples_basic(0, 0x1_0000_0000_0000_0000);
    crate::model::lemma_wrap_unique(s, s, 0x8000_0000_0000_0000);
}

/// A join over empty inputs on the right produces nothing.
proof fn lemma_join_pairs_empty_right(b: Seq<i32>, pb: Seq<usize>, a: Seq<i32>, pa: Seq<usize>)
    requires
        a.len() == 0 || pa.len() == 0,
    ensures
        join_pairs(b, pb, a, pa) == Seq::<(usize, usize)>::empty(),
    decreases b.len(),
{
    if b.len() == 0 || pb.len() == 0 {
    } else {
        lemma_join_pairs_empty_right(b.drop_first(), pb.drop_first(), a, pa);
        assert(join_pairs(b, pb, a, pa) =~= Seq::<(usize, usize)>::empty());
    }
}

/// Swapping exchanges the counts of mirrored pairs.
proof fn lemma_swap_count(s: Seq<(usize, usize)>, u: usize, v: usize)
    ensures
        swap_pairs(s).to_multiset().count((u, v)) == s.to_multiset().count((v, u)),
    decreases s.len(),
{
    broadcast use group_to_multiset_ensures;

    if s.len() == 0 {
        assert(swap_pairs(s) =~= Seq::<(usize, usize)>::empty());
    } else {
        lemma_swap_count(s.drop_last(), u, v);
        assert(swap_pairs(s) =~= swap_pairs(s.drop_last()).push((s.last().1, s.last().0)));
        assert(s =~= s.drop_last().push(s.last()));
        assert(s.to_multiset() == s.drop_last().to_multiset().insert(s.last()));
        assert(swap_pairs(s).to_multiset() == swap_pairs(s.drop_last()).to_multiset().insert(
            (s.last().1, s.last().0),
        ));
    }
}

/// Peeling the first left row off the right side of a join: its pairs are
/// exactly the mirrored pairs of that row against the other side.
proof fn lemma_join_peel(
    b: Seq<i32>,
    pb: Seq<usize>,
    a0: i32,
    pa0: usize,
    a2: Seq<i32>,
    pa2: Seq<usize>,
    u: usize,
    v: usize,
)
    ensures
        join_pairs(b, pb, seq![a0] + a2, seq![pa0] + pa2).to_multiset().count((u, v)) == swap_pairs(
            row_pairs(a0, pa0, b, pb),
        ).to_multiset().count((u, v)) + join_pairs(b, pb, a2, pa2).to_multiset().count((u, v)),
    decreases b.len(),
{
    broadcast use group_to_multiset_ensures;

    let a = seq![a0] + a2;
    let pa = seq![pa0] + pa2;
    assert(a[0] == a0 && pa[0] == pa0);
    assert(a.drop_first() =~= a2);
    assert(pa.drop_first() =~= pa2);
    if b.len() == 0 || pb.len() == 0 {
        assert(join_pairs(b, pb, a, pa) =~= Seq::<(usize, usize)>::empty());
        assert(row_pairs(a0, pa0, b, pb) =~= Seq::<(usize, usize)>::empty());
        assert(swap_pairs(row_pairs(a0, pa0, b, pb)) =~= Seq::<(usize, usize)>::empty());
        assert(join_pairs(b, pb, a2, pa2) =~= Seq::<(usize, usize)>::empty());
    } else {
        lemma_join_peel(b.drop_first(), pb.drop_first(), a0, pa0, a2, pa2, u, v);
        let head_match: Seq<(usize, usize)> = if a[0] == b[0] {
            seq![(pb[0], pa[0])]
        } else {
            Seq::empty()
        };
        assert(row_pairs(b[0], pb[0], a, pa) == (if a[0] == b[0] {
            seq![(pb[0], pa[0])]
        } else {
            Seq::<(usize, usize)>::empty()
        }) + row_pairs(b[0], pb[0], a2, pa2));
        assert(join_pairs(b, pb, a, pa) == row_pairs(b[0], pb[0], a, pa) + join_pairs(
            b.drop_first(),
            pb.drop_first(),
            a,
            pa,
        ));
        lemma_multiset_commutative(row_pairs(b[0], pb[0], a, pa), join_pairs(
            b.drop_first(),
            pb.drop_first(),
            a,
            pa,
        ));
        lemma_multiset_commutative(head_match, row_pairs(b[0], pb[0], a2, pa2));
        assert(row_pairs(b[0], pb[0], a, pa) =~= head_match + row_pairs(b[0], pb[0], a2, pa2));
        assert(join_pairs(b, pb, a2, pa2) == row_pairs(b[0], pb[0], a2, pa2) + join_pairs(
            b.drop_first(),
            pb.drop_first(),
            a2,
            pa2,
        ));
        lemma_multiset_commutative(row_pairs(b[0], pb[0], a2, pa2), join_pairs(
            b.drop_first(),
            pb.drop_first(),
            a2,
            pa2,
        ));
        assert(swap_pairs(row_pairs(a0, pa0, b, pb)) =~= (if a0 == b[0] {
            seq![(pb[0], pa0)]
        } else {
            Seq::<(usize, usize)>::empty()
        }) + swap_pairs(row_pairs(a0, pa0, b.drop_first(), pb.drop_first())));
        lemma_multiset_commutative(
            (if a0 == b[0] {
                seq![(pb[0], pa0)]
            } else {
                Seq::<(usize, usize)>::empty()
            }),
            swap_pairs(row_pairs(a0, pa0, b.drop_first(), pb.drop_first())),
        );
    }
}

/// A join over an empty left side produces nothing, whatever the right.
proof fn lemma_join_pairs_empty_b_side(b: Seq<i32>, pb: Seq<usize>, a: Seq<i32>, pa: Seq<usize>)
    requires
        a.len() == 0 || pa.len() == 0,
    ensures
        join_pairs(b, pb, a, pa) == Seq::<(usize, usize)>::empty(),
    decreases b.len(),
{
    if b.len() == 0 || pb.len() == 0 {
    } else {
        lemma_join_pairs_empty_b_side(b.drop_first(), pb.drop_first(), a, pa);
        assert(row_pairs(b[0], pb[0], a, pa) =~= Seq::<(usize, usize)>::empty());
        assert(join_pairs(b, pb, a, pa) =~= Seq::<(usize, usize)>::empty());
    }
}

/// Exchanging the sides of a join mirrors every pair: the two orders hold
/// the same pairs as multisets.
proof fn lemma_join_transpose_count(
    a: Seq<i32>,
    pa: Seq<usize>,
    b: Seq<i32>,
    pb: Seq<usize>,
    u: usize,
    v: usize,
)
    ensures
        join_pairs(a, pa, b, pb).to_multiset().count((u, v)) == join_pairs(
            b,
            pb,
            a,
            pa,
        ).to_multiset().count((v, u)),
    decreases a.len(),
{
    broadcast use group_to_multiset_ensures;

    if a.len() == 0 || pa.len() == 0 {
        assert(join_pairs(a, pa, b, pb) =~= Seq::<(usize, usize)>::empty());
        lemma_join_pairs_empty_b_side(b, pb, a, pa);
    } else {
        lemma_join_transpose_count(a.drop_first(), pa.drop_first(), b, pb, u, v);
        assert(join_pairs(a, pa, b, pb) == row_pairs(a[0], pa[0], b, pb) + join_pairs(
            a.drop_first(),
            pa.drop_first(),
            b,
            pb,
        ));
        lemma_multiset_commutative(row_pairs(a[0], pa[0], b, pb), join_pairs(
            a.drop_first(),
            pa.drop_first(),
            b,
            pb,
        ));
        assert(seq![a[0]] + a.drop_first() =~= a);
        assert(seq![pa[0]] + pa.drop_first() =~= pa);
        lemma_join_peel(b, pb, a[0], pa[0], a.drop_first(), pa.drop_first(), v, u);
        lemma_swap_count(row_pairs(a[0], pa[0], b, pb), v, u);
    }
}

/// Every join algorithm produces the nested-loop multiset of pairs.
pub proof fn lemma_join_algorithms_agree(v1: Seq<i32>, p1: Seq<usize>, v2: Seq<i32>, p2: Seq<usize>)
    ensures
        hash_result(v1, p1, v2, p2).to_multiset() == join_pairs(v1, p1, v2, p2).to_multiset(),
{
    broadcast use group_to_multiset_ensures;

    lemma_hash_as_swapped_join(v1, p1, v2, p2);
    lemma_hash_as_swapped_join(v2, p2, v1, p1);
    if v1.len() < v2.len() {
        assert(hash_result(v1, p1, v2, p2) == swap_pairs(join_pairs(v2, p2, v1, p1)));
        assert forall|q: (usize, usize)|
            hash_result(v1, p1, v2, p2).to_multiset().count(q) == join_pairs(
                v1,
                p1,
                v2,
                p2,
            ).to_multiset().count(q) by {
            lemma_swap_count(join_pairs(v2, p2, v1, p1), q.0, q.1);
            lemma_join_transpose_count(v1, p1, v2, p2, q.0, q.1);
            assert(q == (q.0, q.1));
        }
        assert(hash_result(v1, p1, v2, p2).to_multiset() =~= join_pairs(
            v1,
            p1,
            v2,
            p2,
        ).to_multiset());
    } else {
        assert(hash_result(v1, p1, v2, p2) == swap_pairs(swap_pairs(join_pairs(v1, p1, v2, p2))));
        assert(swap_pairs(swap_pairs(join_pairs(v1, p1, v2, p2))) =~= join_pairs(
            v1,
            p1,
            v2,
            p2,
        ));
    }
}

/// The probe-major hash order is the mirrored probe-side join.
proof fn lemma_hash_as_swapped_join(bv: Seq<i32>, bp: Seq<usize>, pv: Seq<i32>, pp: Seq<usize>)
    ensures
        hash_join_pairs(bv, bp, pv, pp) == swap_pairs(join_pairs(pv, pp, bv, bp)),
    decreases pv.len(),
{
    if pv.len() == 0 || pp.len() == 0 {
        assert(hash_join_pairs(bv, bp, pv, pp) =~= swap_pairs(join_pairs(pv, pp, bv, bp)));
    } else {
        lemma_hash_as_swapped_join(bv, bp, pv.drop_first(), pp.drop_first());
        assert(hash_join_pairs(bv, bp, pv, pp) =~= swap_pairs(join_pairs(pv, pp, bv, bp)));
    }
}

} // verus!
