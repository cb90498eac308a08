//! Shared specification vocabulary: sortedness, permutations of an index
//! range, and the positions a range scan selects.

use vstd::prelude::*;

verus! {

/// A sequence of values in non-decreasing order.
pub open spec fn sorted(s: Seq<i32>) -> bool {
    forall|i: int, j: int| 0 <= i <= j < s.len() ==> s[i] <= s[j]
}

/// `s` holds each index of `[0, n)` exactly once.
pub open spec fn is_perm_of_range(s: Seq<usize>, n: nat) -> bool {
    &&& s.len() == n
    &&& forall|i: int| 0 <= i < s.len() ==> (#[trigger] s[i]) < n
    &&& forall|i: int, j: int| 0 <= i < j < s.len() ==> s[i] != s[j]
}

/// The data as seen through a sorter permutation.
pub open spec fn permuted_view(data: Seq<i32>, sorter: Seq<usize>) -> Seq<i32> {
    Seq::new(sorter.len(), |i: int| data[sorter[i] as int])
}

/// A sorter index for `data`: a permutation of `[0, data.len())` under which
/// the data reads in non-decreasing order.
pub open spec fn is_sorter_for(sorter: Seq<usize>, data: Seq<i32>) -> bool {
    &&& is_perm_of_range(sorter, data.len())
    &&& sorted(permuted_view(data, sorter))
}

/// Whether `v` lies in the half-open range `[lo, hi)`.
pub open spec fn in_range(v: i32, lo: i32, hi: i32) -> bool {
    lo <= v < hi
}

/// The positions of `data` whose values lie in `[lo, hi)`, in position order.
pub open spec fn scan_positions(data: Seq<i32>, lo: i32, hi: i32) -> Seq<usize>
    decreases data.len(),
{
    if data.len() == 0 {
        Seq::empty()
    } else {
        scan_positions(data.drop_last(), lo, hi) + if in_range(data.last(), lo, hi) {
            seq![(data.len() - 1) as usize]
        } else {
            Seq::empty()
        }
    }
}

/// The positions of `data` holding exactly the value `v`, in position order.
pub open spec fn eq_positions(data: Seq<i32>, v: i32) -> Seq<usize>
    decreases data.len(),
{
    if data.len() == 0 {
        Seq::empty()
    } else {
        eq_positions(data.drop_last(), v) + if data.last() == v {
            seq![(data.len() - 1) as usize]
        } else {
            Seq::empty()
        }
    }
}

/// How many elements of `s` are strictly below `v`.
pub open spec fn count_lt(s: Seq<i32>, v: i32) -> int
    decreases s.len(),
{
    if s.len() == 0 {
        0
    } else {
        count_lt(s.drop_last(), v) + if s.last() < v {
            1int
        } else {
            0int
        }
    }
}

/// How many elements of `s` are at most `v`.
pub open spec fn count_le(s: Seq<i32>, v: i32) -> int
    decreases s.len(),
{
    if s.len() == 0 {
        0
    } else {
        count_le(s.drop_last(), v) + if s.last() <= v {
            1int
        } else {
            0int
        }
    }
}

/// The consecutive positions `[from, from + len)`.
pub open spec fn range_positions(from: int, len: int) -> Seq<usize> {
    Seq::new(len as nat, |i: int| (from + i) as usize)
}

/// Each selected position replaced by the caller's position at that index.
pub open spec fn gather_positions(through: Seq<usize>, selected: Seq<usize>) -> Seq<usize> {
    selected.map_values(|p: usize| through[p as int])
}

/// The values of `data` at the given positions.
pub open spec fn gather_values(data: Seq<i32>, positions: Seq<usize>) -> Seq<i32> {
    positions.map_values(|p: usize| data[p as int])
}

pub proof fn lemma_scan_positions_props(data: Seq<i32>, lo: i32, hi: i32)
    requires
        data.len() <= usize::MAX,
    ensures
        forall|k: int|
            0 <= k < scan_positions(data, lo, hi).len() ==> (#[trigger] scan_positions(
                data,
                lo,
                hi,
            )[k]) < data.len() && in_range(data[scan_positions(data, lo, hi)[k] as int], lo, hi),
        forall|i: int, j: int|
            0 <= i < j < scan_positions(data, lo, hi).len() ==> scan_positions(data, lo, hi)[i]
                < scan_positions(data, lo, hi)[j],
        forall|u: usize|
            0 <= (u as int) < data.len() && in_range(data[u as int], lo, hi)
                ==> scan_positions(data, lo, hi).contains(u),
    decreases data.len(),
{
    if data.len() > 0 {
        lemma_scan_positions_props(data.drop_last(), lo, hi);
        let prev = scan_positions(data.drop_last(), lo, hi);
        let cur = scan_positions(data, lo, hi);
        let n = data.len() as int;
        let tail: Seq<usize> = if in_range(data.last(), lo, hi) {
            seq![(n - 1) as usize]
        } else {
            Seq::empty()
        };
        assert(cur == prev + tail);
        assert(forall|k: int| 0 <= k < prev.len() ==> prev[k] == #[trigger] cur[k]);
        assert(forall|p: int| 0 <= p < n - 1 ==> #[trigger] data.drop_last()[p] == data[p]);
        assert forall|k: int| 0 <= k < cur.len() implies (#[trigger] cur[k]) < data.len()
            && in_range(data[cur[k] as int], lo, hi) by {
            if k < prev.len() {
                assert(cur[k] == prev[k]);
                assert(prev[k] < n - 1);
                assert(in_range(data.drop_last()[prev[k] as int], lo, hi));
            } else {
                assert(in_range(data.last(), lo, hi));
                assert(cur[k] == (n - 1) as usize);
            }
        }
        assert forall|i: int, j: int| 0 <= i < j < cur.len() implies cur[i] < cur[j] by {
            if j < prev.len() {
                assert(prev[i] < prev[j]);
            } else {
                assert(cur[j] == (n - 1) as usize);
                assert(cur[i] == prev[i]);
                assert(prev[i] < n - 1);
            }
        }
        assert forall|u: usize|
            0 <= (u as int) < data.len() && in_range(data[u as int], lo, hi) implies cur.contains(
            u,
        ) by {
            if (u as int) < n - 1 {
                assert(data.drop_last()[u as int] == data[u as int]);
                assert(prev.contains(u));
                let k = choose|k: int| 0 <= k < prev.len() && prev[k] == u;
                assert(cur[k] == u);
            } else {
                assert(in_range(data.last(), lo, hi));
                assert(cur[cur.len() - 1] == u);
            }
        }
    }
}

pub proof fn lemma_eq_positions_props(data: Seq<i32>, v: i32)
    requires
        data.len() <= usize::MAX,
    ensures
        forall|k: int|
            0 <= k < eq_positions(data, v).len() ==> (#[trigger] eq_positions(data, v)[k])
                < data.len() && data[eq_positions(data, v)[k] as int] == v,
        forall|i: int, j: int|
            0 <= i < j < eq_positions(data, v).len() ==> eq_positions(data, v)[i] < eq_positions(
                data,
                v,
            )[j],
        forall|u: usize|
            0 <= (u as int) < data.len() && data[u as int] == v ==> eq_positions(data, v).contains(
                u,
            ),
    decreases data.len(),
{
    if data.len() > 0 {
        lemma_eq_positions_props(data.drop_last(), v);
        let prev = eq_positions(data.drop_last(), v);
        let cur = eq_positions(data, v);
        let n = data.len() as int;
        let tail: Seq<usize> = if data.last() == v {
            seq![(n - 1) as usize]
        } else {
            Seq::empty()
        };
        assert(cur == prev + tail);
        assert(forall|k: int| 0 <= k < prev.len() ==> prev[k] == #[trigger] cur[k]);
        assert(forall|p: int| 0 <= p < n - 1 ==> #[trigger] data.drop_last()[p] == data[p]);
        assert forall|k: int| 0 <= k < cur.len() implies (#[trigger] cur[k]) < data.len()
            && data[cur[k] as int] == v by {
            if k < prev.len() {
                assert(cur[k] == prev[k]);
                assert(prev[k] < n - 1);
                assert(data.drop_last()[prev[k] as int] == v);
            } else {
                assert(data.last() == v);
                assert(cur[k] == (n - 1) as usize);
            }
        }
        assert forall|i: int, j: int| 0 <= i < j < cur.len() implies cur[i] < cur[j] by {
            if j < prev.len() {
                assert(prev[i] < prev[j]);
            } else {
                assert(cur[j] == (n - 1) as usize);
                assert(cur[i] == prev[i]);
                assert(prev[i] < n - 1);
            }
        }
        assert forall|u: usize| 0 <= (u as int) < data.len() && data[u as int] == v implies cur
            .contains(u) by {
            if (u as int) < n - 1 {
                assert(data.drop_last()[u as int] == data[u as int]);
                assert(prev.contains(u));
                let k = choose|k: int| 0 <= k < prev.len() && prev[k] == u;
                assert(cur[k] == u);
            } else {
                assert(data.last() == v);
                assert(cur[cur.len() - 1] == u);
            }
        }
    }
}

/// On a sorted sequence, a boundary position below which everything is
/// strictly below `v` and from which on nothing is, counts the elements
/// strictly below `v`.
pub proof fn lemma_count_lt_boundary(s: Seq<i32>, v: i32, p: int)
    requires
        0 <= p <= s.len(),
        forall|i: int| 0 <= i < p ==> s[i] < v,
        forall|i: int| p <= i < s.len() ==> s[i] >= v,
    ensures
        count_lt(s, v) == p,
    decreases s.len(),
{
    if s.len() > 0 {
        if p == s.len() {
            lemma_count_lt_boundary(s.drop_last(), v, p - 1);
        } else {
            lemma_count_lt_boundary(s.drop_last(), v, p);
        }
    }
}

/// On a sorted sequence the below-count is itself a boundary position.
pub proof fn lemma_sorted_count_lt(s: Seq<i32>, v: i32)
    requires
        sorted(s),
    ensures
        0 <= count_lt(s, v) <= s.len(),
        forall|i: int| 0 <= i < count_lt(s, v) ==> s[i] < v,
        forall|i: int| count_lt(s, v) <= i < s.len() ==> s[i] >= v,
    decreases s.len(),
{
    if s.len() > 0 {
        let pre = s.drop_last();
        assert(forall|i: int| 0 <= i < pre.len() ==> pre[i] == s[i]);
        assert(sorted(pre));
        lemma_sorted_count_lt(pre, v);
        if s.last() < v {
            assert forall|i: int| 0 <= i < s.len() implies s[i] < v by {
                assert(s[i] <= s[s.len() - 1]);
            }
            lemma_count_lt_boundary(s, v, s.len() as int);
        }
    }
}

/// The same, for the at-most count.
pub proof fn lemma_sorted_count_le(s: Seq<i32>, v: i32)
    requires
        sorted(s),
    ensures
        0 <= count_le(s, v) <= s.len(),
        forall|i: int| 0 <= i < count_le(s, v) ==> s[i] <= v,
        forall|i: int| count_le(s, v) <= i < s.len() ==> s[i] > v,
    decreases s.len(),
{
    if s.len() > 0 {
        let pre = s.drop_last();
        assert(forall|i: int| 0 <= i < pre.len() ==> pre[i] == s[i]);
        assert(sorted(pre));
        lemma_sorted_count_le(pre, v);
        if s.last() <= v {
            assert forall|i: int| 0 <= i < s.len() implies s[i] <= v by {
                assert(s[i] <= s[s.len() - 1]);
            }
            lemma_count_le_boundary(s, v, s.len() as int);
        }
    }
}

/// Inserting `v` at a boundary position of a sorted sequence keeps it
/// sorted: everything before the slot is at most `v`, everything from the
/// slot on is at least `v`.
pub proof fn lemma_insert_sorted(s: Seq<i32>, v: i32, p: int)
    requires
        sorted(s),
        0 <= p <= s.len(),
        forall|i: int| 0 <= i < p ==> s[i] <= v,
        forall|i: int| p <= i < s.len() ==> s[i] >= v,
    ensures
        sorted(s.insert(p, v)),
{
    s.insert_ensures(p, v);
    let t = s.insert(p, v);
    assert forall|i: int, j: int| 0 <= i <= j < t.len() implies t[i] <= t[j] by {
        let si = if i < p {
            s[i]
        } else if i == p {
            v
        } else {
            s[i - 1]
        };
        let sj = if j < p {
            s[j]
        } else if j == p {
            v
        } else {
            s[j - 1]
        };
        assert(t[i] == si && t[j] == sj);
    }
}

/// The 64-bit two's-complement wrap of an arbitrary integer.
pub open spec fn wrap_to_i64(x: int) -> int {
    ((x + 0x8000_0000_0000_0000) % 0x1_0000_0000_0000_0000) - 0x8000_0000_0000_0000
}

/// The 32-bit two's-complement wrap of an arbitrary integer.
pub open spec fn wrap_to_i32(x: int) -> int {
    ((x + 0x8000_0000) % 0x1_0000_0000) - 0x8000_0000
}

/// A value congruent to `x` modulo the width and within the signed range is
/// exactly the wrap of `x`.
pub proof fn lemma_wrap_unique(x: int, y: int, half: int)
    requires
        half > 0,
        -half <= y < half,
        (x - y) % (2 * half) == 0,
    ensures
        y == ((x + half) % (2 * half)) - half,
{
    let m = 2 * half;
    vstd::arithmetic::div_mod::lemma_fundamental_div_mod(x - y, m);
    let q = (x - y) / m;
    assert(x - y == m * q);
    assert(x + half == m * q + (y + half));
    vstd::arithmetic::div_mod::lemma_mod_multiples_vanish(q, y + half, m);
    assert((x + half) % m == (y + half) % m);
    vstd::arithmetic::div_mod::lemma_small_mod((y + half) as nat, m as nat);
    assert((y + half) % m == y + half);
}

/// Gathers the values of `data` at the given positions.
pub fn gather_i32_exec(data: &Vec<i32>, positions: &Vec<usize>) -> (r: Vec<i32>)
    requires
        forall|i: int| 0 <= i < positions@.len() ==> (#[trigger] positions@[i]) < data@.len(),
    ensures
        r@ == gather_values(data@, positions@),
{
    let mut r: Vec<i32> = Vec::new();
    let mut i: usize = 0;
    proof {
        assert(r@ =~= positions@.take(0).map_values(|p: usize| data@[p as int]));
    }
    while i < positions.len()
        invariant
            i <= positions@.len(),
            forall|k: int| 0 <= k < positions@.len() ==> (#[trigger] positions@[k]) < data@.len(),
            r@ == positions@.take(i as int).map_values(|p: usize| data@[p as int]),
        decreases positions@.len() - i,
    {
        r.push(data[positions[i]]);
        proof {
            assert(r@ =~= positions@.take(i as int + 1).map_values(|p: usize| data@[p as int]));
        }
        i = i + 1;
    }
    proof {
        assert(positions@.take(positions@.len() as int) =~= positions@);
    }
    r
}

/// Gathers the caller's positions at the selected indices.
pub fn gather_usize_exec(through: &Vec<usize>, selected: &Vec<usize>) -> (r: Vec<usize>)
    requires
        forall|i: int| 0 <= i < selected@.len() ==> (#[trigger] selected@[i]) < through@.len(),
    ensures
        r@ == gather_positions(through@, selected@),
{
    let mut r: Vec<usize> = Vec::new();
    let mut i: usize = 0;
    proof {
        assert(r@ =~= selected@.take(0).map_values(|p: usize| through@[p as int]));
    }
    while i < selected.len()
        invariant
            i <= selected@.len(),
            forall|k: int| 0 <= k < selected@.len() ==> (#[trigger] selected@[k]) < through@.len(),
            r@ == selected@.take(i as int).map_values(|p: usize| through@[p as int]),
        decreases selected@.len() - i,
    {
        r.push(through[selected[i]]);
        proof {
            assert(r@ =~= selected@.take(i as int + 1).map_values(|p: usize| through@[p as int]));
        }
        i = i + 1;
    }
    proof {
        assert(selected@.take(selected@.len() as int) =~= selected@);
    }
    r
}

pub proof fn lemma_count_le_boundary(s: Seq<i32>, v: i32, p: int)
    requires
        0 <= p <= s.len(),
        forall|i: int| 0 <= i < p ==> s[i] <= v,
        forall|i: int| p <= i < s.len() ==> s[i] > v,
    ensures
        count_le(s, v) == p,
    decreases s.len(),
{
    if s.len() > 0 {
        if p == s.len() {
            lemma_count_le_boundary(s.drop_last(), v, p - 1);
        } else {
            lemma_count_le_boundary(s.drop_last(), v, p);
        }
    }
}

} // verus!
