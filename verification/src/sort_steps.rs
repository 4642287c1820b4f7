use vstd::prelude::*;
use crate::ordering_facts::{adjacent_sorted, all_at_least, all_at_most, lemma_swap_keeps_bounds, lemma_swap_multiset, sorted_between, swap_at};

verus! {

// ---------------------------------------------------------------- bubble pass

/// The array after comparing (and, when out of order, exchanging) the neighbours
/// `(0,1), (1,2), ..., (k-1,k)` from left to right.
pub open spec fn bubble_pass(s: Seq<u8>, k: nat) -> Seq<u8>
    decreases k,
{
    if k == 0 {
        s
    } else {
        let t = bubble_pass(s, (k - 1) as nat);
        if t[k - 1] > t[k as int] {
            swap_at(t, k - 1, k as int)
        } else {
            t
        }
    }
}

/// How many exchanges `bubble_pass(s, k)` makes.
pub open spec fn bubble_swaps(s: Seq<u8>, k: nat) -> nat
    decreases k,
{
    if k == 0 {
        0
    } else {
        let t = bubble_pass(s, (k - 1) as nat);
        bubble_swaps(s, (k - 1) as nat) + if t[k - 1] > t[k as int] {
            1nat
        } else {
            0nat
        }
    }
}

/// What a bubble pass does: it permutes `[0, k]`, leaves the rest alone, moves the
/// largest entry of `[0, k]` to `k`, keeps upper bounds of `[0, k]`, and changes
/// nothing exactly when that range was already in order.
pub proof fn lemma_bubble_pass(s: Seq<u8>, k: nat)
    requires
        k < s.len(),
    ensures
        bubble_pass(s, k).len() == s.len(),
        bubble_pass(s, k).to_multiset() == s.to_multiset(),
        forall|p: int| k < p < s.len() ==> bubble_pass(s, k)[p] == s[p],
        forall|p: int| 0 <= p <= k ==> #[trigger] bubble_pass(s, k)[p] <= bubble_pass(s, k)[k as int],
        forall|x: u8| #[trigger] all_at_most(s, 0, k as int + 1, x) ==> all_at_most(bubble_pass(s, k), 0, k as int + 1, x),
        bubble_swaps(s, k) == 0 ==> bubble_pass(s, k) == s && adjacent_sorted(s, 0, k as int + 1),
        bubble_swaps(s, k) <= k,
    decreases k,
{
    if k > 0 {
        let k1 = (k - 1) as nat;
        lemma_bubble_pass(s, k1);
        let t = bubble_pass(s, k1);
        if t[k - 1] > t[k as int] {
            lemma_swap_multiset(t, k - 1, k as int);
            lemma_swap_keeps_bounds(t, k - 1, k as int, 0, k as int + 1);
            assert forall|x: u8| #[trigger] all_at_most(s, 0, k as int + 1, x) implies all_at_most(
                bubble_pass(s, k),
                0,
                k as int + 1,
                x,
            ) by {
                assert(all_at_most(s, 0, k1 as int + 1, x));
                assert(all_at_most(t, 0, k1 as int + 1, x));
                assert(t[k as int] == s[k as int]);
            }
        } else {
            assert forall|x: u8| #[trigger] all_at_most(s, 0, k as int + 1, x) implies all_at_most(
                bubble_pass(s, k),
                0,
                k as int + 1,
                x,
            ) by {
                assert(all_at_most(s, 0, k1 as int + 1, x));
                assert(t[k as int] == s[k as int]);
            }
            if bubble_swaps(s, k) == 0 {
                assert(adjacent_sorted(s, 0, k as int + 1)) by {
                    assert forall|p: int| 0 <= p && p + 1 < k as int + 1 implies #[trigger] s[p] <= s[p
                        + 1] by {
                        if p + 1 == k {
                            assert(t[k as int] == s[k as int]);
                        }
                    }
                }
            }
        }
    }
}

} // verus!

verus! {

// ------------------------------------------------------------ selection step

/// The index of the first smallest entry of `s` in `[lo, hi)`, scanning left to right.
pub open spec fn first_min_index(s: Seq<u8>, lo: int, hi: int) -> int
    decreases hi - lo,
{
    if hi <= lo + 1 {
        lo
    } else {
        let m = first_min_index(s, lo, hi - 1);
        if s[hi - 1] < s[m] {
            hi - 1
        } else {
            m
        }
    }
}

/// `first_min_index` lies in the range and its entry is a minimum of the range.
pub proof fn lemma_first_min_index(s: Seq<u8>, lo: int, hi: int)
    requires
        0 <= lo < hi <= s.len(),
    ensures
        lo <= first_min_index(s, lo, hi) < hi,
        forall|q: int| lo <= q < hi ==> s[first_min_index(s, lo, hi)] <= #[trigger] s[q],
    decreases hi - lo,
{
    if hi > lo + 1 {
        lemma_first_min_index(s, lo, hi - 1);
    }
}

// ------------------------------------------------------------ insertion step

/// The array after moving the entry at `j` leftwards by neighbour exchanges
/// while its left neighbour is larger.
pub open spec fn insertion_sink(s: Seq<u8>, j: int) -> Seq<u8>
    decreases j,
{
    if j <= 0 {
        s
    } else if s[j - 1] > s[j] {
        insertion_sink(swap_at(s, j - 1, j), j - 1)
    } else {
        s
    }
}

/// How many neighbour comparisons `insertion_sink(s, j)` makes.
pub open spec fn insertion_sink_comparisons(s: Seq<u8>, j: int) -> nat
    decreases j,
{
    if j <= 0 {
        0
    } else if s[j - 1] > s[j] {
        1 + insertion_sink_comparisons(swap_at(s, j - 1, j), j - 1)
    } else {
        1
    }
}

/// How many exchanges `insertion_sink(s, j)` makes.
pub open spec fn insertion_sink_swaps(s: Seq<u8>, j: int) -> nat
    decreases j,
{
    if j <= 0 {
        0
    } else if s[j - 1] > s[j] {
        1 + insertion_sink_swaps(swap_at(s, j - 1, j), j - 1)
    } else {
        0
    }
}

/// Sinking permutes the array, leaves everything right of `j` alone and counts at most
/// `j` comparisons; an in-order prefix with the sunk entry gives an in-order prefix.
pub proof fn lemma_insertion_sink(s: Seq<u8>, j: int, top: int)
    requires
        0 <= j <= top < s.len(),
    ensures
        insertion_sink(s, j).len() == s.len(),
        insertion_sink(s, j).to_multiset() == s.to_multiset(),
        forall|p: int| j < p < s.len() ==> #[trigger] insertion_sink(s, j)[p] == s[p],
        insertion_sink_comparisons(s, j) <= j,
        insertion_sink_swaps(s, j) <= insertion_sink_comparisons(s, j),
        (sorted_between(s, 0, j) && sorted_between(s, j + 1, top + 1) && (forall|p: int, q: int|
            0 <= p < j < q <= top ==> s[p] <= s[q]) && (forall|q: int|
            j < q <= top ==> s[j] <= #[trigger] s[q])) ==> sorted_between(
            insertion_sink(s, j),
            0,
            top + 1,
        ),
    decreases j,
{
    if j > 0 && s[j - 1] > s[j] {
        let t = swap_at(s, j - 1, j);
        lemma_swap_multiset(s, j - 1, j);
        lemma_insertion_sink(t, j - 1, top);
        if sorted_between(s, 0, j) && sorted_between(s, j + 1, top + 1) && (forall|p: int, q: int|
            0 <= p < j < q <= top ==> s[p] <= s[q]) && (forall|q: int|
            j < q <= top ==> s[j] <= #[trigger] s[q]) {
            assert(sorted_between(t, 0, j - 1));
            assert(sorted_between(t, j, top + 1)) by {
                assert forall|p: int, q: int| j <= p <= q < top + 1 implies t[p] <= t[q] by {
                    if p == j && q > j {
                        assert(s[j - 1] <= s[q]);
                    }
                }
            }
            assert forall|p: int, q: int| 0 <= p < j - 1 < q <= top implies t[p] <= t[q] by {
                if q == j {
                    assert(s[p] <= s[j - 1]);
                } else {
                    assert(s[p] <= s[q]);
                }
            }
            assert forall|q: int| j - 1 < q <= top implies t[j - 1] <= #[trigger] t[q] by {
                if q > j {
                    assert(s[j] <= s[q]);
                }
            }
        }
    } else if j > 0 {
        if sorted_between(s, 0, j) && sorted_between(s, j + 1, top + 1) && (forall|p: int, q: int|
            0 <= p < j < q <= top ==> s[p] <= s[q]) && (forall|q: int|
            j < q <= top ==> s[j] <= #[trigger] s[q]) {
            assert forall|p: int, q: int| 0 <= p <= q < top + 1 implies s[p] <= s[q] by {
                if p < j && q == j {
                    assert(s[p] <= s[j - 1]);
                } else if p < j && q > j {
                    assert(s[p] <= s[q]);
                } else if p == j && q > j {
                    assert(s[j] <= s[q]);
                }
            }
        }
    } else {
        if sorted_between(s, 0, j) && sorted_between(s, j + 1, top + 1) && (forall|p: int, q: int|
            0 <= p < j < q <= top ==> s[p] <= s[q]) && (forall|q: int|
            j < q <= top ==> s[j] <= #[trigger] s[q]) {
            assert forall|p: int, q: int| 0 <= p <= q < top + 1 implies s[p] <= s[q] by {
                if p == 0 && q > 0 {
                    assert(s[0] <= s[q]);
                }
            }
        }
    }
}

} // verus!

verus! {

// ---------------------------------------------------------------- shell pass

/// The array after moving the entry at `j` leftwards in steps of `g` while the entry
/// `g` places to its left is larger (gapped insertion).
pub open spec fn gap_sink(s: Seq<u8>, j: int, g: int) -> Seq<u8>
    decreases j,
{
    if g > 0 && j >= g && s[j - g] > s[j] {
        gap_sink(swap_at(s, j - g, j), j - g, g)
    } else {
        s
    }
}

/// How many entries `gap_sink(s, j, g)` shifts.
pub open spec fn gap_sink_moves(s: Seq<u8>, j: int, g: int) -> nat
    decreases j,
{
    if g > 0 && j >= g && s[j - g] > s[j] {
        1 + gap_sink_moves(swap_at(s, j - g, j), j - g, g)
    } else {
        0
    }
}

/// The array after gapped insertion of the entries `g, g+1, ..., i-1`, in that order.
pub open spec fn shell_prefix(s: Seq<u8>, g: int, i: int) -> Seq<u8>
    decreases i,
{
    if i <= g || i <= 0 {
        s
    } else {
        gap_sink(shell_prefix(s, g, i - 1), i - 1, g)
    }
}

/// How many entries `shell_prefix(s, g, i)` shifts in all.
pub open spec fn shell_prefix_moves(s: Seq<u8>, g: int, i: int) -> nat
    decreases i,
{
    if i <= g || i <= 0 {
        0
    } else {
        shell_prefix_moves(s, g, i - 1) + gap_sink_moves(shell_prefix(s, g, i - 1), i - 1, g)
    }
}

/// A gapped sink permutes the array, shifts at most `j` entries and, with gap one,
/// is the neighbour sink of insertion sort.
pub proof fn lemma_gap_sink(s: Seq<u8>, j: int, g: int)
    requires
        0 <= j < s.len(),
        g > 0,
    ensures
        gap_sink(s, j, g).len() == s.len(),
        gap_sink(s, j, g).to_multiset() == s.to_multiset(),
        gap_sink_moves(s, j, g) <= j,
        g == 1 ==> gap_sink(s, j, g) == insertion_sink(s, j),
    decreases j,
{
    if j >= g && s[j - g] > s[j] {
        lemma_swap_multiset(s, j - g, j);
        lemma_gap_sink(swap_at(s, j - g, j), j - g, g);
    }
}

/// A shell pass up to `i` permutes the array and shifts at most `i * i` entries;
/// with gap one it leaves `[0, i)` in order.
pub proof fn lemma_shell_prefix(s: Seq<u8>, g: int, i: int)
    requires
        0 <= i <= s.len(),
        g > 0,
    ensures
        shell_prefix(s, g, i).len() == s.len(),
        shell_prefix(s, g, i).to_multiset() == s.to_multiset(),
        shell_prefix_moves(s, g, i) <= i * i,
        g == 1 ==> sorted_between(shell_prefix(s, g, i), 0, i),
    decreases i,
{
    if i > g && i > 0 {
        lemma_shell_prefix(s, g, i - 1);
        let t = shell_prefix(s, g, i - 1);
        lemma_gap_sink(t, i - 1, g);
        lemma_insertion_sink(t, i - 1, i - 1);
        assert((i - 1) * (i - 1) + (i - 1) <= i * i) by (nonlinear_arith)
            requires
                i >= 1,
        ;
    } else {
        assert(0 <= i * i) by (nonlinear_arith);
    }
}

// ----------------------------------------------------------------- partition

/// The state of a Lomuto partition with pivot value `pv` after examining the
/// indices `low .. j`: the array, the boundary of the small part, and the number
/// of exchanges made.
pub open spec fn partition_scan(s: Seq<u8>, low: int, j: int, pv: u8) -> (Seq<u8>, int, nat)
    decreases j - low,
{
    if j <= low {
        (s, low, 0)
    } else {
        let (t, i, w) = partition_scan(s, low, j - 1, pv);
        if t[j - 1] <= pv {
            (swap_at(t, i, j - 1), i + 1, w + 1)
        } else {
            (t, i, w)
        }
    }
}

/// Lomuto partition of `[low, high]` around the value at `high`: the array, the final
/// index of the pivot, and the number of exchanges made while scanning.
pub open spec fn partition_result(s: Seq<u8>, low: int, high: int) -> (Seq<u8>, int, nat) {
    let (t, i, w) = partition_scan(s, low, high, s[high]);
    (swap_at(t, i, high), i, w)
}

/// What the scan maintains: small entries left of the boundary, large ones right of
/// it up to `j`, nothing outside `[low, j)` touched, bounds of `[low, high]` kept.
pub proof fn lemma_partition_scan(s: Seq<u8>, low: int, j: int, high: int, pv: u8)
    requires
        0 <= low <= j <= high < s.len(),
    ensures
        ({
            let (t, i, w) = partition_scan(s, low, j, pv);
            &&& low <= i <= j
            &&& w <= j - low
            &&& t.len() == s.len()
            &&& t.to_multiset() == s.to_multiset()
            &&& (forall|p: int| low <= p < i ==> #[trigger] t[p] <= pv)
            &&& (forall|p: int| i <= p < j ==> #[trigger] t[p] > pv)
            &&& (forall|p: int| 0 <= p < s.len() && !(low <= p < j) ==> #[trigger] t[p] == s[p])
            &&& (forall|x: u8|
                #[trigger] all_at_most(s, low, high + 1, x) ==> all_at_most(t, low, high + 1, x))
            &&& (forall|x: u8|
                #[trigger] all_at_least(s, low, high + 1, x) ==> all_at_least(t, low, high + 1, x))
        }),
    decreases j - low,
{
    if j > low {
        lemma_partition_scan(s, low, j - 1, high, pv);
        let (t, i, w) = partition_scan(s, low, j - 1, pv);
        if t[j - 1] <= pv {
            lemma_swap_multiset(t, i, j - 1);
            lemma_swap_keeps_bounds(t, i, j - 1, low, high + 1);
            let u = swap_at(t, i, j - 1);
            assert forall|x: u8| #[trigger] all_at_most(s, low, high + 1, x) implies all_at_most(
                u,
                low,
                high + 1,
                x,
            ) by {
                assert(all_at_most(t, low, high + 1, x));
            }
            assert forall|x: u8| #[trigger] all_at_least(s, low, high + 1, x) implies all_at_least(
                u,
                low,
                high + 1,
                x,
            ) by {
                assert(all_at_least(t, low, high + 1, x));
            }
        }
    }
}

/// What a partition achieves: the pivot value lands at the returned index, with no
/// larger entry before it and only larger entries after it inside `[low, high]`.
pub proof fn lemma_partition_result(s: Seq<u8>, low: int, high: int)
    requires
        0 <= low <= high < s.len(),
    ensures
        ({
            let (t, m, w) = partition_result(s, low, high);
            &&& low <= m <= high
            &&& w <= high - low
            &&& t.len() == s.len()
            &&& t.to_multiset() == s.to_multiset()
            &&& t[m] == s[high]
            &&& (forall|p: int| low <= p < m ==> #[trigger] t[p] <= t[m])
            &&& (forall|p: int| m < p <= high ==> #[trigger] t[p] > t[m])
            &&& (forall|p: int| 0 <= p < s.len() && !(low <= p <= high) ==> #[trigger] t[p] == s[p])
            &&& (forall|x: u8|
                #[trigger] all_at_most(s, low, high + 1, x) ==> all_at_most(t, low, high + 1, x))
            &&& (forall|x: u8|
                #[trigger] all_at_least(s, low, high + 1, x) ==> all_at_least(t, low, high + 1, x))
        }),
{
    let pv = s[high];
    lemma_partition_scan(s, low, high, high, pv);
    let (t, i, w) = partition_scan(s, low, high, pv);
    assert(t[high] == s[high]);
    lemma_swap_multiset(t, i, high);
    lemma_swap_keeps_bounds(t, i, high, low, high + 1);
    let u = swap_at(t, i, high);
    assert forall|x: u8| #[trigger] all_at_most(s, low, high + 1, x) implies all_at_most(
        u,
        low,
        high + 1,
        x,
    ) by {
        assert(all_at_most(t, low, high + 1, x));
    }
    assert forall|x: u8| #[trigger] all_at_least(s, low, high + 1, x) implies all_at_least(
        u,
        low,
        high + 1,
        x,
    ) by {
        assert(all_at_least(t, low, high + 1, x));
    }
}

} // verus!

verus! {

/// Longer bubble passes make at least as many exchanges.
pub proof fn lemma_bubble_swaps_monotone(s: Seq<u8>, a: nat, b: nat)
    requires
        a <= b,
    ensures
        bubble_swaps(s, a) <= bubble_swaps(s, b),
    decreases b - a,
{
    if a < b {
        lemma_bubble_swaps_monotone(s, a, (b - 1) as nat);
    }
}

/// Longer partition scans make at least as many exchanges.
pub proof fn lemma_partition_swaps_monotone(s: Seq<u8>, low: int, a: int, b: int, pv: u8)
    requires
        low <= a <= b,
    ensures
        partition_scan(s, low, a, pv).2 <= partition_scan(s, low, b, pv).2,
    decreases b - a,
{
    if a < b {
        lemma_partition_swaps_monotone(s, low, a, b - 1, pv);
    }
}

/// Longer shell pass prefixes shift at least as many entries.
pub proof fn lemma_shell_moves_monotone(s: Seq<u8>, g: int, a: int, b: int)
    requires
        a <= b,
    ensures
        shell_prefix_moves(s, g, a) <= shell_prefix_moves(s, g, b),
    decreases b - a,
{
    if a < b {
        lemma_shell_moves_monotone(s, g, a, b - 1);
    }
}

} // verus!
