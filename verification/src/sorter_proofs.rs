use vstd::prelude::*;
use crate::algorithm_stats::SortAlgorithm;
use crate::ordering_facts::{adjacent_sorted, all_at_least, all_at_most, is_sorted, lemma_adjacent_sorted_is_sorted, lemma_sorted_concat, lemma_swap_multiset, sorted_between};
use crate::sort_steps::{bubble_pass, bubble_swaps, first_min_index, lemma_bubble_pass, lemma_first_min_index, lemma_insertion_sink, lemma_partition_result, lemma_shell_prefix, partition_result};
use crate::sorter::{algorithm_step, bogo_step, bubble_invariant, bubble_step, cocktail_invariant, cocktail_step, high_done, low_done, insertion_invariant, insertion_step, quick_invariant, quick_step, range_holds, running_step_in_bounds, selection_invariant, selection_step, settled, shell_step, sorter_invariant, SortState, SorterView, push_left, push_right};

verus! {

proof fn lemma_bubble_step(v: SorterView)
    requires
        v.state == SortState::Running,
        v.array.len() >= 1,
        bubble_invariant(v.array, v.i),
        v.i >= 0,
    ensures
        bubble_step(v).state == SortState::Completed ==> is_sorted(bubble_step(v).array),
        bubble_step(v).state != SortState::Completed ==> bubble_invariant(
            bubble_step(v).array,
            bubble_step(v).i,
        ),
        bubble_step(v).array.to_multiset() == v.array.to_multiset(),
        bubble_step(v).array.len() == v.array.len(),
{
    let s = v.array;
    let n = s.len() as int;
    if v.i >= n - 1 {
        if v.i >= n {
            assert(is_sorted(s));
        } else {
            lemma_sorted_concat(s, 0, 1, n);
        }
    } else {
        let k = (n - 1 - v.i) as nat;
        lemma_bubble_pass(s, k);
        let t = bubble_pass(s, k);
        assert forall|q: int| k < q < n implies #[trigger] all_at_most(s, 0, k as int + 1, s[q]) by {
            assert forall|p: int| 0 <= p < k + 1 implies #[trigger] s[p] <= s[q] by {}
        }
        assert forall|p: int, q: int| 0 <= p < k + 1 <= q < n implies t[p] <= t[q] by {
            assert(all_at_most(s, 0, k as int + 1, s[q]));
            assert(all_at_most(t, 0, k as int + 1, s[q]));
        }
        assert(sorted_between(t, k as int, n)) by {
            assert forall|p: int, q: int| k <= p <= q < n implies t[p] <= t[q] by {
                if p == k && q > k {
                    assert(all_at_most(s, 0, k as int + 1, s[q]));
                    assert(all_at_most(t, 0, k as int + 1, s[q]));
                } else if p > k {
                    assert(t[p] == s[p]);
                    assert(t[q] == s[q]);
                    assert(s[p] <= s[q]);
                }
            }
        }
        if bubble_swaps(s, k) == 0 {
            lemma_adjacent_sorted_is_sorted(s, 0, k as int + 1);
            lemma_sorted_concat(s, 0, k as int + 1, n);
        }
    }
}

proof fn lemma_selection_step(v: SorterView)
    requires
        v.state == SortState::Running,
        v.array.len() >= 1,
        selection_invariant(v.array, v.i),
        v.i >= 0,
    ensures
        selection_step(v).state == SortState::Completed ==> is_sorted(selection_step(v).array),
        selection_step(v).state != SortState::Completed ==> selection_invariant(
            selection_step(v).array,
            selection_step(v).i,
        ),
        selection_step(v).array.to_multiset() == v.array.to_multiset(),
        selection_step(v).array.len() == v.array.len(),
{
    let s = v.array;
    let n = s.len() as int;
    let i = v.i;
    if i >= n - 1 {
        if i < n {
            lemma_sorted_concat(s, 0, n - 1, n);
        }
    } else {
        lemma_first_min_index(s, i, n);
        let m = first_min_index(s, i, n);
        let t = selection_step(v).array;
        if m != i {
            lemma_swap_multiset(s, i, m);
        }
        assert(t[i] == s[m]);
        assert forall|q: int| i <= q < n implies s[i] <= s[q] || true by {}
        assert forall|p: int, q: int| 0 <= p < i + 1 <= q < n implies t[p] <= t[q] by {
            assert(s[m] <= s[q]);
            if p < i {
                assert(s[p] <= s[q]);
                assert(s[p] <= s[i]);
            }
        }
        assert(sorted_between(t, 0, i + 1)) by {
            assert forall|p: int, q: int| 0 <= p <= q < i + 1 implies t[p] <= t[q] by {
                if p < i && q == i {
                    assert(s[p] <= s[m]);
                }
            }
        }
    }
}

proof fn lemma_insertion_step(v: SorterView)
    requires
        v.state == SortState::Running,
        insertion_invariant(v.array, v.i),
        v.i >= 0,
    ensures
        insertion_step(v).state == SortState::Completed ==> is_sorted(insertion_step(v).array),
        insertion_step(v).state != SortState::Completed ==> insertion_invariant(
            insertion_step(v).array,
            insertion_step(v).i,
        ),
        insertion_step(v).array.to_multiset() == v.array.to_multiset(),
        insertion_step(v).array.len() == v.array.len(),
{
    let s = v.array;
    let n = s.len() as int;
    if v.i < n {
        lemma_insertion_sink(s, v.i, v.i);
    }
}

proof fn lemma_shell_step(v: SorterView)
    requires
        v.state == SortState::Running,
        v.pivot == 0 ==> is_sorted(v.array),
        v.pivot >= 0,
    ensures
        shell_step(v).state == SortState::Completed ==> is_sorted(shell_step(v).array),
        shell_step(v).state != SortState::Completed ==> (shell_step(v).pivot == 0 ==> is_sorted(
            shell_step(v).array,
        )),
        shell_step(v).array.to_multiset() == v.array.to_multiset(),
        shell_step(v).array.len() == v.array.len(),
{
    if v.pivot > 0 {
        lemma_shell_prefix(v.array, v.pivot, v.array.len() as int);
        lemma_shell_prefix(v.array, 1, v.array.len() as int);
    }
}

proof fn lemma_cocktail_step(v: SorterView)
    requires
        v.state == SortState::Running,
        cocktail_invariant(v.array, v.i, v.j, v.pivot),
        v.i >= 0,
        v.j >= 0,
        v.pivot >= 0,
    ensures
        cocktail_step(v).state == SortState::Completed ==> is_sorted(cocktail_step(v).array),
        cocktail_step(v).state != SortState::Completed ==> cocktail_invariant(
            cocktail_step(v).array,
            cocktail_step(v).i,
            cocktail_step(v).j,
            cocktail_step(v).pivot,
        ),
        cocktail_step(v).array.to_multiset() == v.array.to_multiset(),
        cocktail_step(v).array.len() == v.array.len(),
{
    let s = v.array;
    let n = s.len() as int;
    let (i, j) = (v.i, v.j);
    if i >= n || j >= n {
        if v.pivot == 0 {
            assert(j == n);
        }
        assert(low_done(s, n));
    } else if v.pivot == 0 {
        if i < n - 1 - j {
            let t = cocktail_step(v).array;
            if s[i] > s[i + 1] {
                lemma_swap_multiset(s, i, i + 1);
            }
            assert(forall|p: int| 0 <= p < n && p != i && p != i + 1 ==> t[p] == s[p]);
            assert(low_done(t, j)) by {
                assert forall|p: int, q: int| 0 <= p < j <= q < n implies t[p] <= t[q] by {
                    assert(s[p] <= s[i] && s[p] <= s[i + 1] && s[p] <= s[q]);
                }
            }
            assert(high_done(t, j)) by {
                assert forall|p: int, q: int| 0 <= p < n - j <= q < n implies t[p] <= t[q] by {
                    assert(s[i] <= s[q] && s[i + 1] <= s[q] && s[p] <= s[q]);
                }
            }
            assert forall|p: int| 0 <= p <= i + 1 implies #[trigger] t[p] <= t[i + 1] by {
                if p < i {
                    assert(s[p] <= s[i]);
                }
            }
        } else {
            let ni = cocktail_step(v).i;
            assert(high_done(s, j + 1)) by {
                assert forall|p: int, q: int| n - 1 - j <= p <= q < n implies s[p] <= s[q] by {
                    if q < j {
                    } else if p < j {
                    } else if p == n - 1 - j && q > p {
                        assert(s[p] <= s[i]);
                    }
                }
                assert forall|p: int, q: int| 0 <= p < n - 1 - j <= q < n implies s[p] <= s[q] by {
                    if q == n - 1 - j && i == n - 1 - j {
                        assert(s[p] <= s[i]);
                    }
                }
            }
            assert forall|q: int| ni <= q < n implies s[ni] <= #[trigger] s[q] by {
                if j + 2 <= n {
                    if q > ni {
                        assert(ni < n - 1 - j);
                    }
                } else if j >= 1 && q < j {
                } else if j >= 1 {
                    assert(0 < j);
                }
            }
        }
    } else {
        if i > j {
            let t = cocktail_step(v).array;
            if s[i] < s[i - 1] {
                lemma_swap_multiset(s, i, i - 1);
            }
            assert(forall|p: int| 0 <= p < n && p != i && p != i - 1 ==> t[p] == s[p]);
            assert(low_done(t, j)) by {
                assert forall|p: int, q: int| 0 <= p < j <= q < n implies t[p] <= t[q] by {
                    assert(s[p] <= s[i] && s[p] <= s[i - 1] && s[p] <= s[q]);
                }
            }
            assert(high_done(t, j + 1)) by {
                assert forall|p: int, q: int| 0 <= p < n - (j + 1) <= q < n implies t[p] <= t[q] by {
                    assert(s[i] <= s[q] && s[i - 1] <= s[q] && s[p] <= s[q]);
                }
            }
            assert forall|q: int| i - 1 <= q < n implies t[i - 1] <= #[trigger] t[q] by {
                if q > i {
                    assert(s[i] <= s[q]);
                }
            }
        } else {
            assert forall|q: int| j < q < n implies s[j] <= #[trigger] s[q] by {
                if i < j {
                    assert(n - 1 - j <= j);
                }
            }
            assert(low_done(s, j + 1)) by {
                assert forall|p: int, q: int| 0 <= p <= q < j + 1 implies s[p] <= s[q] by {
                    if q == j && p < j {
                    }
                }
            }
            assert forall|p: int| 0 <= p <= j + 1 && j + 1 < n implies #[trigger] s[p] <= s[j + 1] by {}
        }
    }
}

proof fn lemma_bogo_step(v: SorterView)
    requires
        v.state == SortState::Running,
    ensures
        bogo_step(v).state == SortState::Completed ==> is_sorted(bogo_step(v).array),
        bogo_step(v).array == v.array,
        bogo_step(v).state != SortState::Completed ==> bogo_step(v).state == v.state,
{
    if adjacent_sorted(v.array, 0, v.array.len() as int) {
        lemma_adjacent_sorted_is_sorted(v.array, 0, v.array.len() as int);
    }
}

} // verus!

verus! {

proof fn lemma_settled_push(st: Seq<(usize, usize)>, r: (usize, usize), p: int)
    ensures
        settled(st.push(r), p) <==> settled(st, p) && !range_holds(r, p),
{
    if settled(st.push(r), p) {
        assert(st.push(r)[st.len() as int] == r);
        assert forall|k: int| 0 <= k < st.len() implies !range_holds(#[trigger] st[k], p) by {
            assert(st.push(r)[k] == st[k]);
        }
    }
    if settled(st, p) && !range_holds(r, p) {
        assert forall|k: int| 0 <= k < st.push(r).len() implies !range_holds(
            #[trigger] st.push(r)[k],
            p,
        ) by {
            if k < st.len() {
                assert(st.push(r)[k] == st[k]);
            }
        }
    }
}

proof fn lemma_quick_pop_small(s: Seq<(usize, usize)>, a: Seq<u8>)
    requires
        s.len() > 0,
        quick_invariant(a, s),
        s.last().0 >= s.last().1,
    ensures
        quick_invariant(a, s.drop_last()),
{
    let rest = s.drop_last();
    let top = s.last();
    let n = a.len() as int;
    assert(s =~= rest.push(top));
    assert forall|k: int| 0 <= k < rest.len() implies rest[k] == s[k] by {}
    assert forall|k: int, p: int|
        #![trigger rest[k], a[p]]
        0 <= k < rest.len() && 0 <= p < rest[k].0 implies all_at_least(
            a,
            rest[k].0 as int,
            rest[k].1 + 1,
            a[p],
        ) by {
        assert(rest[k] == s[k]);
    }
    assert forall|k: int, p: int|
        #![trigger rest[k], a[p]]
        0 <= k < rest.len() && rest[k].1 < p < n implies all_at_most(
            a,
            rest[k].0 as int,
            rest[k].1 + 1,
            a[p],
        ) by {
        assert(rest[k] == s[k]);
    }
    assert forall|p: int, q: int|
        0 <= p < q < n && settled(rest, p) && settled(rest, q) implies #[trigger] a[p]
        <= #[trigger] a[q] by {
        lemma_settled_push(rest, top, p);
        lemma_settled_push(rest, top, q);
        let last = s.len() - 1;
        assert(s[last] == top);
        if range_holds(top, p) {
            assert(!range_holds(top, q));
            assert(all_at_most(a, top.0 as int, top.1 + 1, a[q]));
        } else if range_holds(top, q) {
            assert(all_at_least(a, top.0 as int, top.1 + 1, a[p]));
        }
    }
}

} // verus!

verus! {

proof fn lemma_pushed_settled(rest: Seq<(usize, usize)>, low: usize, m: int, high: usize, x: int)
    requires
        low <= m <= high,
    ensures
        settled(push_right(push_left(rest, low, m), m, high), x) <==> settled(rest, x) && !(m
            > 0 && m - 1 > low && low <= x <= m - 1) && !(m + 1 < high && m + 1 <= x <= high),
{
    let l = push_left(rest, low, m);
    if m > 0 && m - 1 > low {
        lemma_settled_push(rest, (low, (m - 1) as usize), x);
    }
    if m + 1 < high {
        lemma_settled_push(l, ((m + 1) as usize, high), x);
    }
}

proof fn lemma_pushed_entries(rest: Seq<(usize, usize)>, low: usize, m: int, high: usize)
    requires
        low <= m <= high,
    ensures
        ({
            let ns = push_right(push_left(rest, low, m), m, high);
            &&& rest.len() <= ns.len() <= rest.len() + 2
            &&& forall|k: int| 0 <= k < rest.len() ==> #[trigger] ns[k] == rest[k]
            &&& forall|k: int|
                rest.len() <= k < ns.len() ==> (#[trigger] ns[k] == (low, (m - 1) as usize) && m
                    > 0 && m - 1 > low) || (ns[k] == ((m + 1) as usize, high) && m + 1 < high)
        }),
{
}

#[verifier::rlimit(40)]
proof fn lemma_quick_partition(st: Seq<(usize, usize)>, a: Seq<u8>)
    requires
        st.len() > 0,
        quick_invariant(a, st),
        st.last().0 < st.last().1,
    ensures
        ({
            let (low, high) = st.last();
            let (t, m, w) = partition_result(a, low as int, high as int);
            quick_invariant(t, push_right(push_left(st.drop_last(), low, m), m, high))
        }),
{
    let n = a.len() as int;
    let last = st.len() - 1;
    let top = st.last();
    assert(st[last] == top);
    let low = top.0;
    let high = top.1;
    assert(high < n);
    let rest = st.drop_last();
    assert(st =~= rest.push(top));
    lemma_partition_result(a, low as int, high as int);
    let (t, m, w) = partition_result(a, low as int, high as int);
    let ns = push_right(push_left(rest, low, m), m, high);
    lemma_pushed_entries(rest, low, m, high);
    assert forall|k: int| 0 <= k < rest.len() implies rest[k] == st[k] by {}
    // bounds
    assert forall|k: int| 0 <= k < ns.len() implies (#[trigger] ns[k]).0 <= ns[k].1 && ns[k].1
        < n by {
        if k < rest.len() {
            assert(st[k] == ns[k]);
        }
    }
    // disjointness
    assert forall|k1: int, k2: int|
        0 <= k1 < ns.len() && 0 <= k2 < ns.len() && k1 != k2 implies (#[trigger] ns[k1]).1 < (
        #[trigger] ns[k2]).0 || ns[k2].1 < ns[k1].0 by {
        if k1 < rest.len() && k2 < rest.len() {
            assert(st[k1] == ns[k1] && st[k2] == ns[k2]);
        } else if k1 < rest.len() {
            assert(st[k1] == ns[k1]);
            assert(st[k1].1 < st[last].0 || st[last].1 < st[k1].0);
        } else if k2 < rest.len() {
            assert(st[k2] == ns[k2]);
            assert(st[k2].1 < st[last].0 || st[last].1 < st[k2].0);
        }
    }
    // bounds of every top value carry over to the partitioned array
    assert forall|p: int| 0 <= p < low implies #[trigger] all_at_least(
        t,
        low as int,
        high + 1,
        t[p],
    ) by {
        assert(all_at_least(a, st[last].0 as int, st[last].1 + 1, a[p]));
    }
    assert forall|p: int| high < p < n implies #[trigger] all_at_most(
        t,
        low as int,
        high + 1,
        t[p],
    ) by {
        assert(all_at_most(a, st[last].0 as int, st[last].1 + 1, a[p]));
    }
    // ranges below each pending range
    assert forall|k: int, p: int|
        #![trigger ns[k], t[p]]
        0 <= k < ns.len() && 0 <= p < ns[k].0 implies all_at_least(
        t,
        ns[k].0 as int,
        ns[k].1 + 1,
        t[p],
    ) by {
        if k < rest.len() {
            let r = st[k];
            assert(ns[k] == r);
            assert(r.1 < low || high < r.0);
            if low <= p <= high {
                assert forall|q: int| r.0 <= q < r.1 + 1 implies #[trigger] t[q] >= t[p] by {
                    assert(all_at_most(a, st[last].0 as int, st[last].1 + 1, a[q]));
                    assert(all_at_most(a, low as int, high + 1, a[q]));
                    assert(all_at_most(t, low as int, high + 1, a[q]));
                }
            } else {
                assert(all_at_least(a, r.0 as int, r.1 + 1, a[p]));
                assert forall|q: int| r.0 <= q < r.1 + 1 implies #[trigger] t[q] >= t[p] by {
                    assert(a[q] >= a[p]);
                }
            }
        } else if p < low {
            assert(all_at_least(t, low as int, high + 1, t[p]));
        } else {
            assert forall|q: int| ns[k].0 <= q < ns[k].1 + 1 implies #[trigger] t[q] >= t[p] by {}
        }
    }
    // ranges above each pending range
    assert forall|k: int, p: int|
        #![trigger ns[k], t[p]]
        0 <= k < ns.len() && ns[k].1 < p < n implies all_at_most(
        t,
        ns[k].0 as int,
        ns[k].1 + 1,
        t[p],
    ) by {
        if k < rest.len() {
            let r = st[k];
            assert(ns[k] == r);
            assert(r.1 < low || high < r.0);
            if low <= p <= high {
                assert forall|q: int| r.0 <= q < r.1 + 1 implies #[trigger] t[q] <= t[p] by {
                    assert(all_at_least(a, st[last].0 as int, st[last].1 + 1, a[q]));
                    assert(all_at_least(a, low as int, high + 1, a[q]));
                    assert(all_at_least(t, low as int, high + 1, a[q]));
                }
            } else {
                assert(all_at_most(a, r.0 as int, r.1 + 1, a[p]));
                assert forall|q: int| r.0 <= q < r.1 + 1 implies #[trigger] t[q] <= t[p] by {
                    assert(a[q] <= a[p]);
                }
            }
        } else if p > high {
            assert(all_at_most(t, low as int, high + 1, t[p]));
        } else {
            assert forall|q: int| ns[k].0 <= q < ns[k].1 + 1 implies #[trigger] t[q] <= t[p] by {}
        }
    }
    // settled positions are in order
    assert forall|p: int, q: int|
        0 <= p < q < n && settled(ns, p) && settled(ns, q) implies #[trigger] t[p]
        <= #[trigger] t[q] by {
        lemma_pushed_settled(rest, low, m, high, p);
        lemma_pushed_settled(rest, low, m, high, q);
        lemma_settled_push(rest, top, p);
        lemma_settled_push(rest, top, q);
        let p_in = low <= p <= high;
        let q_in = low <= q <= high;
        if !p_in && !q_in {
            assert(a[p] <= a[q]);
        } else if !p_in {
            assert(p < low);
            assert(all_at_least(t, low as int, high + 1, t[p]));
        } else if !q_in {
            assert(q > high);
            assert(all_at_most(t, low as int, high + 1, t[q]));
        } else {
            if q < m {
                assert(false);
            } else if p > m {
                assert(false);
            }
        }
    }
}

} // verus!

verus! {

proof fn lemma_quick_step(v: SorterView)
    requires
        v.state == SortState::Running,
        quick_invariant(v.array, v.stack),
        running_step_in_bounds(v, SortAlgorithm::Quick),
    ensures
        quick_step(v).state == SortState::Completed ==> is_sorted(quick_step(v).array),
        quick_step(v).state != SortState::Completed ==> quick_invariant(
            quick_step(v).array,
            quick_step(v).stack,
        ),
        quick_step(v).array.to_multiset() == v.array.to_multiset(),
        quick_step(v).array.len() == v.array.len(),
{
    let a = v.array;
    if v.stack.len() == 0 {
        assert forall|p: int, q: int| 0 <= p <= q < a.len() implies a[p] <= a[q] by {
            if p < q {
                assert(settled(v.stack, p) && settled(v.stack, q));
            }
        }
    } else if v.stack.last().0 >= v.stack.last().1 {
        lemma_quick_pop_small(v.stack, a);
    } else {
        let last = v.stack.len() - 1;
        assert(v.stack[last] == v.stack.last());
        lemma_quick_partition(v.stack, a);
        lemma_partition_result(a, v.stack.last().0 as int, v.stack.last().1 as int);
    }
}

/// One running step of any algorithm keeps the array's length and multiset of values,
/// ends running or completed, and keeps the algorithm's invariant.
pub proof fn lemma_running_step(v: SorterView, algorithm: SortAlgorithm)
    requires
        v.state == SortState::Running,
        sorter_invariant(v, algorithm),
        running_step_in_bounds(v, algorithm),
        v.i >= 0,
        v.j >= 0,
        v.pivot >= 0,
    ensures
        algorithm_step(v, algorithm).array.len() == v.array.len(),
        algorithm_step(v, algorithm).array.to_multiset() == v.array.to_multiset(),
        algorithm_step(v, algorithm).state == SortState::Running || algorithm_step(
            v,
            algorithm,
        ).state == SortState::Completed,
        sorter_invariant(algorithm_step(v, algorithm), algorithm),
{
    match algorithm {
        SortAlgorithm::Bogo => lemma_bogo_step(v),
        SortAlgorithm::Bubble => lemma_bubble_step(v),
        SortAlgorithm::Quick => lemma_quick_step(v),
        SortAlgorithm::Merge => lemma_bubble_step(v),
        SortAlgorithm::Insertion => lemma_insertion_step(v),
        SortAlgorithm::Selection => lemma_selection_step(v),
        SortAlgorithm::Heap => lemma_bubble_step(v),
        SortAlgorithm::Radix => lemma_bubble_step(v),
        SortAlgorithm::Shell => lemma_shell_step(v),
        SortAlgorithm::Cocktail => lemma_cocktail_step(v),
    }
}

} // verus!
