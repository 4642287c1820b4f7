use vstd::prelude::*;
use crate::algorithm_stats::SortAlgorithm;
use crate::sort_steps::{lemma_bubble_pass, lemma_first_min_index, lemma_insertion_sink, lemma_partition_result, partition_result};
use crate::sorter::{
    after_running_step, algorithm_step, fresh_view, lemma_fresh_view, push_left, push_right, running_step_in_bounds, selection_step,
    sorter_invariant, SortState, SorterView,
};
use crate::sorter_proofs::lemma_running_step;
use crate::ordering_facts::is_sorted;

verus! {

/// The work left on a stack of quick sort ranges: one for each range, and twice the
/// number of entries of each range that still holds two or more.
pub open spec fn stack_work(st: Seq<(usize, usize)>) -> nat
    decreases st.len(),
{
    if st.len() == 0 {
        0
    } else {
        let (l, h) = st.last();
        stack_work(st.drop_last()) + 1 + if l < h {
            (2 * (h - l + 1)) as nat
        } else {
            0
        }
    }
}

/// An upper bound on the steps a running animation of `algorithm` still takes before
/// the one that finishes it.
pub open spec fn steps_left(v: SorterView, algorithm: SortAlgorithm) -> nat {
    let n = v.array.len() as int;
    match algorithm {
        SortAlgorithm::Insertion => if n - v.i > 0 {
            (n - v.i) as nat
        } else {
            0
        },
        SortAlgorithm::Shell => if v.pivot > 0 {
            v.pivot as nat
        } else {
            0
        },
        SortAlgorithm::Quick => stack_work(v.stack),
        SortAlgorithm::Bogo => 0,
        SortAlgorithm::Cocktail => {
            let a = n - 1 - v.j;
            if v.j >= n {
                0
            } else if v.pivot == 0 {
                (a * (a + 1) + (if v.i <= a {
                    a - v.i
                } else {
                    0
                }) + a + 2) as nat
            } else {
                (a * (a + 1) + (if v.i > v.j {
                    v.i - v.j
                } else {
                    0
                }) + 1) as nat
            }
        },
        _ => if n - 1 - v.i > 0 {
            (n - 1 - v.i) as nat
        } else {
            0
        },
    }
}

/// Pushing a range adds its work on top of the stack's.
proof fn lemma_stack_work_push(st: Seq<(usize, usize)>, r: (usize, usize))
    ensures
        stack_work(st.push(r)) == stack_work(st) + 1 + if r.0 < r.1 {
            (2 * (r.1 - r.0 + 1)) as nat
        } else {
            0
        },
{
    assert(st.push(r).drop_last() =~= st);
}

/// Every step of a running bubble, merge, heap, radix, insertion, selection, shell,
/// quick or (from a state it can reach) cocktail sort animation either finishes it or
/// lowers `steps_left`; so each of these animations finishes.
pub proof fn lemma_step_progress(v: SorterView, algorithm: SortAlgorithm)
    requires
        v.state == SortState::Running,
        algorithm != SortAlgorithm::Bogo,
        algorithm == SortAlgorithm::Cocktail ==> sorter_invariant(v, algorithm),
        0 <= v.i,
        0 <= v.j,
        0 <= v.pivot,
        running_step_in_bounds(v, algorithm),
    ensures
        ({
            let next = algorithm_step(v, algorithm);
            next.state == SortState::Completed || (next.state == SortState::Running && steps_left(next, algorithm)
                < steps_left(v, algorithm))
        }),
{
    if algorithm == SortAlgorithm::Quick && v.stack.len() > 0 {
        let (low, high) = v.stack.last();
        let rest = v.stack.drop_last();
        assert(v.stack =~= rest.push((low, high)));
        lemma_stack_work_push(rest, (low, high));
        if low < high {
            let (t, m, w) = partition_result(v.array, low as int, high as int);
            lemma_partition_result(v.array, low as int, high as int);
            let left = push_left(rest, low, m);
            if m > 0 && m - 1 > low {
                lemma_stack_work_push(rest, (low, (m - 1) as usize));
            }
            if m + 1 < high {
                lemma_stack_work_push(left, ((m + 1) as usize, high));
            }
            assert(algorithm_step(v, algorithm).stack == push_right(left, m, high));
        }
    } else if algorithm == SortAlgorithm::Shell {
        assert(v.pivot > 0 ==> v.pivot / 2 < v.pivot);
    } else if algorithm == SortAlgorithm::Cocktail {
        let n = v.array.len() as int;
        let a = n - 1 - v.j;
        if v.j < n && v.i < n && v.pivot != 0 && v.i <= v.j && v.j + 1 < n {
            assert(a * (a + 1) == (a - 1) * (a - 1 + 1) + 2 * a) by (nonlinear_arith);
        }
    }
    let n = v.array.len() as int;
    if algorithm == SortAlgorithm::Insertion && v.i < n {
        lemma_insertion_sink(v.array, v.i, v.i);
    }
    if (algorithm == SortAlgorithm::Bubble || algorithm == SortAlgorithm::Merge || algorithm == SortAlgorithm::Heap
        || algorithm == SortAlgorithm::Radix) && v.i < n - 1 {
        lemma_bubble_pass(v.array, (n - 1 - v.i) as nat);
    }
    if algorithm == SortAlgorithm::Selection && v.i < n - 1 {
        lemma_first_min_index(v.array, v.i, n);
        assert(algorithm_step(v, algorithm) == selection_step(v));
    }
}

/// The view that `k` calls of `update` lead to from `v` when nothing restarts the
/// animation and the algorithm never reshuffles: while it runs, each call takes the
/// algorithm's next step and counts it; once it has finished, it stays as it is.
pub open spec fn updates(v: SorterView, algorithm: SortAlgorithm, k: nat) -> SorterView
    decreases k,
{
    if k == 0 || v.state != SortState::Running {
        v
    } else {
        updates(after_running_step(v, algorithm, v.array), algorithm, (k - 1) as nat)
    }
}

/// A running animation that satisfies its invariant has finished after `steps_left + 1`
/// more updates, or any number beyond.
proof fn lemma_updates_finish(v: SorterView, algorithm: SortAlgorithm, k: nat)
    requires
        v.state == SortState::Running,
        algorithm != SortAlgorithm::Bogo,
        v.array.len() >= 1,
        sorter_invariant(v, algorithm),
        v.i >= 0,
        v.j >= 0,
        v.pivot >= 0,
        k >= steps_left(v, algorithm) + 1,
    ensures
        updates(v, algorithm, k).state == SortState::Completed,
    decreases k,
{
    let n = v.array.len() as int;
    if algorithm == SortAlgorithm::Quick && v.stack.len() > 0 {
        assert(v.stack[v.stack.len() - 1] == v.stack.last());
    }
    assert(running_step_in_bounds(v, algorithm));
    lemma_step_progress(v, algorithm);
    lemma_running_step(v, algorithm);
    let step = algorithm_step(v, algorithm);
    let next = after_running_step(v, algorithm, v.array);
    assert(next == SorterView { steps: v.steps + 1, ..step });
    assert(steps_left(next, algorithm) == steps_left(step, algorithm));
    if next.state == SortState::Running {
        assert(next.i >= 0 && next.j >= 0 && next.pivot >= 0);
        lemma_updates_finish(next, algorithm, (k - 1) as nat);
    } else {
        lemma_updates_stay(next, algorithm, (k - 1) as nat);
    }
}

/// A view that is not running stays as it is under updates.
proof fn lemma_updates_stay(v: SorterView, algorithm: SortAlgorithm, k: nat)
    requires
        v.state != SortState::Running,
    ensures
        updates(v, algorithm, k) == v,
{
}

/// A fresh animation of `n` entries has at most `2 * n + 1` steps left.
proof fn lemma_fresh_steps_left(array: Seq<u8>, algorithm: SortAlgorithm)
    requires
        1 <= array.len() <= usize::MAX,
        algorithm != SortAlgorithm::Cocktail,
    ensures
        steps_left(fresh_view(array, algorithm), algorithm) <= 2 * array.len() + 1,
{
    let n = array.len() as int;
    if algorithm == SortAlgorithm::Quick {
        let st = fresh_view(array, algorithm).stack;
        assert(st.drop_last() =~= Seq::<(usize, usize)>::empty());
        assert(stack_work(st.drop_last()) == 0);
        assert(st.last() == (0usize, (n - 1) as usize));
        assert(stack_work(st) <= 1 + 2 * n);
    }
}

/// A fresh cocktail sort animation of `n >= 1` entries has `n * n + n` steps left.
proof fn lemma_fresh_cocktail_steps_left(array: Seq<u8>)
    requires
        1 <= array.len() <= usize::MAX,
    ensures
        steps_left(fresh_view(array, SortAlgorithm::Cocktail), SortAlgorithm::Cocktail) + 1 <= 2 * array.len() * array.len() + 2,
{
    let n = array.len() as int;
    assert((n - 1) * n + (n - 1) + (n - 1) + 2 + 1 <= 2 * n * n + 2) by (nonlinear_arith)
        requires
            n >= 1,
    ;
}

/// A newly made cocktail sort animation of `n >= 1` entries has finished after at most
/// `2 * n * n + 2` calls of `update`, when nothing restarts it in between.
pub proof fn lemma_cocktail_finishes_within(array: Seq<u8>, k: nat)
    requires
        1 <= array.len() <= usize::MAX,
        k >= 2 * array.len() * array.len() + 2,
    ensures
        updates(fresh_view(array, SortAlgorithm::Cocktail), SortAlgorithm::Cocktail, k).state == SortState::Completed,
{
    lemma_fresh_view(array, SortAlgorithm::Cocktail);
    lemma_fresh_cocktail_steps_left(array);
    lemma_updates_finish(fresh_view(array, SortAlgorithm::Cocktail), SortAlgorithm::Cocktail, k);
}

/// A newly made bubble, merge, heap, radix, insertion, selection, shell or quick sort
/// animation of `n >= 1` entries has finished after at most `2 * n + 2` calls of
/// `update`, when nothing restarts it in between.
pub proof fn lemma_finishes_within(array: Seq<u8>, algorithm: SortAlgorithm, k: nat)
    requires
        1 <= array.len() <= usize::MAX,
        algorithm != SortAlgorithm::Bogo,
        algorithm != SortAlgorithm::Cocktail,
        k >= 2 * array.len() + 2,
    ensures
        updates(fresh_view(array, algorithm), algorithm, k).state == SortState::Completed,
{
    lemma_fresh_view(array, algorithm);
    lemma_fresh_steps_left(array, algorithm);
    lemma_updates_finish(fresh_view(array, algorithm), algorithm, k);
}

/// Updates of a running or finished animation that satisfies its invariant keep the
/// array a rearrangement of itself and keep the invariant.
proof fn lemma_updates_keep(v: SorterView, algorithm: SortAlgorithm, k: nat)
    requires
        v.state == SortState::Running || v.state == SortState::Completed,
        algorithm != SortAlgorithm::Bogo,
        v.array.len() >= 1,
        sorter_invariant(v, algorithm),
        v.i >= 0,
        v.j >= 0,
        v.pivot >= 0,
    ensures
        updates(v, algorithm, k).array.len() == v.array.len(),
        updates(v, algorithm, k).array.to_multiset() == v.array.to_multiset(),
        sorter_invariant(updates(v, algorithm, k), algorithm),
    decreases k,
{
    if k > 0 && v.state == SortState::Running {
        if algorithm == SortAlgorithm::Quick && v.stack.len() > 0 {
            assert(v.stack[v.stack.len() - 1] == v.stack.last());
        }
        assert(running_step_in_bounds(v, algorithm));
        lemma_running_step(v, algorithm);
        let step = algorithm_step(v, algorithm);
        let next = after_running_step(v, algorithm, v.array);
        assert(next == SorterView { steps: v.steps + 1, ..step });
        assert(next.i >= 0 && next.j >= 0 && next.pivot >= 0);
        lemma_updates_keep(next, algorithm, (k - 1) as nat);
    }
}

/// Any number of updates of a newly made bubble, merge, heap, radix, insertion,
/// selection, shell, quick or cocktail sort animation, with no restart in between, keep its array
/// a rearrangement of the one it started with, and the animation is only ever finished
/// with its array in ascending order.
pub proof fn lemma_updates_keep_values(array: Seq<u8>, algorithm: SortAlgorithm, k: nat)
    requires
        1 <= array.len() <= usize::MAX,
        algorithm != SortAlgorithm::Bogo,
    ensures
        updates(fresh_view(array, algorithm), algorithm, k).array.len() == array.len(),
        updates(fresh_view(array, algorithm), algorithm, k).array.to_multiset() == array.to_multiset(),
        updates(fresh_view(array, algorithm), algorithm, k).state == SortState::Completed ==> is_sorted(
            updates(fresh_view(array, algorithm), algorithm, k).array,
        ),
{
    lemma_fresh_view(array, algorithm);
    lemma_updates_keep(fresh_view(array, algorithm), algorithm, k);
}

} // verus!
