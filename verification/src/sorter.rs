use vstd::prelude::*;
use rand::seq::SliceRandom;
use crate::ordering_facts::{adjacent_sorted, all_at_least, all_at_most, is_sorted, lemma_swap_multiset, sorted_between, swap_at};
use crate::sort_steps::{bubble_pass, bubble_swaps, first_min_index, gap_sink, gap_sink_moves, insertion_sink, insertion_sink_comparisons, insertion_sink_swaps, lemma_bubble_pass, lemma_first_min_index, lemma_gap_sink, lemma_insertion_sink, lemma_partition_result, lemma_partition_scan, lemma_shell_prefix, lemma_bubble_swaps_monotone, lemma_partition_swaps_monotone, lemma_shell_moves_monotone, partition_result, partition_scan, shell_prefix, shell_prefix_moves};
use crate::algorithm_stats::{AlgorithmStats, SortAlgorithm};
use crate::sorter_proofs::lemma_running_step;
use crate::progress::{lemma_cocktail_finishes_within, lemma_finishes_within, updates};

verus! {

/// Default number of entries a sorting animation works on.
pub const SORT_ARRAY_SIZE: usize = 200;

/// Where a sorting animation stands.
#[derive(Debug, PartialEq, Eq, Structural, Clone, Copy)]
pub enum SortState {
    /// The algorithm is still taking steps.
    Running,
    /// The array is fully sorted.
    Completed,
    /// The next step reshuffles the array and starts over.
    Restarting,
}

/// A sorting algorithm run one step at a time, with the counters an animation shows.
pub struct SortVisualizer {
    /// The values being sorted.
    pub array: Vec<u8>,
    /// Steps taken since the last (re)start.
    pub steps: usize,
    /// Which algorithm drives the steps.
    pub algorithm: SortAlgorithm,
    /// Running, finished, or about to restart.
    pub state: SortState,
    /// Primary position of the algorithm.
    pub i: usize,
    /// Secondary position (cocktail sort's number of finished passes).
    pub j: usize,
    /// Shell sort's gap, or cocktail sort's direction (0 forwards).
    pub pivot: usize,
    /// Quick sort's pending index ranges, inclusive at both ends.
    pub stack: Vec<(usize, usize)>,
    /// Element comparisons made.
    pub comparisons: usize,
    /// Array reads and writes made.
    pub accesses: usize,
}

/// The mathematical state of a `SortVisualizer`, with its counters as integers.
#[verifier::ext_equal]
pub struct SorterView {
    pub array: Seq<u8>,
    pub steps: int,
    pub state: SortState,
    pub i: int,
    pub j: int,
    pub pivot: int,
    pub stack: Seq<(usize, usize)>,
    pub comparisons: int,
    pub accesses: int,
}

impl View for SortVisualizer {
    type V = SorterView;

    open spec fn view(&self) -> SorterView {
        SorterView {
            array: self.array@,
            steps: self.steps as int,
            state: self.state,
            i: self.i as int,
            j: self.j as int,
            pivot: self.pivot as int,
            stack: self.stack@,
            comparisons: self.comparisons as int,
            accesses: self.accesses as int,
        }
    }
}

/// `v` marked as finished.
pub open spec fn mark_completed(v: SorterView) -> SorterView {
    SorterView { state: SortState::Completed, ..v }
}

/// One step of bubble sort: a pass over the unsorted prefix, finishing when the prefix
/// is down to one entry or the pass exchanged nothing.
pub open spec fn bubble_step(v: SorterView) -> SorterView {
    let n = v.array.len() as int;
    if v.i >= n - 1 {
        mark_completed(v)
    } else {
        let k = (n - 1 - v.i) as nat;
        let w = bubble_swaps(v.array, k);
        SorterView {
            array: bubble_pass(v.array, k),
            i: v.i + 1,
            comparisons: v.comparisons + k,
            accesses: v.accesses + 2 * k + 2 * w,
            state: if w == 0 {
                SortState::Completed
            } else {
                v.state
            },
            ..v
        }
    }
}

/// The range quick sort pushes left of a pivot at `m`, when it holds two or more entries.
pub open spec fn push_left(st: Seq<(usize, usize)>, low: usize, m: int) -> Seq<(usize, usize)> {
    if m > 0 && m - 1 > low {
        st.push((low, (m - 1) as usize))
    } else {
        st
    }
}

/// The range quick sort pushes right of a pivot at `m`, when it holds two or more entries.
pub open spec fn push_right(st: Seq<(usize, usize)>, m: int, high: usize) -> Seq<(usize, usize)> {
    if m + 1 < high {
        st.push(((m + 1) as usize, high))
    } else {
        st
    }
}

/// One step of quick sort: pop a range and partition it, pushing the two sides.
pub open spec fn quick_step(v: SorterView) -> SorterView {
    if v.stack.len() == 0 {
        mark_completed(v)
    } else {
        let (low, high) = v.stack.last();
        let rest = v.stack.drop_last();
        if low >= high {
            SorterView { stack: rest, ..v }
        } else {
            let (t, m, w) = partition_result(v.array, low as int, high as int);
            SorterView {
                array: t,
                stack: push_right(push_left(rest, low, m), m, high),
                comparisons: v.comparisons + (high - low),
                accesses: v.accesses + 1 + (high - low) + 4 * w + 4,
                ..v
            }
        }
    }
}

/// One step of insertion sort: sink entry `i` into the prefix before it.
pub open spec fn insertion_step(v: SorterView) -> SorterView {
    let n = v.array.len() as int;
    if v.i >= n {
        mark_completed(v)
    } else {
        let c = insertion_sink_comparisons(v.array, v.i);
        let w = insertion_sink_swaps(v.array, v.i);
        SorterView {
            array: insertion_sink(v.array, v.i),
            i: v.i + 1,
            comparisons: v.comparisons + c,
            accesses: v.accesses + 2 * c + 2 * w,
            ..v
        }
    }
}

/// One step of selection sort: exchange entry `i` with the first minimum after it.
pub open spec fn selection_step(v: SorterView) -> SorterView {
    let n = v.array.len() as int;
    if v.i >= n - 1 {
        mark_completed(v)
    } else {
        let m = first_min_index(v.array, v.i, n);
        SorterView {
            array: if m != v.i {
                swap_at(v.array, v.i, m)
            } else {
                v.array
            },
            i: v.i + 1,
            comparisons: v.comparisons + (n - 1 - v.i),
            accesses: v.accesses + 2 * (n - 1 - v.i) + if m != v.i {
                2int
            } else {
                0int
            },
            ..v
        }
    }
}

/// One step of shell sort: a gapped insertion pass with gap `pivot`, then halve the gap.
pub open spec fn shell_step(v: SorterView) -> SorterView {
    let n = v.array.len() as int;
    let g = v.pivot;
    if g == 0 {
        mark_completed(v)
    } else {
        SorterView {
            array: shell_prefix(v.array, g, n),
            pivot: g / 2,
            accesses: v.accesses + 2 * (if n > g {
                n - g
            } else {
                0
            }) + 2 * shell_prefix_moves(v.array, g, n),
            ..v
        }
    }
}

/// One step of cocktail sort: one comparison of a forward (`pivot == 0`) or backward
/// pass, or a turn at the end of a pass.
pub open spec fn cocktail_step(v: SorterView) -> SorterView {
    let n = v.array.len() as int;
    let (i, j) = (v.i, v.j);
    if i >= n || j >= n {
        mark_completed(v)
    } else if v.pivot == 0 {
        if i < n - 1 - j {
            let out_of_order = v.array[i] > v.array[i + 1];
            SorterView {
                array: if out_of_order {
                    swap_at(v.array, i, i + 1)
                } else {
                    v.array
                },
                i: i + 1,
                comparisons: v.comparisons + 1,
                accesses: v.accesses + 2 + if out_of_order {
                    2int
                } else {
                    0int
                },
                ..v
            }
        } else {
            SorterView {
                pivot: 1,
                i: if j + 2 <= n {
                    n - 2 - j
                } else {
                    0
                },
                ..v
            }
        }
    } else {
        if i > j {
            let out_of_order = v.array[i] < v.array[i - 1];
            SorterView {
                array: if out_of_order {
                    swap_at(v.array, i, i - 1)
                } else {
                    v.array
                },
                i: i - 1,
                comparisons: v.comparisons + 1,
                accesses: v.accesses + 2 + if out_of_order {
                    2int
                } else {
                    0int
                },
                ..v
            }
        } else {
            SorterView { pivot: 0, j: j + 1, i: j + 1, ..v }
        }
    }
}

/// The first index `d >= from` whose left neighbour is larger, or the length if none is.
pub open spec fn first_descent_from(s: Seq<u8>, from: int) -> int
    decreases s.len() - from,
{
    if from >= s.len() {
        s.len() as int
    } else if s[from - 1] > s[from] {
        from
    } else {
        first_descent_from(s, from + 1)
    }
}

/// How many neighbour pairs bogo sort reads before it knows whether the array is sorted.
pub open spec fn bogo_checks(s: Seq<u8>) -> int {
    let n = s.len() as int;
    if n <= 1 {
        0
    } else if first_descent_from(s, 1) < n {
        first_descent_from(s, 1)
    } else {
        n - 1
    }
}

/// One step of bogo sort, but for the new order of a reshuffle, which chance decides:
/// finish when sorted, otherwise reshuffle.
pub open spec fn bogo_step(v: SorterView) -> SorterView {
    if adjacent_sorted(v.array, 0, v.array.len() as int) {
        SorterView { accesses: v.accesses + 2 * bogo_checks(v.array), ..mark_completed(v) }
    } else {
        SorterView {
            accesses: v.accesses + 2 * bogo_checks(v.array) + 2 * v.array.len(),
            ..v
        }
    }
}

/// One step of `algorithm` from a running state, before the step counter moves.
pub open spec fn algorithm_step(v: SorterView, algorithm: SortAlgorithm) -> SorterView {
    match algorithm {
        SortAlgorithm::Bogo => bogo_step(v),
        SortAlgorithm::Bubble => bubble_step(v),
        SortAlgorithm::Quick => quick_step(v),
        SortAlgorithm::Merge => bubble_step(v),
        SortAlgorithm::Insertion => insertion_step(v),
        SortAlgorithm::Selection => selection_step(v),
        SortAlgorithm::Heap => bubble_step(v),
        SortAlgorithm::Radix => bubble_step(v),
        SortAlgorithm::Shell => shell_step(v),
        SortAlgorithm::Cocktail => cocktail_step(v),
    }
}

/// The state a (re)started animation of `array` begins in.
pub open spec fn fresh_view(array: Seq<u8>, algorithm: SortAlgorithm) -> SorterView {
    let n = array.len() as int;
    SorterView {
        array,
        steps: 0,
        state: SortState::Running,
        i: if algorithm == SortAlgorithm::Insertion {
            1
        } else {
            0
        },
        j: 0,
        pivot: if algorithm == SortAlgorithm::Shell {
            n / 2
        } else {
            0
        },
        stack: if algorithm == SortAlgorithm::Quick {
            seq![(0usize, (n - 1) as usize)]
        } else {
            seq![]
        },
        comparisons: 0,
        accesses: 0,
    }
}

} // verus!

verus! {

/// Whether quick sort's range `r` contains position `p`.
pub open spec fn range_holds(r: (usize, usize), p: int) -> bool {
    r.0 as int <= p <= r.1 as int
}

/// Position `p` lies in none of the pending ranges.
pub open spec fn settled(stack: Seq<(usize, usize)>, p: int) -> bool {
    forall|k: int| 0 <= k < stack.len() ==> !range_holds(#[trigger] stack[k], p)
}

/// Bubble sort after `i` passes: the last `i` entries are in order and no smaller
/// than anything before them.
pub open spec fn bubble_invariant(s: Seq<u8>, i: int) -> bool {
    let n = s.len() as int;
    &&& sorted_between(s, n - i, n)
    &&& forall|p: int, q: int| 0 <= p < n - i <= q < n ==> s[p] <= s[q]
}

/// Selection sort after `i` steps: the first `i` entries are in order and no larger
/// than anything after them.
pub open spec fn selection_invariant(s: Seq<u8>, i: int) -> bool {
    let n = s.len() as int;
    &&& i <= n
    &&& sorted_between(s, 0, i)
    &&& forall|p: int, q: int| 0 <= p < i <= q < n ==> s[p] <= s[q]
}

/// Insertion sort at position `i`: the entries before `i` are in order.
pub open spec fn insertion_invariant(s: Seq<u8>, i: int) -> bool {
    sorted_between(
        s,
        0,
        if i < s.len() {
            i
        } else {
            s.len() as int
        },
    )
}

/// Quick sort's pending ranges are in bounds and disjoint; each range is bounded below
/// by everything left of it and above by everything right of it; settled positions are
/// in order among themselves.
pub open spec fn quick_invariant(s: Seq<u8>, stack: Seq<(usize, usize)>) -> bool {
    let n = s.len() as int;
    &&& forall|k: int| 0 <= k < stack.len() ==> (#[trigger] stack[k]).0 <= stack[k].1 && stack[k].1 < n
    &&& forall|k1: int, k2: int|
        0 <= k1 < stack.len() && 0 <= k2 < stack.len() && k1 != k2 ==> (#[trigger] stack[k1]).1
            < (#[trigger] stack[k2]).0 || stack[k2].1 < stack[k1].0
    &&& forall|k: int, p: int|
        #![trigger stack[k], s[p]]
        0 <= k < stack.len() && 0 <= p < stack[k].0 ==> all_at_least(
            s,
            stack[k].0 as int,
            stack[k].1 + 1,
            s[p],
        )
    &&& forall|k: int, p: int|
        #![trigger stack[k], s[p]]
        0 <= k < stack.len() && stack[k].1 < p < n ==> all_at_most(
            s,
            stack[k].0 as int,
            stack[k].1 + 1,
            s[p],
        )
    &&& forall|p: int, q: int|
        0 <= p < q < n && settled(stack, p) && settled(stack, q) ==> #[trigger] s[p]
            <= #[trigger] s[q]
}

/// The first `k` entries are in order and none is larger than an entry after them.
pub open spec fn low_done(s: Seq<u8>, k: int) -> bool {
    &&& sorted_between(s, 0, k)
    &&& forall|p: int, q: int| 0 <= p < k <= q < s.len() ==> s[p] <= s[q]
}

/// The last `k` entries are in order and none is smaller than an entry before them.
pub open spec fn high_done(s: Seq<u8>, k: int) -> bool {
    let n = s.len() as int;
    &&& sorted_between(s, n - k, n)
    &&& forall|p: int, q: int| 0 <= p < n - k <= q < n ==> s[p] <= s[q]
}

/// Cocktail sort after `j` rounds: the `j` smallest entries are in place at the front.
/// In the forward pass (`pivot == 0`) the `j` largest are in place at the back and
/// entry `i` is the largest so far; in the backward pass the `j + 1` largest are in
/// place at the back and entry `i` is no larger than any entry after it.
pub open spec fn cocktail_invariant(s: Seq<u8>, i: int, j: int, pivot: int) -> bool {
    let n = s.len() as int;
    &&& 0 <= j <= n
    &&& low_done(s, j)
    &&& pivot == 0 ==> {
        &&& high_done(s, j)
        &&& j <= i
        &&& (i <= n - 1 - j || i == j)
        &&& (i < n ==> forall|p: int| 0 <= p <= i ==> s[p] <= s[i])
    }
    &&& pivot != 0 ==> {
        &&& j < n
        &&& high_done(s, j + 1)
        &&& 0 <= i < n
        &&& (i <= j || i + 1 < n - j)
        &&& (i < j ==> n - 1 - j <= j)
        &&& forall|q: int| i <= q < n ==> s[i] <= s[q]
    }
}

/// What holds of every state an animation reaches from a fresh start: a completed
/// array is sorted, and a running one satisfies its algorithm's progress invariant.
pub open spec fn sorter_invariant(v: SorterView, algorithm: SortAlgorithm) -> bool {
    &&& (v.state == SortState::Completed ==> is_sorted(v.array))
    &&& (v.state == SortState::Running ==> match algorithm {
        SortAlgorithm::Bogo => true,
        SortAlgorithm::Bubble => bubble_invariant(v.array, v.i),
        SortAlgorithm::Quick => quick_invariant(v.array, v.stack),
        SortAlgorithm::Merge => bubble_invariant(v.array, v.i),
        SortAlgorithm::Insertion => insertion_invariant(v.array, v.i),
        SortAlgorithm::Selection => selection_invariant(v.array, v.i),
        SortAlgorithm::Heap => bubble_invariant(v.array, v.i),
        SortAlgorithm::Radix => bubble_invariant(v.array, v.i),
        SortAlgorithm::Shell => v.pivot == 0 ==> is_sorted(v.array),
        SortAlgorithm::Cocktail => cocktail_invariant(v.array, v.i, v.j, v.pivot),
    })
}

/// The step of a running `algorithm` on `v` can be taken without an index out of
/// bounds or an arithmetic underflow.
pub open spec fn running_step_in_bounds(v: SorterView, algorithm: SortAlgorithm) -> bool {
    let n = v.array.len() as int;
    match algorithm {
        SortAlgorithm::Bubble => n >= 1,
        SortAlgorithm::Merge => n >= 1,
        SortAlgorithm::Heap => n >= 1,
        SortAlgorithm::Radix => n >= 1,
        SortAlgorithm::Selection => n >= 1,
        SortAlgorithm::Quick => v.stack.len() > 0 ==> (v.stack.last().0 >= v.stack.last().1
            || v.stack.last().1 < n),
        _ => true,
    }
}

} // verus!

verus! {

#[verifier::external_type_specification]
#[verifier::external_body]
pub struct ExThreadRng(rand::rngs::ThreadRng);

/// Calls `rand::thread_rng`, which hands out this thread's lazily seeded generator.
/// Nothing is claimed of the generator; rand panics only if the operating system
/// cannot seed it.
#[verifier::external_body]
fn thread_rng() -> (rng: rand::rngs::ThreadRng) {
    rand::thread_rng()
}

/// Calls `rand::seq::SliceRandom::shuffle` on the whole vector. Claimed: the result is
/// a rearrangement of the input (same length, same multiset of values), which is what
/// the Fisher-Yates swaps of rand's source give; which rearrangement is left to chance.
#[verifier::external_body]
fn shuffle_values(values: &mut Vec<u8>, rng: &mut rand::rngs::ThreadRng)
    ensures
        final(values)@.len() == old(values)@.len(),
        final(values)@.to_multiset() == old(values)@.to_multiset(),
{
    values.as_mut_slice().shuffle(rng)
}

/// The values a new animation of `size` entries starts from, before shuffling:
/// `1, 2, ..., 255`, cycling for larger arrays.
pub open spec fn initial_values(size: nat) -> Seq<u8> {
    Seq::new(size, |k: int| ((k % 255) + 1) as u8)
}

/// Exchanges two entries of the array.
fn swap_values(a: &mut Vec<u8>, x: usize, y: usize)
    requires
        x < old(a).len(),
        y < old(a).len(),
    ensures
        final(a)@ == swap_at(old(a)@, x as int, y as int),
{
    let vx = a[x];
    let vy = a[y];
    a.set(x, vy);
    a.set(y, vx);
}

/// A fresh start satisfies the invariant of every algorithm that can start on it.
pub proof fn lemma_fresh_view(array: Seq<u8>, algorithm: SortAlgorithm)
    requires
        algorithm == SortAlgorithm::Quick ==> array.len() >= 1,
        array.len() <= usize::MAX,
    ensures
        sorter_invariant(fresh_view(array, algorithm), algorithm),
{
    let v = fresh_view(array, algorithm);
    let n = array.len() as int;
    if algorithm == SortAlgorithm::Quick {
        assert forall|p: int, q: int|
            0 <= p < q < n && settled(v.stack, p) && settled(v.stack, q) implies #[trigger] array[p]
            <= #[trigger] array[q] by {
            assert(range_holds(v.stack[0], p));
        }
    }
    if algorithm == SortAlgorithm::Shell && n / 2 == 0 {
        assert(is_sorted(array));
    }
    if algorithm == SortAlgorithm::Insertion {
        assert(insertion_invariant(array, 1));
    }
}

impl SortVisualizer {
    /// A running animation of `algorithm` on `size` values running `1 ..= 255` and
    /// cycling, in a random order, with the algorithm's starting positions.
    pub fn new_with_size(algorithm: SortAlgorithm, size: usize) -> (sv: SortVisualizer)
        requires
            algorithm == SortAlgorithm::Quick ==> size >= 1,
        ensures
            sv.algorithm == algorithm,
            sv@ == fresh_view(sv.array@, algorithm),
            sv.array@.len() == size,
            sv.array@.to_multiset() == initial_values(size as nat).to_multiset(),
            sorter_invariant(sv@, algorithm),
            size >= 1 && algorithm != SortAlgorithm::Bogo && algorithm != SortAlgorithm::Cocktail ==> updates(
                sv@,
                algorithm,
                (2 * size + 2) as nat,
            ).state == SortState::Completed,
            size >= 1 && algorithm == SortAlgorithm::Cocktail ==> updates(
                sv@,
                algorithm,
                (2 * size * size + 2) as nat,
            ).state == SortState::Completed,
    {
        let mut array: Vec<u8> = Vec::with_capacity(size);
        let mut k: usize = 0;
        while k < size
            invariant
                k <= size,
                array@ == initial_values(k as nat),
            decreases size - k,
        {
            array.push(((k % 255) as u8) + 1);
            k = k + 1;
            proof {
                assert(array@ =~= initial_values(k as nat));
            }
        }
        let mut rng = thread_rng();
        shuffle_values(&mut array, &mut rng);
        let mut sv = SortVisualizer {
            array,
            steps: 0,
            algorithm,
            state: SortState::Running,
            i: 0,
            j: 0,
            pivot: 0,
            stack: Vec::new(),
            comparisons: 0,
            accesses: 0,
        };
        match algorithm {
            SortAlgorithm::Quick => {
                let top = sv.array.len() - 1;
                sv.stack.push((0, top));
            },
            SortAlgorithm::Shell => {
                sv.pivot = sv.array.len() / 2;
            },
            SortAlgorithm::Insertion => {
                sv.i = 1;
            },
            _ => {},
        }
        proof {
            assert(sv@ =~= fresh_view(sv.array@, algorithm));
            lemma_fresh_view(sv.array@, algorithm);
            if size >= 1 && algorithm != SortAlgorithm::Bogo && algorithm != SortAlgorithm::Cocktail {
                lemma_finishes_within(sv.array@, algorithm, (2 * size + 2) as nat);
            }
            if size >= 1 && algorithm == SortAlgorithm::Cocktail {
                lemma_cocktail_finishes_within(sv.array@, (2 * size * size + 2) as nat);
            }
        }
        sv
    }

    /// A running animation of `algorithm` on the default number of entries.
    pub fn new(algorithm: SortAlgorithm) -> (sv: SortVisualizer)
        ensures
            sv.algorithm == algorithm,
            sv@ == fresh_view(sv.array@, algorithm),
            sv.array@.len() == SORT_ARRAY_SIZE,
            sv.array@.to_multiset() == initial_values(SORT_ARRAY_SIZE as nat).to_multiset(),
            sorter_invariant(sv@, algorithm),
            algorithm != SortAlgorithm::Bogo && algorithm != SortAlgorithm::Cocktail ==> updates(
                sv@,
                algorithm,
                (2 * SORT_ARRAY_SIZE + 2) as nat,
            ).state == SortState::Completed,
            algorithm == SortAlgorithm::Cocktail ==> updates(
                sv@,
                algorithm,
                (2 * SORT_ARRAY_SIZE * SORT_ARRAY_SIZE + 2) as nat,
            ).state == SortState::Completed,
    {
        SortVisualizer::new_with_size(algorithm, SORT_ARRAY_SIZE)
    }

    /// Asks for a restart: the next `update` reshuffles the array and begins again.
    pub fn restart(&mut self)
        ensures
            final(self)@ == (SorterView { state: SortState::Restarting, ..old(self)@ }),
            final(self).algorithm == old(self).algorithm,
            sorter_invariant(final(self)@, final(self).algorithm),
    {
        self.state = SortState::Restarting;
    }
}

} // verus!

verus! {

/// One bubble pass over the neighbours `(0,1) ... (k-1,k)`, counting one comparison and
/// two reads per pair and two writes per exchange; tells whether anything moved.
fn bubble_pass_in_place(a: &mut Vec<u8>, k: usize, comparisons: &mut usize, accesses: &mut usize) -> (swapped: bool)
    requires
        k < old(a).len(),
        *old(comparisons) + k <= usize::MAX,
        *old(accesses) + 2 * k + 2 * bubble_swaps(old(a)@, k as nat) <= usize::MAX,
    ensures
        final(a)@ == bubble_pass(old(a)@, k as nat),
        swapped == (bubble_swaps(old(a)@, k as nat) > 0),
        *final(comparisons) == *old(comparisons) + k,
        *final(accesses) == *old(accesses) + 2 * k + 2 * bubble_swaps(old(a)@, k as nat),
{
    let ghost s0 = a@;
    let ghost c0 = *comparisons;
    let ghost a0 = *accesses;
    let mut swapped = false;
    let mut j: usize = 0;
    while j < k
        invariant
            j <= k,
            k < s0.len(),
            a@ == bubble_pass(s0, j as nat),
            swapped == (bubble_swaps(s0, j as nat) > 0),
            *comparisons == c0 + j,
            *accesses == a0 + 2 * j + 2 * bubble_swaps(s0, j as nat),
            c0 + k <= usize::MAX,
            a0 + 2 * k + 2 * bubble_swaps(s0, k as nat) <= usize::MAX,
        decreases k - j,
    {
        proof {
            lemma_bubble_pass(s0, j as nat);
            lemma_bubble_swaps_monotone(s0, (j + 1) as nat, k as nat);
        }
        *comparisons = *comparisons + 1;
        *accesses = *accesses + 2;
        if a[j] > a[j + 1] {
            swap_values(a, j, j + 1);
            *accesses = *accesses + 2;
            swapped = true;
        }
        j = j + 1;
    }
    swapped
}

/// Lomuto partition of `[low, high]` around the value at `high`, counting one read for
/// the pivot, one comparison and one read per scanned entry, four accesses per exchange
/// and four for placing the pivot; returns the pivot's final index.
fn partition_in_place(a: &mut Vec<u8>, low: usize, high: usize, comparisons: &mut usize, accesses: &mut usize) -> (m: usize)
    requires
        low < high < old(a).len(),
        *old(comparisons) + (high - low) <= usize::MAX,
        *old(accesses) + 1 + (high - low) + 4 * partition_result(old(a)@, low as int, high as int).2 + 4
            <= usize::MAX,
    ensures
        final(a)@ == partition_result(old(a)@, low as int, high as int).0,
        m == partition_result(old(a)@, low as int, high as int).1,
        *final(comparisons) == *old(comparisons) + (high - low),
        *final(accesses) == *old(accesses) + 1 + (high - low) + 4 * partition_result(
            old(a)@,
            low as int,
            high as int,
        ).2 + 4,
{
    let ghost s0 = a@;
    let ghost c0 = *comparisons;
    let ghost a0 = *accesses;
    let pivot = a[high];
    *accesses = *accesses + 1;
    let mut i = low;
    let mut j = low;
    while j < high
        invariant
            low <= j <= high,
            high < s0.len(),
            pivot == s0[high as int],
            (a@, i as int, partition_scan(s0, low as int, j as int, pivot).2) == partition_scan(
                s0,
                low as int,
                j as int,
                pivot,
            ),
            *comparisons == c0 + (j - low),
            *accesses == a0 + 1 + (j - low) + 4 * partition_scan(s0, low as int, j as int, pivot).2,
            c0 + (high - low) <= usize::MAX,
            a0 + 1 + (high - low) + 4 * partition_scan(s0, low as int, high as int, pivot).2 + 4
                <= usize::MAX,
        decreases high - j,
    {
        proof {
            lemma_partition_scan(s0, low as int, j as int, high as int, pivot);
            lemma_partition_swaps_monotone(s0, low as int, j + 1, high as int, pivot);
        }
        *comparisons = *comparisons + 1;
        *accesses = *accesses + 1;
        if a[j] <= pivot {
            swap_values(a, i, j);
            *accesses = *accesses + 4;
            i = i + 1;
        }
        j = j + 1;
    }
    proof {
        lemma_partition_scan(s0, low as int, high as int, high as int, pivot);
    }
    swap_values(a, i, high);
    *accesses = *accesses + 4;
    i
}

} // verus!

verus! {

/// Moves the entry at `i` leftwards past larger neighbours, counting one comparison and
/// two reads per look at a neighbour and two writes per exchange.
fn insertion_sink_in_place(a: &mut Vec<u8>, i: usize, comparisons: &mut usize, accesses: &mut usize)
    requires
        i < old(a).len(),
        *old(comparisons) + insertion_sink_comparisons(old(a)@, i as int) <= usize::MAX,
        *old(accesses) + 2 * insertion_sink_comparisons(old(a)@, i as int) + 2
            * insertion_sink_swaps(old(a)@, i as int) <= usize::MAX,
    ensures
        final(a)@ == insertion_sink(old(a)@, i as int),
        *final(comparisons) == *old(comparisons) + insertion_sink_comparisons(old(a)@, i as int),
        *final(accesses) == *old(accesses) + 2 * insertion_sink_comparisons(old(a)@, i as int) + 2
            * insertion_sink_swaps(old(a)@, i as int),
{
    let ghost s0 = a@;
    let ghost total_c = *comparisons + insertion_sink_comparisons(s0, i as int);
    let ghost total_a = *accesses + 2 * insertion_sink_comparisons(s0, i as int) + 2
        * insertion_sink_swaps(s0, i as int);
    let mut j = i;
    let mut done = false;
    while j > 0 && !done
        invariant
            j <= i < s0.len(),
            a@.len() == s0.len(),
            !done ==> insertion_sink(a@, j as int) == insertion_sink(s0, i as int),
            !done ==> *comparisons + insertion_sink_comparisons(a@, j as int) == total_c,
            !done ==> *accesses + 2 * insertion_sink_comparisons(a@, j as int) + 2
                * insertion_sink_swaps(a@, j as int) == total_a,
            done ==> a@ == insertion_sink(s0, i as int),
            done ==> *comparisons == total_c,
            done ==> *accesses == total_a,
            total_c <= usize::MAX,
            total_a <= usize::MAX,
        decreases j, if done { 0int } else { 1int },
    {
        *comparisons = *comparisons + 1;
        *accesses = *accesses + 2;
        if a[j - 1] > a[j] {
            proof {
                lemma_swap_multiset(a@, j - 1, j as int);
            }
            swap_values(a, j - 1, j);
            *accesses = *accesses + 2;
            j = j - 1;
        } else {
            done = true;
        }
    }
}

/// The index of the first smallest entry of `[i, len)`, counting one comparison and two
/// reads for each entry after `i`.
fn first_min_in_place(a: &Vec<u8>, i: usize, comparisons: &mut usize, accesses: &mut usize) -> (m: usize)
    requires
        i < a.len(),
        *old(comparisons) + (a.len() - 1 - i) <= usize::MAX,
        *old(accesses) + 2 * (a.len() - 1 - i) <= usize::MAX,
    ensures
        m == first_min_index(a@, i as int, a.len() as int),
        *final(comparisons) == *old(comparisons) + (a.len() - 1 - i),
        *final(accesses) == *old(accesses) + 2 * (a.len() - 1 - i),
{
    let n = a.len();
    let ghost c0 = *comparisons;
    let ghost a0 = *accesses;
    let mut min_idx = i;
    let mut j = i + 1;
    while j < n
        invariant
            i < j <= n,
            n == a.len(),
            min_idx == first_min_index(a@, i as int, j as int),
            *comparisons == c0 + (j - 1 - i),
            *accesses == a0 + 2 * (j - 1 - i),
            c0 + (n - 1 - i) <= usize::MAX,
            a0 + 2 * (n - 1 - i) <= usize::MAX,
        decreases n - j,
    {
        proof {
            lemma_first_min_index(a@, i as int, j as int);
        }
        *comparisons = *comparisons + 1;
        *accesses = *accesses + 2;
        if a[j] < a[min_idx] {
            min_idx = j;
        }
        j = j + 1;
    }
    min_idx
}

/// A gapped insertion pass with gap `g` over the entries `g .. len`, counting one read
/// and one write per entry and two accesses per shift.
fn shell_pass_in_place(a: &mut Vec<u8>, g: usize, accesses: &mut usize)
    requires
        g > 0,
        *old(accesses) + 2 * (if old(a).len() > g {
            old(a).len() - g
        } else {
            0
        }) + 2 * shell_prefix_moves(old(a)@, g as int, old(a).len() as int) <= usize::MAX,
    ensures
        final(a)@ == shell_prefix(old(a)@, g as int, old(a).len() as int),
        *final(accesses) == *old(accesses) + 2 * (if old(a).len() > g {
            old(a).len() - g
        } else {
            0
        }) + 2 * shell_prefix_moves(old(a)@, g as int, old(a).len() as int),
{
    let n = a.len();
    let ghost s0 = a@;
    let ghost a0 = *accesses;
    let ghost total = a0 + 2 * (if n > g {
        n - g
    } else {
        0
    }) + 2 * shell_prefix_moves(s0, g as int, n as int);
    let mut i = g;
    while i < n
        invariant
            g > 0,
            g <= i,
            i <= n || n < g,
            n < g ==> i == g,
            n == s0.len(),
            a@ == shell_prefix(s0, g as int, i as int),
            *accesses == a0 + 2 * (i - g) + 2 * shell_prefix_moves(s0, g as int, i as int),
            total == a0 + 2 * (if n > g {
                n - g
            } else {
                0
            }) + 2 * shell_prefix_moves(s0, g as int, n as int),
            total <= usize::MAX,
        decreases n - i,
    {
        let ghost t = a@;
        proof {
            lemma_shell_prefix(s0, g as int, i as int);
            lemma_shell_moves_monotone(s0, g as int, i + 1, n as int);
            lemma_gap_sink(t, i as int, g as int);
        }
        let temp = a[i];
        *accesses = *accesses + 1;
        let mut j = i;
        let ghost mut cur = t;
        let ghost mut done: nat = 0;
        while j >= g && a[j - g] > temp
            invariant
                g > 0,
                j <= i < n,
                n == s0.len(),
                a@.len() == n,
                cur.len() == n,
                a@.update(j as int, temp) == cur,
                cur[j as int] == temp,
                gap_sink(cur, j as int, g as int) == gap_sink(t, i as int, g as int),
                done + gap_sink_moves(cur, j as int, g as int) == gap_sink_moves(t, i as int, g as int),
                *accesses == a0 + 2 * (i - g) + 2 * shell_prefix_moves(s0, g as int, i as int) + 1 + 2 * done,
                shell_prefix_moves(s0, g as int, i + 1) == shell_prefix_moves(s0, g as int, i as int)
                    + gap_sink_moves(t, i as int, g as int),
                a0 + 2 * (i + 1 - g) + 2 * shell_prefix_moves(s0, g as int, i + 1) <= total,
                total <= usize::MAX,
            decreases j,
        {
            let moved = a[j - g];
            a.set(j, moved);
            *accesses = *accesses + 2;
            proof {
                cur = swap_at(cur, j - g, j as int);
                done = done + 1;
                assert(a@.update(j - g, temp) =~= cur);
            }
            j = j - g;
        }
        proof {
            assert(a@.update(j as int, temp) == cur);
        }
        a.set(j, temp);
        *accesses = *accesses + 1;
        proof {
            assert(a@ =~= cur);
            assert(gap_sink(cur, j as int, g as int) == cur);
            assert(gap_sink_moves(cur, j as int, g as int) == 0);
        }
        i = i + 1;
    }
}

/// Reads neighbour pairs from the left until one is out of order, two reads per pair;
/// tells whether the array is sorted.
fn check_sorted_in_place(a: &Vec<u8>, accesses: &mut usize) -> (sorted: bool)
    requires
        *old(accesses) + 2 * bogo_checks(a@) <= usize::MAX,
    ensures
        sorted == adjacent_sorted(a@, 0, a.len() as int),
        *final(accesses) == *old(accesses) + 2 * bogo_checks(a@),
{
    let n = a.len();
    let ghost a0 = *accesses;
    let mut sorted = true;
    let mut i: usize = 1;
    while i < n && sorted
        invariant
            1 <= i,
            n == a.len(),
            i <= n || n == 0,
            n == 0 ==> i == 1,
            sorted ==> adjacent_sorted(a@, 0, i as int),
            sorted ==> *accesses == a0 + 2 * (i - 1),
            sorted ==> first_descent_from(a@, 1) == first_descent_from(a@, i as int),
            !sorted ==> i < n && a@[i - 1] > a@[i as int] && first_descent_from(a@, 1) == i
                && *accesses == a0 + 2 * i,
            a0 + 2 * bogo_checks(a@) <= usize::MAX,
        decreases n - i, if sorted { 1int } else { 0int },
    {
        proof {
            lemma_first_descent_bound(a@, i as int);
        }
        *accesses = *accesses + 2;
        if a[i - 1] > a[i] {
            sorted = false;
        } else {
            i = i + 1;
        }
    }
    proof {
        if sorted {
            lemma_first_descent_bound(a@, i as int);
            if n > 1 {
                assert(i == n);
                assert(first_descent_from(a@, 1) == n);
                assert(bogo_checks(a@) == n - 1);
            } else {
                assert(bogo_checks(a@) == 0);
                assert(i == 1);
            }
        } else {
            assert(!adjacent_sorted(a@, 0, n as int));
            assert(bogo_checks(a@) == i);
        }
    }
    sorted
}

/// The first descent at or after `from` lies between `from` and the length.
proof fn lemma_first_descent_bound(s: Seq<u8>, from: int)
    requires
        1 <= from,
    ensures
        from <= s.len() ==> from <= first_descent_from(s, from) <= s.len(),
        from > s.len() ==> first_descent_from(s, from) == s.len(),
    decreases s.len() - from,
{
    if from < s.len() {
        lemma_first_descent_bound(s, from + 1);
    }
}

} // verus!

verus! {

/// The counters of `next` fit their machine words, and a completion can be counted.
pub open spec fn step_fits(next: SorterView, algorithm: SortAlgorithm, stats: Map<SortAlgorithm, u32>) -> bool {
    &&& next.comparisons <= usize::MAX
    &&& next.accesses <= usize::MAX
    &&& (next.state == SortState::Completed ==> stats[algorithm] < u32::MAX)
}

/// The completion counts after a step that finishes the sort (`completes`) or not.
pub open spec fn stats_after(stats: Map<SortAlgorithm, u32>, algorithm: SortAlgorithm, completes: bool) -> Map<
    SortAlgorithm,
    u32,
> {
    if completes {
        stats.insert(algorithm, (stats[algorithm] + 1) as u32)
    } else {
        stats
    }
}

/// The state after `update` from a running state: the algorithm's step with the step
/// counter advanced, where a reshuffling bogo step leaves the array as `shuffled`.
pub open spec fn after_running_step(v: SorterView, algorithm: SortAlgorithm, shuffled: Seq<u8>) -> SorterView {
    let next = algorithm_step(v, algorithm);
    SorterView {
        steps: v.steps + 1,
        array: if algorithm == SortAlgorithm::Bogo && next.state != SortState::Completed {
            shuffled
        } else {
            next.array
        },
        ..next
    }
}

impl SortVisualizer {
    /// `update` can run without an out-of-bounds index, an arithmetic overflow or a
    /// completion count past `u32::MAX`.
    pub open spec fn can_update(&self, stats: Map<SortAlgorithm, u32>) -> bool {
        match self.state {
            SortState::Completed => true,
            SortState::Restarting => self.algorithm == SortAlgorithm::Quick ==> self.array.len() >= 1,
            SortState::Running => {
                &&& running_step_in_bounds(self@, self.algorithm)
                &&& self.steps < usize::MAX
                &&& step_fits(algorithm_step(self@, self.algorithm), self.algorithm, stats)
            },
        }
    }

    /// Counts a completion of this animation's algorithm.
    fn record_completion(&self, stats: &mut AlgorithmStats)
        requires
            old(stats)@[self.algorithm] < u32::MAX,
        ensures
            final(stats)@ == stats_after(old(stats)@, self.algorithm, true),
    {
        stats.record_completion(self.algorithm);
    }

    fn update_bubble(&mut self, stats: &mut AlgorithmStats)
        requires
            old(self).state == SortState::Running,
            old(self).array.len() >= 1,
            step_fits(bubble_step(old(self)@), old(self).algorithm, old(stats)@),
        ensures
            final(self)@ == bubble_step(old(self)@),
            final(self).algorithm == old(self).algorithm,
            final(stats)@ == stats_after(
                old(stats)@,
                old(self).algorithm,
                bubble_step(old(self)@).state == SortState::Completed,
            ),
    {
        let n = self.array.len();
        if self.i >= n - 1 {
            self.state = SortState::Completed;
            self.record_completion(stats);
            return;
        }
        let k = n - 1 - self.i;
        let swapped = bubble_pass_in_place(&mut self.array, k, &mut self.comparisons, &mut self.accesses);
        self.i = self.i + 1;
        if !swapped {
            self.state = SortState::Completed;
            self.record_completion(stats);
        }
    }

    fn update_quick(&mut self, stats: &mut AlgorithmStats)
        requires
            old(self).state == SortState::Running,
            running_step_in_bounds(old(self)@, SortAlgorithm::Quick),
            step_fits(quick_step(old(self)@), old(self).algorithm, old(stats)@),
        ensures
            final(self)@ == quick_step(old(self)@),
            final(self).algorithm == old(self).algorithm,
            final(stats)@ == stats_after(
                old(stats)@,
                old(self).algorithm,
                quick_step(old(self)@).state == SortState::Completed,
            ),
    {
        if self.stack.len() == 0 {
            self.state = SortState::Completed;
            self.record_completion(stats);
            return;
        }
        let (low, high) = self.stack.pop().unwrap();
        if low >= high {
            return;
        }
        let ghost before = self.array@;
        assert((low, high) == old(self).stack@.last());
        proof {
            lemma_partition_result(before, low as int, high as int);
        }
        let pivot = partition_in_place(&mut self.array, low, high, &mut self.comparisons, &mut self.accesses);
        assert(pivot <= high && high < self.array.len());
        if pivot > 0 && pivot - 1 > low {
            self.stack.push((low, pivot - 1));
        }
        if pivot + 1 < high {
            self.stack.push((pivot + 1, high));
        }
    }

    fn update_insertion(&mut self, stats: &mut AlgorithmStats)
        requires
            old(self).state == SortState::Running,
            step_fits(insertion_step(old(self)@), old(self).algorithm, old(stats)@),
        ensures
            final(self)@ == insertion_step(old(self)@),
            final(self).algorithm == old(self).algorithm,
            final(stats)@ == stats_after(
                old(stats)@,
                old(self).algorithm,
                insertion_step(old(self)@).state == SortState::Completed,
            ),
    {
        let n = self.array.len();
        if self.i >= n {
            self.state = SortState::Completed;
            self.record_completion(stats);
            return;
        }
        insertion_sink_in_place(&mut self.array, self.i, &mut self.comparisons, &mut self.accesses);
        self.i = self.i + 1;
    }

    fn update_selection(&mut self, stats: &mut AlgorithmStats)
        requires
            old(self).state == SortState::Running,
            old(self).array.len() >= 1,
            step_fits(selection_step(old(self)@), old(self).algorithm, old(stats)@),
        ensures
            final(self)@ == selection_step(old(self)@),
            final(self).algorithm == old(self).algorithm,
            final(stats)@ == stats_after(
                old(stats)@,
                old(self).algorithm,
                selection_step(old(self)@).state == SortState::Completed,
            ),
    {
        let n = self.array.len();
        if self.i >= n - 1 {
            self.state = SortState::Completed;
            self.record_completion(stats);
            return;
        }
        let min_idx = first_min_in_place(&self.array, self.i, &mut self.comparisons, &mut self.accesses);
        proof {
            lemma_first_min_index(self.array@, self.i as int, n as int);
        }
        if min_idx != self.i {
            swap_values(&mut self.array, self.i, min_idx);
            self.accesses = self.accesses + 2;
        }
        self.i = self.i + 1;
    }

    fn update_shell(&mut self, stats: &mut AlgorithmStats)
        requires
            old(self).state == SortState::Running,
            step_fits(shell_step(old(self)@), old(self).algorithm, old(stats)@),
        ensures
            final(self)@ == shell_step(old(self)@),
            final(self).algorithm == old(self).algorithm,
            final(stats)@ == stats_after(
                old(stats)@,
                old(self).algorithm,
                shell_step(old(self)@).state == SortState::Completed,
            ),
    {
        if self.pivot == 0 {
            self.state = SortState::Completed;
            self.record_completion(stats);
            return;
        }
        shell_pass_in_place(&mut self.array, self.pivot, &mut self.accesses);
        self.pivot = self.pivot / 2;
    }

    fn update_cocktail(&mut self, stats: &mut AlgorithmStats)
        requires
            old(self).state == SortState::Running,
            step_fits(cocktail_step(old(self)@), old(self).algorithm, old(stats)@),
        ensures
            final(self)@ == cocktail_step(old(self)@),
            final(self).algorithm == old(self).algorithm,
            final(stats)@ == stats_after(
                old(stats)@,
                old(self).algorithm,
                cocktail_step(old(self)@).state == SortState::Completed,
            ),
    {
        let n = self.array.len();
        if self.i >= n || self.j >= n {
            self.state = SortState::Completed;
            self.record_completion(stats);
            return;
        }
        if self.pivot == 0 {
            if self.i < n - 1 - self.j {
                self.comparisons = self.comparisons + 1;
                self.accesses = self.accesses + 2;
                if self.array[self.i] > self.array[self.i + 1] {
                    swap_values(&mut self.array, self.i, self.i + 1);
                    self.accesses = self.accesses + 2;
                }
                self.i = self.i + 1;
            } else {
                self.pivot = 1;
                self.i = if n - 1 - self.j >= 1 {
                    n - 2 - self.j
                } else {
                    0
                };
            }
        } else {
            if self.i > self.j {
                self.comparisons = self.comparisons + 1;
                self.accesses = self.accesses + 2;
                if self.array[self.i] < self.array[self.i - 1] {
                    swap_values(&mut self.array, self.i, self.i - 1);
                    self.accesses = self.accesses + 2;
                }
                self.i = self.i - 1;
            } else {
                self.pivot = 0;
                self.j = self.j + 1;
                self.i = self.j;
            }
        }
    }

    fn update_bogo(&mut self, stats: &mut AlgorithmStats)
        requires
            old(self).state == SortState::Running,
            step_fits(bogo_step(old(self)@), old(self).algorithm, old(stats)@),
        ensures
            final(self)@ == (SorterView { array: final(self).array@, ..bogo_step(old(self)@) }),
            bogo_step(old(self)@).state == SortState::Completed ==> final(self).array@ == old(self).array@,
            final(self).array@.to_multiset() == old(self).array@.to_multiset(),
            final(self).array@.len() == old(self).array@.len(),
            final(self).algorithm == old(self).algorithm,
            final(stats)@ == stats_after(
                old(stats)@,
                old(self).algorithm,
                bogo_step(old(self)@).state == SortState::Completed,
            ),
    {
        let sorted = check_sorted_in_place(&self.array, &mut self.accesses);
        if sorted {
            self.state = SortState::Completed;
            self.record_completion(stats);
        } else {
            let mut rng = thread_rng();
            shuffle_values(&mut self.array, &mut rng);
            let len = self.array.len();
            self.accesses = self.accesses + len * 2;
        }
    }
}

} // verus!

verus! {

impl SortVisualizer {
    /// Advances the animation by one step. A completed animation stays as it is; a
    /// restarting one is reshuffled and starts over; a running one takes one step of its
    /// algorithm, counts the step, and records a completion in `stats` when the step
    /// finishes the sort. Every step keeps the multiset of values, and every state reached
    /// from a fresh start has a sorted array once completed.
    pub fn update(&mut self, stats: &mut AlgorithmStats)
        requires
            old(self).can_update(old(stats)@),
        ensures
            final(self).algorithm == old(self).algorithm,
            final(self).array@.len() == old(self).array@.len(),
            final(self).array@.to_multiset() == old(self).array@.to_multiset(),
            old(self).state == SortState::Completed ==> final(self)@ == old(self)@,
            old(self).state == SortState::Restarting ==> final(self)@ == fresh_view(
                final(self).array@,
                old(self).algorithm,
            ),
            old(self).state == SortState::Running ==> final(self)@ == after_running_step(
                old(self)@,
                old(self).algorithm,
                final(self).array@,
            ),
            final(stats)@ == stats_after(
                old(stats)@,
                old(self).algorithm,
                old(self).state == SortState::Running && algorithm_step(
                    old(self)@,
                    old(self).algorithm,
                ).state == SortState::Completed,
            ),
            old(self).state == SortState::Restarting || sorter_invariant(old(self)@, old(self).algorithm)
                ==> sorter_invariant(final(self)@, final(self).algorithm),
            old(self).state != SortState::Restarting && old(self).algorithm != SortAlgorithm::Bogo ==> final(self)@
                == updates(old(self)@, old(self).algorithm, 1),
    {
        if self.state == SortState::Completed {
            proof {
                assert(updates(self@, self.algorithm, 1) == self@);
            }
            return;
        }
        if self.state == SortState::Restarting {
            self.reinitialize();
            return;
        }
        let ghost v = self@;
        proof {
            if sorter_invariant(v, self.algorithm) {
                lemma_running_step(v, self.algorithm);
            }
            lemma_step_keeps_array(v, self.algorithm);
        }
        self.dispatch_step(stats);
        self.steps = self.steps + 1;
        proof {
            assert(self@ =~= after_running_step(v, self.algorithm, self.array@));
            if self.algorithm != SortAlgorithm::Bogo {
                reveal_with_fuel(updates, 2);
                assert(after_running_step(v, self.algorithm, self.array@) =~= after_running_step(v, self.algorithm, v.array));
                assert(updates(v, self.algorithm, 1) == after_running_step(v, self.algorithm, v.array));
            }
        }
    }

    /// Reshuffles the array and puts the animation back at its algorithm's start.
    fn reinitialize(&mut self)
        requires
            old(self).algorithm == SortAlgorithm::Quick ==> old(self).array.len() >= 1,
        ensures
            final(self).algorithm == old(self).algorithm,
            final(self).array@.len() == old(self).array@.len(),
            final(self).array@.to_multiset() == old(self).array@.to_multiset(),
            final(self)@ == fresh_view(final(self).array@, old(self).algorithm),
            sorter_invariant(final(self)@, final(self).algorithm),
    {
        let mut rng = thread_rng();
        shuffle_values(&mut self.array, &mut rng);
        self.state = SortState::Running;
        self.steps = 0;
        self.i = 0;
        self.j = 0;
        self.pivot = 0;
        self.comparisons = 0;
        self.accesses = 0;
        self.stack.clear();
        match self.algorithm {
            SortAlgorithm::Quick => {
                let top = self.array.len() - 1;
                self.stack.push((0, top));
            },
            SortAlgorithm::Shell => {
                self.pivot = self.array.len() / 2;
            },
            SortAlgorithm::Insertion => {
                self.i = 1;
            },
            _ => {},
        }
        let len = self.array.len();
        proof {
            assert(self@ =~= fresh_view(self.array@, self.algorithm));
            assert(self.array@.len() == len);
            lemma_fresh_view(self.array@, self.algorithm);
        }
    }

    /// Runs the step of this animation's algorithm.
    fn dispatch_step(&mut self, stats: &mut AlgorithmStats)
        requires
            old(self).state == SortState::Running,
            running_step_in_bounds(old(self)@, old(self).algorithm),
            step_fits(algorithm_step(old(self)@, old(self).algorithm), old(self).algorithm, old(stats)@),
        ensures
            final(self).algorithm == old(self).algorithm,
            final(self).steps == old(self).steps,
            final(self)@ == (SorterView {
                array: final(self)@.array,
                ..algorithm_step(old(self)@, old(self).algorithm)
            }),
            old(self).algorithm != SortAlgorithm::Bogo || algorithm_step(old(self)@, old(self).algorithm).state
                == SortState::Completed ==> final(self).array@ == algorithm_step(old(self)@, old(self).algorithm).array,
            final(self).array@.to_multiset() == old(self).array@.to_multiset(),
            final(self).array@.len() == old(self).array@.len(),
            final(stats)@ == stats_after(
                old(stats)@,
                old(self).algorithm,
                algorithm_step(old(self)@, old(self).algorithm).state == SortState::Completed,
            ),
    {
        proof {
            lemma_step_keeps_array(old(self)@, old(self).algorithm);
        }
        match self.algorithm {
            SortAlgorithm::Bogo => self.update_bogo(stats),
            SortAlgorithm::Bubble => self.update_bubble(stats),
            SortAlgorithm::Quick => self.update_quick(stats),
            SortAlgorithm::Merge => self.update_merge(stats),
            SortAlgorithm::Insertion => self.update_insertion(stats),
            SortAlgorithm::Selection => self.update_selection(stats),
            SortAlgorithm::Heap => self.update_heap(stats),
            SortAlgorithm::Radix => self.update_radix(stats),
            SortAlgorithm::Shell => self.update_shell(stats),
            SortAlgorithm::Cocktail => self.update_cocktail(stats),
        }
    }

    /// Merge sort's step, animated as a bubble pass.
    fn update_merge(&mut self, stats: &mut AlgorithmStats)
        requires
            old(self).state == SortState::Running,
            old(self).array.len() >= 1,
            step_fits(bubble_step(old(self)@), old(self).algorithm, old(stats)@),
        ensures
            final(self)@ == bubble_step(old(self)@),
            final(self).algorithm == old(self).algorithm,
            final(stats)@ == stats_after(
                old(stats)@,
                old(self).algorithm,
                bubble_step(old(self)@).state == SortState::Completed,
            ),
    {
        self.update_bubble(stats);
    }

    /// Heap sort's step, animated as a bubble pass.
    fn update_heap(&mut self, stats: &mut AlgorithmStats)
        requires
            old(self).state == SortState::Running,
            old(self).array.len() >= 1,
            step_fits(bubble_step(old(self)@), old(self).algorithm, old(stats)@),
        ensures
            final(self)@ == bubble_step(old(self)@),
            final(self).algorithm == old(self).algorithm,
            final(stats)@ == stats_after(
                old(stats)@,
                old(self).algorithm,
                bubble_step(old(self)@).state == SortState::Completed,
            ),
    {
        self.update_bubble(stats);
    }

    /// Radix sort's step, animated as a bubble pass.
    fn update_radix(&mut self, stats: &mut AlgorithmStats)
        requires
            old(self).state == SortState::Running,
            old(self).array.len() >= 1,
            step_fits(bubble_step(old(self)@), old(self).algorithm, old(stats)@),
        ensures
            final(self)@ == bubble_step(old(self)@),
            final(self).algorithm == old(self).algorithm,
            final(stats)@ == stats_after(
                old(stats)@,
                old(self).algorithm,
                bubble_step(old(self)@).state == SortState::Completed,
            ),
    {
        self.update_bubble(stats);
    }
}

/// Every algorithm's step keeps the array's length and multiset of values.
proof fn lemma_step_keeps_array(v: SorterView, algorithm: SortAlgorithm)
    requires
        v.state == SortState::Running,
        running_step_in_bounds(v, algorithm),
        v.i >= 0,
        v.j >= 0,
        v.pivot >= 0,
    ensures
        algorithm_step(v, algorithm).array.len() == v.array.len(),
        algorithm_step(v, algorithm).array.to_multiset() == v.array.to_multiset(),
{
    let s = v.array;
    let n = s.len() as int;
    match algorithm {
        SortAlgorithm::Bogo => {},
        SortAlgorithm::Quick => {
            if v.stack.len() > 0 && v.stack.last().0 < v.stack.last().1 {
                lemma_partition_result(s, v.stack.last().0 as int, v.stack.last().1 as int);
            }
        },
        SortAlgorithm::Insertion => {
            if v.i < n {
                lemma_insertion_sink(s, v.i, v.i);
            }
        },
        SortAlgorithm::Selection => {
            if v.i < n - 1 {
                lemma_first_min_index(s, v.i, n);
                lemma_swap_multiset(s, v.i, first_min_index(s, v.i, n));
            }
        },
        SortAlgorithm::Shell => {
            if v.pivot > 0 {
                lemma_shell_prefix(s, v.pivot, n);
            }
        },
        SortAlgorithm::Cocktail => {
            if !(v.i >= n || v.j >= n) {
                if v.pivot == 0 && v.i < n - 1 - v.j {
                    lemma_swap_multiset(s, v.i, v.i + 1);
                }
                if v.pivot != 0 && v.i > v.j {
                    lemma_swap_multiset(s, v.i, v.i - 1);
                }
            }
        },
        _ => {
            if v.i < n - 1 {
                lemma_bubble_pass(s, (n - 1 - v.i) as nat);
            }
        },
    }
}

} // verus!
