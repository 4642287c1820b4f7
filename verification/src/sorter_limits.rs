use vstd::prelude::*;
use crate::algorithm_stats::{AlgorithmStats, SortAlgorithm};
use crate::ordering_facts::swap_at;
use crate::sort_steps::{bubble_swaps, gap_sink_moves, insertion_sink_comparisons, insertion_sink_swaps, partition_scan, shell_prefix, shell_prefix_moves};
use crate::sorter::{algorithm_step, bogo_checks, bogo_step, bubble_step, cocktail_step, insertion_step, quick_step, selection_step, shell_step, first_descent_from, running_step_in_bounds, SortState, SortVisualizer, SorterView};

verus! {

/// A bubble pass over `k` pairs exchanges at most `k` of them.
proof fn lemma_bubble_swaps_bound(s: Seq<u8>, k: nat)
    ensures
        bubble_swaps(s, k) <= k,
    decreases k,
{
    if k > 0 {
        lemma_bubble_swaps_bound(s, (k - 1) as nat);
    }
}

/// Sinking entry `j` compares and exchanges at most `j` times.
proof fn lemma_insertion_bounds(s: Seq<u8>, j: int)
    ensures
        insertion_sink_comparisons(s, j) <= if j > 0 { j } else { 0 },
        insertion_sink_swaps(s, j) <= if j > 0 { j } else { 0 },
    decreases j,
{
    if j > 0 && s[j - 1] > s[j] {
        lemma_insertion_bounds(swap_at(s, j - 1, j), j - 1);
    }
}

/// A gapped sink of entry `j` moves at most `j` entries.
proof fn lemma_gap_sink_bound(s: Seq<u8>, j: int, g: int)
    ensures
        gap_sink_moves(s, j, g) <= if j > 0 { j } else { 0 },
    decreases j,
{
    if g > 0 && j >= g && s[j - g] > s[j] {
        lemma_gap_sink_bound(swap_at(s, j - g, j), j - g, g);
    }
}

/// A gapped insertion pass over the first `i` entries moves at most `i * i` entries.
proof fn lemma_shell_moves_bound(s: Seq<u8>, g: int, i: int)
    requires
        i >= 0,
    ensures
        shell_prefix_moves(s, g, i) <= i * i,
    decreases i,
{
    if !(i <= g || i <= 0) {
        lemma_shell_moves_bound(s, g, i - 1);
        lemma_gap_sink_bound(shell_prefix(s, g, i - 1), i - 1, g);
        assert((i - 1) * (i - 1) + (i - 1) <= i * i) by (nonlinear_arith)
            requires
                i >= 1,
        ;
    }
}

/// A partition scan up to `j` exchanges at most `j - low` entries.
proof fn lemma_partition_bound(s: Seq<u8>, low: int, j: int, pv: u8)
    ensures
        partition_scan(s, low, j, pv).2 <= if j > low { j - low } else { 0 },
    decreases j - low,
{
    if j > low {
        lemma_partition_bound(s, low, j - 1, pv);
    }
}

/// Bogo sort reads at most one pair per entry.
proof fn lemma_bogo_bound(s: Seq<u8>)
    ensures
        0 <= bogo_checks(s) <= s.len(),
{
    if s.len() > 1 {
        lemma_descent_bound(s, 1);
    }
}

/// The first descent lies between its starting point and the length.
proof fn lemma_descent_bound(s: Seq<u8>, from: int)
    requires
        from >= 1,
    ensures
        from <= first_descent_from(s, from) || first_descent_from(s, from) == s.len(),
        first_descent_from(s, from) <= s.len() || from > s.len(),
    decreases s.len() - from,
{
    if from < s.len() && !(s[from - 1] > s[from]) {
        lemma_descent_bound(s, from + 1);
    }
}

/// The most that one step adds to the access counter of an animation of `n` entries.
pub open spec fn access_budget(n: int) -> int {
    2 * n * n + 6 * n + 6
}

/// One step adds at most `n` comparisons and `access_budget(n)` accesses.
proof fn lemma_step_growth(sv: &SortVisualizer)
    requires
        sv.state == SortState::Running,
        running_step_in_bounds(sv@, sv.algorithm),
    ensures
        ({
            let next = algorithm_step(sv@, sv.algorithm);
            let n = sv.array@.len() as int;
            &&& next.comparisons <= sv.comparisons + n
            &&& next.accesses <= sv.accesses + access_budget(n)
        }),
{
    let v = sv@;
    let n = v.array.len() as int;
    assert(0 <= 2 * n * n && 2 * n * n == 2 * (n * n)) by (nonlinear_arith)
        requires
            n >= 0,
    ;
    match sv.algorithm {
        SortAlgorithm::Bogo => {
            lemma_bogo_bound(v.array);

        },
        SortAlgorithm::Quick => {
            if v.stack.len() > 0 {
                let (low, high) = v.stack.last();
                if low < high {
                    lemma_partition_bound(v.array, low as int, high as int, v.array[high as int]);
                }
            }
        },
        SortAlgorithm::Insertion => {
            if v.i < n {
                lemma_insertion_bounds(v.array, v.i);
            }
        },
        SortAlgorithm::Shell => {
            if v.pivot != 0 {
                lemma_shell_moves_bound(v.array, v.pivot, n);
            }
        },
        SortAlgorithm::Selection => {},
        SortAlgorithm::Cocktail => {},
        _ => {
            if v.i < n - 1 {
                lemma_bubble_swaps_bound(v.array, (n - 1 - v.i) as nat);
            }
        },
    }
}

/// The answer of `update_fits`: whether `update` may run, as `can_update` says, where a
/// running animation is also asked to have fewer entries than make `access_budget`
/// exceed `usize::MAX` (over three thousand million on a 64-bit machine).
pub open spec fn update_checked(sv: SortVisualizer, stats: Map<SortAlgorithm, u32>) -> bool {
    &&& sv.can_update(stats)
    &&& (sv.state == SortState::Running ==> access_budget(sv.array@.len() as int) <= usize::MAX)
}

/// `v` with its step, comparison and access counters at zero.
pub open spec fn uncounted(v: SorterView) -> SorterView {
    SorterView { steps: 0, comparisons: 0, accesses: 0, ..v }
}

/// A step adds to the counters what it adds from zero, and ends in the same state.
proof fn lemma_step_counts_add(v: SorterView, algorithm: SortAlgorithm)
    ensures
        algorithm_step(v, algorithm).state == algorithm_step(uncounted(v), algorithm).state,
        algorithm_step(v, algorithm).comparisons == v.comparisons + algorithm_step(uncounted(v), algorithm).comparisons,
        algorithm_step(v, algorithm).accesses == v.accesses + algorithm_step(uncounted(v), algorithm).accesses,
{
    let z = uncounted(v);
    assert(z.array == v.array && z.i == v.i && z.j == v.j && z.pivot == v.pivot && z.stack == v.stack && z.state == v.state);
    match algorithm {
        SortAlgorithm::Bogo => {
            assert(algorithm_step(v, algorithm) == bogo_step(v));
            assert(algorithm_step(z, algorithm) == bogo_step(z));
        },
        SortAlgorithm::Quick => {
            assert(algorithm_step(v, algorithm) == quick_step(v));
            assert(algorithm_step(z, algorithm) == quick_step(z));
        },
        SortAlgorithm::Insertion => {
            assert(algorithm_step(v, algorithm) == insertion_step(v));
            assert(algorithm_step(z, algorithm) == insertion_step(z));
        },
        SortAlgorithm::Selection => {
            assert(algorithm_step(v, algorithm) == selection_step(v));
            assert(algorithm_step(z, algorithm) == selection_step(z));
        },
        SortAlgorithm::Shell => {
            assert(algorithm_step(v, algorithm) == shell_step(v));
            assert(algorithm_step(z, algorithm) == shell_step(z));
        },
        SortAlgorithm::Cocktail => {
            assert(algorithm_step(v, algorithm) == cocktail_step(v));
            assert(algorithm_step(z, algorithm) == cocktail_step(z));
        },
        _ => {
            assert(algorithm_step(v, algorithm) == bubble_step(v));
            assert(algorithm_step(z, algorithm) == bubble_step(z));
        },
    }
}

/// A copy of the values.
fn copy_values(a: &Vec<u8>) -> (c: Vec<u8>)
    ensures
        c@ == a@,
{
    let mut c: Vec<u8> = Vec::new();
    let mut k: usize = 0;
    while k < a.len()
        invariant
            k <= a.len(),
            c@ == a@.subrange(0, k as int),
        decreases a.len() - k,
    {
        c.push(a[k]);
        k = k + 1;
        assert(c@ =~= a@.subrange(0, k as int));
    }
    assert(c@ =~= a@);
    c
}

/// A copy of the ranges.
fn copy_ranges(a: &Vec<(usize, usize)>) -> (c: Vec<(usize, usize)>)
    ensures
        c@ == a@,
{
    let mut c: Vec<(usize, usize)> = Vec::new();
    let mut k: usize = 0;
    while k < a.len()
        invariant
            k <= a.len(),
            c@ == a@.subrange(0, k as int),
        decreases a.len() - k,
    {
        c.push(a[k]);
        k = k + 1;
        assert(c@ =~= a@.subrange(0, k as int));
    }
    assert(c@ =~= a@);
    c
}

impl SortVisualizer {
    /// Whether the next step of a running animation stays in bounds.
    fn step_in_bounds(&self) -> (ok: bool)
        ensures
            ok == running_step_in_bounds(self@, self.algorithm),
    {
        let n = self.array.len();
        match self.algorithm {
            SortAlgorithm::Bubble | SortAlgorithm::Merge | SortAlgorithm::Heap | SortAlgorithm::Radix
            | SortAlgorithm::Selection => n >= 1,
            SortAlgorithm::Quick => {
                if self.stack.len() > 0 {
                    let (low, high) = self.stack[self.stack.len() - 1];
                    low >= high || high < n
                } else {
                    true
                }
            },
            _ => true,
        }
    }

    /// Whether `update` may run now: the step stays in bounds and every counter has
    /// room for what the step adds to it. The step is taken on a copy with counters at
    /// zero to learn what it adds.
    #[verifier::spinoff_prover]
    #[verifier::rlimit(60)]
    pub fn update_fits(&self, stats: &AlgorithmStats) -> (ok: bool)
        ensures
            ok == update_checked(*self, stats@),
            ok ==> self.can_update(stats@),
    {
        match self.state {
            SortState::Completed => true,
            SortState::Restarting => !(self.algorithm == SortAlgorithm::Quick) || self.array.len() >= 1,
            SortState::Running => {
                let n = self.array.len();
                if !self.step_in_bounds() || self.steps == usize::MAX {
                    return false;
                }
                if n > 0xFFFF_FFFF {
                    assert(2 * n * n >= 2 * 0x1_0000_0000 * 0x1_0000_0000) by (nonlinear_arith)
                        requires
                            n >= 0x1_0000_0000,
                    ;
                    return false;
                }
                let wide = n as u128;
                assert(2 * wide * wide <= 2 * 0xFFFF_FFFF * 0xFFFF_FFFF) by (nonlinear_arith)
                    requires
                        wide <= 0xFFFF_FFFF,
                ;
                let budget: u128 = 2 * wide * wide + 6 * wide + 6;
                if budget > usize::MAX as u128 {
                    return false;
                }
                let mut probe = SortVisualizer {
                    array: copy_values(&self.array),
                    steps: 0,
                    algorithm: self.algorithm,
                    state: SortState::Running,
                    i: self.i,
                    j: self.j,
                    pivot: self.pivot,
                    stack: copy_ranges(&self.stack),
                    comparisons: 0,
                    accesses: 0,
                };
                let mut scratch = AlgorithmStats::new();
                proof {
                    assert(probe@ == uncounted(self@));
                    lemma_step_growth(&probe);
                    lemma_step_counts_add(self@, self.algorithm);
                }
                probe.update(&mut scratch);
                let completes = probe.state == SortState::Completed;
                self.comparisons <= usize::MAX - probe.comparisons && self.accesses <= usize::MAX - probe.accesses
                    && (!completes || stats.count(self.algorithm) < u32::MAX)
            },
        }
    }
}

} // verus!
