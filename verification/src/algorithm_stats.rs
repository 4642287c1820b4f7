use vstd::prelude::*;

verus! {

/// How many sorting algorithms there are.
pub const ALGORITHM_COUNT: usize = 10;

/// The sorting algorithms an animation can run.
#[derive(Debug, PartialEq, Eq, Structural, Clone, Copy, Hash)]
pub enum SortAlgorithm {
    /// Random shuffle until sorted.
    Bogo,
    /// Neighbour exchanges, one pass per step.
    Bubble,
    /// Partitioning around a pivot, one partition per step.
    Quick,
    /// Animated with bubble sort's passes.
    Merge,
    /// Grows a sorted prefix one entry per step.
    Insertion,
    /// Moves the smallest remaining entry forward each step.
    Selection,
    /// Animated with bubble sort's passes.
    Heap,
    /// Animated with bubble sort's passes.
    Radix,
    /// Gapped insertion passes with a halving gap.
    Shell,
    /// Bidirectional bubble sort, one comparison per step.
    Cocktail,
}

impl SortAlgorithm {
    /// The position of the algorithm in declaration order.
    pub open spec fn ordinal(self) -> int {
        match self {
            SortAlgorithm::Bogo => 0,
            SortAlgorithm::Bubble => 1,
            SortAlgorithm::Quick => 2,
            SortAlgorithm::Merge => 3,
            SortAlgorithm::Insertion => 4,
            SortAlgorithm::Selection => 5,
            SortAlgorithm::Heap => 6,
            SortAlgorithm::Radix => 7,
            SortAlgorithm::Shell => 8,
            SortAlgorithm::Cocktail => 9,
        }
    }

    /// The algorithm at a position in declaration order.
    pub open spec fn at_ordinal(i: int) -> SortAlgorithm {
        if i == 0 {
            SortAlgorithm::Bogo
        } else if i == 1 {
            SortAlgorithm::Bubble
        } else if i == 2 {
            SortAlgorithm::Quick
        } else if i == 3 {
            SortAlgorithm::Merge
        } else if i == 4 {
            SortAlgorithm::Insertion
        } else if i == 5 {
            SortAlgorithm::Selection
        } else if i == 6 {
            SortAlgorithm::Heap
        } else if i == 7 {
            SortAlgorithm::Radix
        } else if i == 8 {
            SortAlgorithm::Shell
        } else {
            SortAlgorithm::Cocktail
        }
    }

    /// The display name of the algorithm.
    pub open spec fn display_name(self) -> Seq<char> {
        match self {
            SortAlgorithm::Bogo => "Bogo Sort"@,
            SortAlgorithm::Bubble => "Bubble Sort"@,
            SortAlgorithm::Quick => "Quick Sort"@,
            SortAlgorithm::Merge => "Merge Sort"@,
            SortAlgorithm::Insertion => "Insertion Sort"@,
            SortAlgorithm::Selection => "Selection Sort"@,
            SortAlgorithm::Heap => "Heap Sort"@,
            SortAlgorithm::Radix => "Radix Sort"@,
            SortAlgorithm::Shell => "Shell Sort"@,
            SortAlgorithm::Cocktail => "Cocktail Sort"@,
        }
    }

    /// The position of the algorithm in declaration order.
    pub fn index(&self) -> (i: usize)
        ensures
            i == self.ordinal(),
    {
        match self {
            SortAlgorithm::Bogo => 0,
            SortAlgorithm::Bubble => 1,
            SortAlgorithm::Quick => 2,
            SortAlgorithm::Merge => 3,
            SortAlgorithm::Insertion => 4,
            SortAlgorithm::Selection => 5,
            SortAlgorithm::Heap => 6,
            SortAlgorithm::Radix => 7,
            SortAlgorithm::Shell => 8,
            SortAlgorithm::Cocktail => 9,
        }
    }

    /// The algorithm at a position in declaration order.
    pub fn from_index(i: usize) -> (a: SortAlgorithm)
        requires
            i < ALGORITHM_COUNT,
        ensures
            a.ordinal() == i,
            a == SortAlgorithm::at_ordinal(i as int),
    {
        if i == 0 {
            SortAlgorithm::Bogo
        } else if i == 1 {
            SortAlgorithm::Bubble
        } else if i == 2 {
            SortAlgorithm::Quick
        } else if i == 3 {
            SortAlgorithm::Merge
        } else if i == 4 {
            SortAlgorithm::Insertion
        } else if i == 5 {
            SortAlgorithm::Selection
        } else if i == 6 {
            SortAlgorithm::Heap
        } else if i == 7 {
            SortAlgorithm::Radix
        } else if i == 8 {
            SortAlgorithm::Shell
        } else {
            SortAlgorithm::Cocktail
        }
    }

    /// The human-readable name of the algorithm.
    pub fn name(&self) -> (s: &'static str)
        ensures
            s@ == self.display_name(),
    {
        match self {
            SortAlgorithm::Bogo => "Bogo Sort",
            SortAlgorithm::Bubble => "Bubble Sort",
            SortAlgorithm::Quick => "Quick Sort",
            SortAlgorithm::Merge => "Merge Sort",
            SortAlgorithm::Insertion => "Insertion Sort",
            SortAlgorithm::Selection => "Selection Sort",
            SortAlgorithm::Heap => "Heap Sort",
            SortAlgorithm::Radix => "Radix Sort",
            SortAlgorithm::Shell => "Shell Sort",
            SortAlgorithm::Cocktail => "Cocktail Sort",
        }
    }
}

/// Ordinal and algorithm correspond one to one.
pub proof fn lemma_ordinal_roundtrip(a: SortAlgorithm)
    ensures
        0 <= a.ordinal() < 10,
        SortAlgorithm::at_ordinal(a.ordinal()) == a,
{
}

/// Leaderboard order: more completions first, declaration order among equals.
pub open spec fn ranks_before(x: (SortAlgorithm, u32), y: (SortAlgorithm, u32)) -> bool {
    x.1 > y.1 || (x.1 == y.1 && x.0.ordinal() < y.0.ordinal())
}

/// The algorithms named in a list of entries.
pub open spec fn named(entries: Seq<(SortAlgorithm, u32)>) -> Set<SortAlgorithm> {
    Set::new(|a: SortAlgorithm| exists|k: int| 0 <= k < entries.len() && entries[k].0 == a)
}

/// `a` is not in `taken` and ranks before every other algorithm that is not.
pub open spec fn leads(stats: Map<SortAlgorithm, u32>, taken: Set<SortAlgorithm>, a: SortAlgorithm) -> bool {
    &&& !taken.contains(a)
    &&& forall|b: SortAlgorithm|
        !taken.contains(b) && b != a ==> ranks_before((a, stats[a]), (b, #[trigger] stats[b]))
}

/// The first `k` places of the leaderboard: each place goes to the algorithm that ranks
/// before all the others not yet placed, with its count.
pub open spec fn top_k(stats: Map<SortAlgorithm, u32>, k: nat) -> Seq<(SortAlgorithm, u32)>
    decreases k,
{
    if k == 0 {
        Seq::empty()
    } else {
        let before = top_k(stats, (k - 1) as nat);
        let a = choose|a: SortAlgorithm| leads(stats, named(before), a);
        before.push((a, stats[a]))
    }
}

/// At most one algorithm leads.
pub proof fn lemma_leader_unique(stats: Map<SortAlgorithm, u32>, taken: Set<SortAlgorithm>, a: SortAlgorithm, b: SortAlgorithm)
    requires
        leads(stats, taken, a),
        leads(stats, taken, b),
    ensures
        a == b,
{
    if a != b {
        assert(ranks_before((a, stats[a]), (b, stats[b])));
        assert(ranks_before((b, stats[b]), (a, stats[a])));
    }
}

/// Per-algorithm completion counts.
///
/// Every algorithm has a count from the start, so the record is a total map over the
/// ten algorithms; it is held as an array indexed by each algorithm's position in the
/// declaration. The array gives that map exactly, with no key ever missing, and lets
/// the leaderboard walk the algorithms in a fixed order, so equal counts are ranked by
/// declaration order rather than by the order in which a hash map happens to be walked.
pub struct AlgorithmStats {
    counts: [u32; 10],
}

impl View for AlgorithmStats {
    type V = Map<SortAlgorithm, u32>;

    closed spec fn view(&self) -> Map<SortAlgorithm, u32> {
        Map::total(|a: SortAlgorithm| self.counts@[a.ordinal()])
    }
}

impl AlgorithmStats {
    /// The counts of an empty record, every algorithm at zero.
    pub fn new() -> (stats: AlgorithmStats)
        ensures
            forall|a: SortAlgorithm| #[trigger] stats@[a] == 0,
            stats@.dom() == Set::<SortAlgorithm>::full(),
    {
        let stats = AlgorithmStats { counts: [0u32; 10] };
        assert forall|a: SortAlgorithm| #[trigger] stats@[a] == 0 by {
            lemma_ordinal_roundtrip(a);
        }
        assert(stats@.dom() =~= Set::<SortAlgorithm>::full());
        stats
    }

    /// How many times `algorithm` has completed.
    pub fn count(&self, algorithm: SortAlgorithm) -> (c: u32)
        ensures
            c == self@[algorithm],
    {
        proof {
            lemma_ordinal_roundtrip(algorithm);
        }
        self.counts[algorithm.index()]
    }

    /// Counts one more completion of `algorithm`.
    pub fn record_completion(&mut self, algorithm: SortAlgorithm)
        requires
            old(self)@[algorithm] < u32::MAX,
        ensures
            final(self)@ == old(self)@.insert(algorithm, (old(self)@[algorithm] + 1) as u32),
    {
        proof {
            lemma_ordinal_roundtrip(algorithm);
        }
        let idx = algorithm.index();
        let c = self.counts[idx];
        let ghost before = self@;
        self.counts[idx] = c + 1;
        proof {
            assert forall|a: SortAlgorithm| #[trigger] self@[a] == before.insert(
                algorithm,
                (before[algorithm] + 1) as u32,
            )[a] by {
                lemma_ordinal_roundtrip(a);
                if a.ordinal() == algorithm.ordinal() {
                    assert(a == algorithm);
                }
            }
            assert(self@ =~= before.insert(algorithm, (before[algorithm] + 1) as u32));
        }
    }

    /// The algorithm with the most completions, with that count. Among equal counts
    /// the first in declaration order wins; with no completions at all the answer is
    /// bubble sort with zero.
    pub fn leading_algorithm(&self) -> (leader: (SortAlgorithm, u32))
        ensures
            forall|a: SortAlgorithm| #[trigger] self@[a] <= leader.1,
            leader.1 == 0 ==> leader.0 == SortAlgorithm::Bubble,
            leader.1 > 0 ==> self@[leader.0] == leader.1,
            leader.1 > 0 ==> forall|a: SortAlgorithm|
                a.ordinal() < leader.0.ordinal() ==> #[trigger] self@[a] < leader.1,
    {
        let mut leader = (SortAlgorithm::Bubble, 0u32);
        let mut k: usize = 0;
        while k < ALGORITHM_COUNT
            invariant
                k <= ALGORITHM_COUNT,
                forall|q: int| 0 <= q < k ==> self.counts@[q] <= leader.1,
                leader.1 == 0 ==> leader.0 == SortAlgorithm::Bubble,
                leader.1 > 0 ==> leader.0.ordinal() < k && self.counts@[leader.0.ordinal()]
                    == leader.1,
                leader.1 > 0 ==> forall|q: int| 0 <= q < leader.0.ordinal() ==> self.counts@[q] < leader.1,
            decreases ALGORITHM_COUNT - k,
        {
            let c = self.counts[k];
            if c > leader.1 {
                leader = (SortAlgorithm::from_index(k), c);
            }
            k = k + 1;
        }
        proof {
            assert forall|a: SortAlgorithm| #[trigger] self@[a] <= leader.1 by {
                lemma_ordinal_roundtrip(a);
            }
            assert forall|a: SortAlgorithm|
                leader.1 > 0 && a.ordinal() < leader.0.ordinal() implies #[trigger] self@[a] < leader.1 by {
                lemma_ordinal_roundtrip(a);
            }
        }
        leader
    }

    /// The four algorithms with the most completions, best first, with their counts;
    /// among equal counts, declaration order decides.
    pub fn leaderboard(&self) -> (top: Vec<(SortAlgorithm, u32)>)
        ensures
            top@ == top_k(self@, 4),
            top.len() == 4,
            forall|k: int| 0 <= k < 4 ==> #[trigger] top@[k].1 == self@[top@[k].0],
            forall|k1: int, k2: int|
                0 <= k1 < k2 < 4 ==> ranks_before(#[trigger] top@[k1], #[trigger] top@[k2]),
            forall|a: SortAlgorithm|
                (forall|k: int| 0 <= k < 4 ==> #[trigger] top@[k].0 != a) ==> ranks_before(
                    top@[3],
                    (a, #[trigger] self@[a]),
                ),
    {
        let mut top: Vec<(SortAlgorithm, u32)> = Vec::new();
        let mut taken = [false; 10];
        let mut round: usize = 0;
        while round < 4
            invariant
                round <= 4,
                top.len() == round,
                top@ == top_k(self@, round as nat),
                forall|k: int| 0 <= k < round ==> (#[trigger] top@[k]).1 == self.counts@[top@[k].0.ordinal()],
                forall|k1: int, k2: int|
                    0 <= k1 < k2 < round ==> ranks_before(#[trigger] top@[k1], #[trigger] top@[k2]),
                forall|q: int| 0 <= q < 10 ==> (#[trigger] taken@[q] <==> exists|k: int|
                    0 <= k < round && top@[k].0.ordinal() == q),
                forall|k: int, q: int|
                    0 <= k < round && 0 <= q < 10 && !#[trigger] taken@[q] ==> ranks_before(
                        #[trigger] top@[k],
                        (SortAlgorithm::at_ordinal(q), self.counts@[q]),
                    ),
            decreases 4 - round,
        {
            let mut best: usize = 10;
            let mut q: usize = 0;
            while q < ALGORITHM_COUNT
                invariant
                    q <= ALGORITHM_COUNT,
                    best == 10 || (best < q && !taken@[best as int]),
                    best == 10 ==> forall|r: int| 0 <= r < q ==> taken@[r],
                    best < 10 ==> forall|r: int|
                        0 <= r < q && r != best && !#[trigger] taken@[r] ==> ranks_before(
                            (SortAlgorithm::at_ordinal(best as int), self.counts@[best as int]),
                            (SortAlgorithm::at_ordinal(r), self.counts@[r]),
                        ),
                decreases ALGORITHM_COUNT - q,
            {
                if !taken[q] && (best == 10 || self.counts[q] > self.counts[best]) {
                    best = q;
                }
                q = q + 1;
            }
            proof {
                if best == 10 {
                    // fewer than ten taken after fewer than four rounds
                    let ords = Seq::new(round as nat, |k: int| top@[k].0.ordinal());
                    assert forall|r: int| 0 <= r < 10 implies #[trigger] names(ords, r) by {
                        assert(taken@[r]);
                        let k = choose|k: int| 0 <= k < round && top@[k].0.ordinal() == r;
                        assert(ords[k] == r);
                    }
                    lemma_few_cover(ords, round as int);
                }
            }
            let entry = (SortAlgorithm::from_index(best), self.counts[best]);
            proof {
                assert forall|k: int| 0 <= k < round implies ranks_before(#[trigger] top@[k], entry) by {
                    assert(!taken@[best as int]);
                }
            }
            proof {
                let a = entry.0;
                lemma_ordinal_roundtrip(a);
                assert(!named(top@).contains(a)) by {
                    if named(top@).contains(a) {
                        let k = choose|k: int| 0 <= k < top@.len() && top@[k].0 == a;
                        assert(top@[k].0.ordinal() == best);
                    }
                }
                assert forall|b: SortAlgorithm|
                    !named(top@).contains(b) && b != a implies ranks_before(
                        (a, self@[a]),
                        (b, #[trigger] self@[b]),
                    ) by {
                    lemma_ordinal_roundtrip(b);
                    let r = b.ordinal();
                    if taken@[r] {
                        let k = choose|k: int| 0 <= k < round && top@[k].0.ordinal() == r;
                        lemma_ordinal_roundtrip(top@[k].0);
                        assert(named(top@).contains(b));
                    }
                }
                assert(leads(self@, named(top@), a));
                let chosen = choose|c: SortAlgorithm| leads(self@, named(top_k(self@, round as nat)), c);
                lemma_leader_unique(self@, named(top@), a, chosen);
                assert(self@[a] == entry.1);
            }
            let ghost old_top = top@;
            let ghost old_taken = taken@;
            top.push(entry);
            taken[best] = true;
            proof {
                assert forall|q: int| 0 <= q < 10 implies (#[trigger] taken@[q] <==> exists|k: int|
                    0 <= k < round + 1 && top@[k].0.ordinal() == q) by {
                    if q == best {
                        assert(top@[round as int].0.ordinal() == q);
                    } else {
                        assert(taken@[q] == old_taken[q]);
                        if old_taken[q] {
                            let k = choose|k: int| 0 <= k < round && old_top[k].0.ordinal() == q;
                            assert(top@[k] == old_top[k]);
                        }
                        if exists|k: int| 0 <= k < round + 1 && top@[k].0.ordinal() == q {
                            let k = choose|k: int| 0 <= k < round + 1 && top@[k].0.ordinal() == q;
                            assert(k < round);
                            assert(old_top[k] == top@[k]);
                        }
                    }
                }
            }
            round = round + 1;
        }
        proof {
            assert forall|k: int| 0 <= k < 4 implies #[trigger] top@[k].1 == self@[top@[k].0] by {
                lemma_ordinal_roundtrip(top@[k].0);
            }
            assert forall|a: SortAlgorithm|
                (forall|k: int| 0 <= k < 4 ==> #[trigger] top@[k].0 != a) implies ranks_before(
                    top@[3],
                    (a, #[trigger] self@[a]),
                ) by {
                lemma_ordinal_roundtrip(a);
                let q = a.ordinal();
                if taken@[q] {
                    let k = choose|k: int| 0 <= k < 4 && top@[k].0.ordinal() == q;
                    lemma_ordinal_roundtrip(top@[k].0);
                }
            }
        }
        top
    }
}

/// Some entry of `ords` is `r`.
spec fn names(ords: Seq<int>, r: int) -> bool {
    exists|k: int| 0 <= k < ords.len() && ords[k] == r
}

/// A list that names every ordinal below ten has at least ten entries.
proof fn lemma_few_cover(ords: Seq<int>, len: int)
    requires
        ords.len() == len,
        forall|r: int| 0 <= r < 10 ==> #[trigger] names(ords, r),
    ensures
        len >= 10,
{
    let covered = Set::new(|r: int| 0 <= r < 10);
    let image = ords.to_set();
    assert(covered.subset_of(image)) by {
        assert forall|r: int| covered.contains(r) implies image.contains(r) by {
            assert(names(ords, r));
            let k = choose|k: int| 0 <= k < ords.len() && ords[k] == r;
            assert(ords.contains(r));
        }
    }
    ords.lemma_cardinality_of_set();
    vstd::set_lib::lemma_int_range(0, 10);
    assert(covered =~= vstd::set_lib::set_int_range(0, 10));
    vstd::set_lib::lemma_len_subset(covered, image);
}

} // verus!
