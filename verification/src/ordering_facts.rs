use vstd::prelude::*;

verus! {

/// `s` is non-decreasing on the index range `[lo, hi)`.
pub open spec fn sorted_between(s: Seq<u8>, lo: int, hi: int) -> bool {
    forall|p: int, q: int| lo <= p <= q < hi ==> s[p] <= s[q]
}

/// `s` is non-decreasing.
pub open spec fn is_sorted(s: Seq<u8>) -> bool {
    sorted_between(s, 0, s.len() as int)
}

/// Every neighbouring pair in `[lo, hi)` is in order.
pub open spec fn adjacent_sorted(s: Seq<u8>, lo: int, hi: int) -> bool {
    forall|p: int| lo <= p && p + 1 < hi ==> #[trigger] s[p] <= s[p + 1]
}

/// `s` with the entries at `a` and `b` exchanged.
pub open spec fn swap_at(s: Seq<u8>, a: int, b: int) -> Seq<u8> {
    s.update(a, s[b]).update(b, s[a])
}

/// Every entry of `s` in `[lo, hi)` is at most `x`.
pub open spec fn all_at_most(s: Seq<u8>, lo: int, hi: int, x: u8) -> bool {
    forall|p: int| lo <= p < hi ==> #[trigger] s[p] <= x
}

/// Every entry of `s` in `[lo, hi)` is at least `x`.
pub open spec fn all_at_least(s: Seq<u8>, lo: int, hi: int, x: u8) -> bool {
    forall|p: int| lo <= p < hi ==> #[trigger] s[p] >= x
}

/// Neighbouring order on a range gives full order on it.
pub proof fn lemma_adjacent_sorted_is_sorted(s: Seq<u8>, lo: int, hi: int)
    requires
        adjacent_sorted(s, lo, hi),
    ensures
        sorted_between(s, lo, hi),
    decreases hi - lo,
{
    if hi - lo > 1 {
        lemma_adjacent_sorted_is_sorted(s, lo, hi - 1);
        assert forall|p: int, q: int| lo <= p <= q < hi implies s[p] <= s[q] by {
            if q == hi - 1 && p < q {
                assert(s[q - 1] <= s[q]);
            }
        }
    }
}

/// Two sorted neighbouring ranges, the first bounded by the second, form one sorted range.
pub proof fn lemma_sorted_concat(s: Seq<u8>, lo: int, mid: int, hi: int)
    requires
        lo <= mid <= hi,
        sorted_between(s, lo, mid),
        sorted_between(s, mid, hi),
        forall|p: int, q: int| lo <= p < mid <= q < hi ==> s[p] <= s[q],
    ensures
        sorted_between(s, lo, hi),
{
}

/// Exchanging two entries keeps length and multiset.
pub proof fn lemma_swap_multiset(s: Seq<u8>, a: int, b: int)
    requires
        0 <= a < s.len(),
        0 <= b < s.len(),
    ensures
        swap_at(s, a, b).len() == s.len(),
        swap_at(s, a, b).to_multiset() == s.to_multiset(),
{
    broadcast use vstd::seq_lib::group_to_multiset_ensures;
    let t = s.update(a, s[b]);
    assert(t =~= s.remove(a).insert(a, s[b]));
    vstd::seq_lib::to_multiset_remove(s, a);
    vstd::seq_lib::to_multiset_insert(s.remove(a), a, s[b]);
    let u = t.update(b, s[a]);
    assert(u =~= t.remove(b).insert(b, s[a]));
    vstd::seq_lib::to_multiset_remove(t, b);
    vstd::seq_lib::to_multiset_insert(t.remove(b), b, s[a]);
    if a == b {
        assert(swap_at(s, a, b) =~= s);
    } else {
        assert(t[b] == s[b]);
        assert(swap_at(s, a, b).to_multiset() =~= s.to_multiset());
    }
}

/// An exchange inside `[lo, hi)` keeps every upper and lower bound of that range.
pub proof fn lemma_swap_keeps_bounds(s: Seq<u8>, a: int, b: int, lo: int, hi: int)
    requires
        lo <= a < hi,
        lo <= b < hi,
        0 <= lo,
        hi <= s.len(),
    ensures
        forall|x: u8| all_at_most(s, lo, hi, x) ==> all_at_most(swap_at(s, a, b), lo, hi, x),
        forall|x: u8| all_at_least(s, lo, hi, x) ==> all_at_least(swap_at(s, a, b), lo, hi, x),
        forall|p: int| 0 <= p < s.len() && !(lo <= p < hi) ==> swap_at(s, a, b)[p] == s[p],
{
    let t = swap_at(s, a, b);
    assert forall|x: u8| all_at_most(s, lo, hi, x) implies all_at_most(t, lo, hi, x) by {
        assert forall|p: int| lo <= p < hi implies #[trigger] t[p] <= x by {
            assert(s[a] <= x && s[b] <= x && s[p] <= x);
        }
    }
    assert forall|x: u8| all_at_least(s, lo, hi, x) implies all_at_least(t, lo, hi, x) by {
        assert forall|p: int| lo <= p < hi implies #[trigger] t[p] >= x by {
            assert(s[a] >= x && s[b] >= x && s[p] >= x);
        }
    }
}

} // verus!
