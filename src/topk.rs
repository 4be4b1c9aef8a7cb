//! Exact bounded top-k selection over a scan of scored entries.
use vstd::prelude::*;
use crate::score::{ScoredIndex, score_rank, at_or_above, rank_of, is_at_or_above};

verus! {

/// Whether the entry at position `i` takes part in a search: the caller
/// admits it, and its score is at or above the floor when there is one.
pub open spec fn eligible(scores: Seq<u32>, admitted: Seq<bool>, floor: Option<u32>, i: int) -> bool {
    &&& admitted[i]
    &&& match floor {
        Some(f) => at_or_above(scores[i], f),
        None => true,
    }
}

/// The number of eligible entries among the first `n`.
pub open spec fn count_eligible(scores: Seq<u32>, admitted: Seq<bool>, floor: Option<u32>, n: int) -> nat
    decreases n,
{
    if n <= 0 {
        0
    } else {
        count_eligible(scores, admitted, floor, n - 1) + if eligible(scores, admitted, floor, n - 1) {
            1nat
        } else {
            0nat
        }
    }
}

/// Whether some candidate of `sel` is the entry at position `i`.
pub open spec fn selected(sel: Seq<ScoredIndex>, i: int) -> bool {
    exists|a: int| 0 <= a < sel.len() && sel[a].index == i
}

/// The smaller of two naturals.
pub open spec fn min_nat(a: nat, b: nat) -> nat {
    if a <= b {
        a
    } else {
        b
    }
}

/// `sel` is a best-first selection of the `k` highest-ranked eligible entries
/// among the first `n` (all of them when fewer are eligible); among equal
/// scores any choice is allowed.
pub open spec fn is_top_k(
    sel: Seq<ScoredIndex>,
    scores: Seq<u32>,
    admitted: Seq<bool>,
    floor: Option<u32>,
    k: nat,
    n: int,
) -> bool {
    &&& sel.len() == min_nat(k, count_eligible(scores, admitted, floor, n))
    &&& forall|a: int|
        0 <= a < sel.len() ==> {
            &&& 0 <= #[trigger] sel[a].index < n
            &&& eligible(scores, admitted, floor, sel[a].index as int)
            &&& sel[a].score == scores[sel[a].index as int]
        }
    &&& forall|a: int, b: int| 0 <= a < b < sel.len() ==> sel[a].index != sel[b].index
    &&& forall|a: int, b: int|
        0 <= a < b < sel.len() ==> score_rank(#[trigger] sel[a].score) >= score_rank(
            #[trigger] sel[b].score,
        )
    &&& forall|i: int|
        0 <= i < n && eligible(scores, admitted, floor, i) && !selected(sel, i) ==> {
            &&& sel.len() == k
            &&& sel.len() > 0 ==> score_rank(scores[i]) <= score_rank(sel[sel.len() - 1].score)
        }
}

/// With every entry admitted and no floor, every entry is eligible.
pub proof fn lemma_all_eligible(scores: Seq<u32>, n: int)
    requires
        0 <= n <= scores.len(),
    ensures
        count_eligible(scores, Seq::new(scores.len(), |i: int| true), None, n) == n,
    decreases n,
{
    if n > 0 {
        lemma_all_eligible(scores, n - 1);
    }
}

/// A search over `m` entries with nothing filtered out returns exactly
/// `min(k, m)` of them, best first, and the first has the highest score of
/// all entries.
pub proof fn lemma_bounded_top_k(sel: Seq<ScoredIndex>, scores: Seq<u32>, k: nat)
    requires
        is_top_k(sel, scores, Seq::new(scores.len(), |i: int| true), None, k, scores.len() as int),
    ensures
        sel.len() == min_nat(k, scores.len()),
        forall|a: int, b: int|
            0 <= a < b < sel.len() ==> score_rank(#[trigger] sel[a].score) >= score_rank(
                #[trigger] sel[b].score,
            ),
        sel.len() > 0 ==> forall|i: int|
            0 <= i < scores.len() ==> score_rank(#[trigger] scores[i]) <= score_rank(sel[0].score),
{
    lemma_all_eligible(scores, scores.len() as int);
    if sel.len() > 0 {
        assert forall|i: int| 0 <= i < scores.len() implies score_rank(#[trigger] scores[i])
            <= score_rank(sel[0].score) by {
            if selected(sel, i) {
                let a = choose|a: int| 0 <= a < sel.len() && sel[a].index == i;
                if a > 0 {
                    assert(score_rank(sel[0].score) >= score_rank(sel[a].score));
                }
            } else {
                let last = sel.len() - 1;
                if last > 0 {
                    assert(score_rank(sel[0].score) >= score_rank(sel[last].score));
                }
            }
        }
    }
}

/// Keeps the `k` best eligible entries of a scan, best first.
///
/// `scores[i]` is the score of the entry at position `i` and `admitted[i]`
/// says whether the caller lets it be returned; an entry with a score below
/// `floor` is skipped. The candidates are kept in a bounded buffer ordered
/// best first: each new one goes in after those ranked at least as high, and
/// once the buffer holds more than `k` the lowest-ranked one is evicted. A NaN
/// score ranks below every real one, so it is evicted first.
pub fn top_k(scores: &Vec<u32>, admitted: &Vec<bool>, floor: Option<u32>, k: usize) -> (sel: Vec<ScoredIndex>)
    requires
        admitted.len() == scores.len(),
    ensures
        is_top_k(sel@, scores@, admitted@, floor, k as nat, scores.len() as int),
{
    let mut best: Vec<ScoredIndex> = Vec::new();
    let mut i: usize = 0;
    while i < scores.len()
        invariant
            admitted.len() == scores.len(),
            0 <= i <= scores.len(),
            best.len() <= k,
            is_top_k(best@, scores@, admitted@, floor, k as nat, i as int),
        decreases scores.len() - i,
    {
        let take = admitted[i] && match floor {
            Some(f) => is_at_or_above(scores[i], f),
            None => true,
        };
        let ghost old_best = best@;
        assert(count_eligible(scores@, admitted@, floor, i + 1) == count_eligible(
            scores@,
            admitted@,
            floor,
            i as int,
        ) + if take {
            1nat
        } else {
            0nat
        });
        if take && k > 0 {
            let cand = ScoredIndex { score: scores[i], index: i };
            let r = rank_of(scores[i]);
            let mut p: usize = 0;
            while p < best.len() && rank_of(best[p].score) >= r
                invariant
                    0 <= p <= best.len(),
                    best@ == old_best,
                    r == score_rank(cand.score),
                    forall|q: int| 0 <= q < p ==> score_rank(#[trigger] best@[q].score) >= r,
                decreases best.len() - p,
            {
                p = p + 1;
            }
            proof {
                if p < best.len() {
                    assert forall|q: int| p <= q < best.len() implies score_rank(
                        #[trigger] best@[q].score,
                    ) < r by {
                        if q > p {
                            assert(score_rank(best@[p as int].score) >= score_rank(best@[q].score));
                        }
                    }
                }
            }
            best.insert(p, cand);
            let ghost ins = best@;
            assert(ins == old_best.insert(p as int, cand));
            assert forall|a: int| 0 <= a < ins.len() implies (a < p ==> ins[a] == old_best[a]) && (
            a == p ==> ins[a] == cand) && (a > p ==> ins[a] == old_best[a - 1]) by {}
            assert forall|a: int, b: int| 0 <= a < b < ins.len() implies score_rank(
                #[trigger] ins[a].score,
            ) >= score_rank(#[trigger] ins[b].score) by {
                if b < p {
                } else if b == p {
                } else if a < p {
                } else if a == p {
                } else {
                    assert(score_rank(old_best[a - 1].score) >= score_rank(old_best[b - 1].score));
                }
            }
            assert forall|a: int| 0 <= a < ins.len() implies {
                &&& 0 <= #[trigger] ins[a].index < i + 1
                &&& eligible(scores@, admitted@, floor, ins[a].index as int)
                &&& ins[a].score == scores@[ins[a].index as int]
            } by {
                if a < p {
                    assert(old_best[a] == ins[a]);
                } else if a > p {
                    assert(old_best[a - 1] == ins[a]);
                }
            }
            assert forall|a: int, b: int| 0 <= a < b < ins.len() implies ins[a].index
                != ins[b].index by {
                if a == p {
                    assert(ins[b].index < i);
                } else if b == p {
                    assert(ins[a].index < i);
                } else {
                    let aa = if a < p { a } else { a - 1 };
                    let bb = if b < p { b } else { b - 1 };
                    assert(old_best[aa].index != old_best[bb].index);
                }
            }
            if best.len() > k {
                best.pop();
                let ghost kept = best@;
                assert(kept == ins.subrange(0, k as int));
                assert(old_best.len() == k);
                assert forall|j: int|
                    0 <= j < i + 1 && eligible(scores@, admitted@, floor, j) && !selected(
                        kept,
                        j,
                    ) implies score_rank(scores@[j]) <= score_rank(kept[kept.len() - 1].score) by {
                    assert(score_rank(ins[k as int].score) <= score_rank(ins[k - 1].score));
                    if j == i {
                        assert(ins[k as int].index == i) by {
                            if p < k {
                                assert(kept[p as int].index == i);
                            }
                        }
                    } else if selected(ins, j) {
                        let a = choose|a: int| 0 <= a < ins.len() && ins[a].index == j;
                        if a < k {
                            assert(kept[a].index == j);
                        }
                        assert(a == k);
                    } else {
                        assert(!selected(old_best, j)) by {
                            if selected(old_best, j) {
                                let a = choose|a: int| 0 <= a < old_best.len() && old_best[a].index == j;
                                if a < p {
                                    assert(ins[a].index == j);
                                } else {
                                    assert(ins[a + 1].index == j);
                                }
                            }
                        }
                        if p < k {
                            assert(ins[k as int] == old_best[k - 1]);
                        } else {
                            assert(ins[k - 1] == old_best[k - 1]);
                        }
                    }
                }
            } else {
                assert forall|j: int|
                    0 <= j < i + 1 && eligible(scores@, admitted@, floor, j) implies selected(
                    ins,
                    j,
                ) by {
                    if j == i {
                        assert(ins[p as int].index == i);
                    } else {
                        assert(selected(old_best, j));
                        let a = choose|a: int| 0 <= a < old_best.len() && old_best[a].index == j;
                        if a < p {
                            assert(ins[a].index == j);
                        } else {
                            assert(ins[a + 1].index == j);
                        }
                    }
                }
            }
        } else {
            assert forall|j: int|
                0 <= j < i + 1 && eligible(scores@, admitted@, floor, j) && !selected(best@, j)
                    implies best@.len() == k as nat by {
                if j == i {
                    assert(k == 0);
                }
            }
        }
        i = i + 1;
    }
    best
}

} // verus!
