//! Ranking candidates by score.
//!
//! Scores are single-precision bit patterns computed by the caller; this
//! module orders candidate indices by descending score and keeps the best
//! `k`.  On NaN-free scores the result is pinned exactly: a permutation
//! prefix, sorted descending, that dominates everything left out.

use vstd::prelude::*;
use crate::fbits::{f32_lt, f32_is_nan, f32_bits_lt, lemma_f32_lt_trans, lemma_f32_le_total};

verus! {

/// No score in the list is NaN.
pub open spec fn spec_no_nan(scores: Seq<u32>) -> bool {
    forall|i: int| 0 <= i < scores.len() ==> !f32_is_nan(#[trigger] scores[i])
}

/// `order` lists scores in descending order.
pub open spec fn spec_sorted_desc(scores: Seq<u32>, order: Seq<usize>) -> bool {
    forall|i: int, j: int|
        0 <= i < j < order.len() ==> !f32_lt(
            scores[(#[trigger] order[i]) as int],
            scores[(#[trigger] order[j]) as int],
        )
}

/// `order` holds pairwise distinct values.
pub open spec fn spec_distinct(order: Seq<usize>) -> bool {
    forall|i: int, j: int|
        0 <= i < j < order.len() ==> (#[trigger] order[i]) != (#[trigger] order[j])
}

/// `order` contains `v`.
pub open spec fn spec_order_contains(order: Seq<usize>, v: usize) -> bool {
    exists|q: int| 0 <= q < order.len() && (#[trigger] order[q]) == v
}

/// Every index below `n` appears in `order`.
pub open spec fn spec_order_complete(order: Seq<usize>, n: int) -> bool {
    forall|v: usize| 0 <= v < n ==> #[trigger] spec_order_contains(order, v)
}

/// The indices `0..scores.len()` arranged by descending score.
pub fn sort_indices_desc(scores: &Vec<u32>) -> (r: Vec<usize>)
    ensures
        r@.len() == scores@.len(),
        spec_distinct(r@),
        forall|q: int| 0 <= q < r@.len() ==> (#[trigger] r@[q]) < scores@.len(),
        spec_order_complete(r@, scores@.len() as int),
        spec_no_nan(scores@) ==> spec_sorted_desc(scores@, r@),
{
    let n = scores.len();
    let mut out: Vec<usize> = Vec::new();
    let mut i: usize = 0;
    while i < n
        invariant
            i <= n == scores@.len(),
            out@.len() == i,
            spec_distinct(out@),
            forall|q: int| 0 <= q < out@.len() ==> (#[trigger] out@[q]) < i,
            spec_order_complete(out@, i as int),
            spec_no_nan(scores@) ==> spec_sorted_desc(scores@, out@),
        decreases n - i,
    {
        let ghost before = out@;
        // Find the first position whose score is strictly below this one.
        let mut p: usize = 0;
        while p < out.len() && !f32_bits_lt(scores[out[p]], scores[i])
            invariant
                p <= out@.len(),
                out@ == before,
                i < n == scores@.len(),
                forall|q: int| 0 <= q < out@.len() ==> (#[trigger] out@[q]) < i,
                forall|q: int|
                    0 <= q < p ==> !f32_lt(
                        scores@[(#[trigger] out@[q]) as int],
                        scores@[i as int],
                    ),
            decreases out@.len() - p,
        {
            p = p + 1;
        }
        out.insert(p, i);
        proof {
            assert(out@ == before.insert(p as int, i));
            assert forall|q: int| 0 <= q < out@.len() implies (#[trigger] out@[q]) < i + 1 by {
                if q < p {
                    assert(out@[q] == before[q]);
                } else if q == p {
                } else {
                    assert(out@[q] == before[q - 1]);
                }
            }
            assert forall|a: int, b: int| 0 <= a < b < out@.len() implies (#[trigger] out@[a]) != (
            #[trigger] out@[b]) by {
                if a < p {
                    assert(out@[a] == before[a]);
                } else if a == p {
                    assert(out@[a] == i);
                } else {
                    assert(out@[a] == before[a - 1]);
                }
                if b < p {
                    assert(out@[b] == before[b]);
                } else if b == p {
                    assert(out@[b] == i);
                } else {
                    assert(out@[b] == before[b - 1]);
                }
            }
            assert forall|v: usize| 0 <= v < i + 1 implies #[trigger] spec_order_contains(
                out@,
                v,
            ) by {
                if v == i {
                    assert(out@[p as int] == i);
                } else {
                    assert(spec_order_contains(before, v));
                    let q = choose|q: int| 0 <= q < before.len() && (#[trigger] before[q]) == v;
                    if q < p {
                        assert(out@[q] == before[q]);
                    } else {
                        assert(out@[q + 1] == before[q]);
                    }
                }
            }
            if spec_no_nan(scores@) {
                assert forall|a: int, b: int| 0 <= a < b < out@.len() implies !f32_lt(
                    scores@[(#[trigger] out@[a]) as int],
                    scores@[(#[trigger] out@[b]) as int],
                ) by {
                    let sc = scores@;
                    if a < p && b < p {
                        assert(out@[a] == before[a] && out@[b] == before[b]);
                    } else if a < p && b == p {
                        assert(out@[a] == before[a] && out@[b] == i);
                    } else if a < p && b > p {
                        assert(out@[a] == before[a] && out@[b] == before[b - 1]);
                    } else if a == p && b > p {
                        // The element at the insertion point was strictly
                        // below the new score, and what follows it is no
                        // greater than it was.
                        assert(out@[a] == i && out@[b] == before[b - 1]);
                        if p < before.len() {
                            assert(f32_lt(sc[before[p as int] as int], sc[i as int]));
                            if b - 1 > p {
                                assert(!f32_lt(
                                    sc[before[p as int] as int],
                                    sc[before[b - 1] as int],
                                ));
                                lemma_f32_le_total(
                                    sc[before[b - 1] as int],
                                    sc[before[p as int] as int],
                                );
                                lemma_f32_le_total(sc[before[p as int] as int], sc[i as int]);
                                if f32_lt(sc[i as int], sc[before[b - 1] as int]) {
                                    lemma_f32_lt_trans(
                                        sc[before[p as int] as int],
                                        sc[i as int],
                                        sc[before[b - 1] as int],
                                    );
                                }
                            }
                        }
                    } else {
                        assert(a > p && b > p);
                        assert(out@[a] == before[a - 1] && out@[b] == before[b - 1]);
                    }
                }
            }
        }
        i = i + 1;
    }
    out
}

/// The indices of the `k` best scores, descending.  On NaN-free scores the
/// answer is exact: the kept indices are distinct, sorted descending, and
/// none of the dropped indices scores above any kept one.
pub fn top_k_desc(scores: &Vec<u32>, k: usize) -> (r: Vec<usize>)
    ensures
        r@.len() == (if k < scores@.len() {
            k as int
        } else {
            scores@.len() as int
        }),
        spec_distinct(r@),
        forall|q: int| 0 <= q < r@.len() ==> (#[trigger] r@[q]) < scores@.len(),
        spec_no_nan(scores@) ==> spec_sorted_desc(scores@, r@),
        spec_no_nan(scores@) ==> forall|q: int, v: usize|
            #![trigger r@[q], spec_order_contains(r@, v)]
            0 <= q < r@.len() && 0 <= v < scores@.len() && !spec_order_contains(r@, v) ==> !f32_lt(
                scores@[r@[q] as int],
                scores@[v as int],
            ),
{
    let mut order = sort_indices_desc(scores);
    let ghost full = order@;
    if k < order.len() {
        order.truncate(k);
        proof {
            assert(order@ == full.take(k as int));
        }
    }
    proof {
        assert forall|q: int, v: usize|
            #![trigger order@[q], spec_order_contains(order@, v)]
            0 <= q < order@.len() && 0 <= v < scores@.len() && !spec_order_contains(order@, v)
                && spec_no_nan(scores@) implies !f32_lt(
            scores@[order@[q] as int],
            scores@[v as int],
        ) by {
            // The dropped index sits somewhere after the kept prefix.
            assert(spec_order_contains(full, v));
            let w = choose|w: int| 0 <= w < full.len() && (#[trigger] full[w]) == v;
            if w < order@.len() {
                assert(order@[w] == full[w]);
                assert(spec_order_contains(order@, v));
            }
            assert(order@[q] == full[q]);
            assert(!f32_lt(scores@[full[q] as int], scores@[full[w] as int]));
        }
    }
    order
}

} // verus!
