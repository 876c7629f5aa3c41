//! Exact nearest-neighbour selection.
//!
//! A score is the 32-bit pattern of an IEEE-754 single. Scores are ranked by
//! the number they stand for, highest first; of two equal scores the one
//! stored earlier comes first. The selection scans every score.

use vstd::prelude::*;

verus! {

/// Bit patterns at or above this one carry the sign bit.
pub const SIGN_BIT: u32 = 0x8000_0000;

/// The bit pattern of positive infinity; a larger magnitude is not a number.
pub const INFINITY_BITS: u32 = 0x7f80_0000;

/// An integer that orders bit patterns as the numbers they stand for:
/// `order_key(a) < order_key(b)` exactly when `a` stands for a smaller number
/// than `b`. Both zeros share the key 0. A pattern that is not a number gets
/// a key below that of negative infinity, so that it ranks after every number.
pub open spec fn order_key(bits: u32) -> int {
    let magnitude: int = if bits >= SIGN_BIT {
        bits - SIGN_BIT
    } else {
        bits as int
    };
    if magnitude > INFINITY_BITS {
        -(INFINITY_BITS as int) - 1
    } else if bits >= SIGN_BIT {
        -magnitude
    } else {
        magnitude
    }
}

/// Whether entry `a` ranks strictly before entry `b`: by higher score, then
/// by lower position.
pub open spec fn precedes(a: (usize, u32), b: (usize, u32)) -> bool {
    order_key(a.1) > order_key(b.1) || (order_key(a.1) == order_key(b.1) && a.0 < b.0)
}

/// Whether position `q` occurs among the entries of `r`.
pub open spec fn present(q: int, r: Seq<(usize, u32)>) -> bool {
    exists|i: int| 0 <= i < r.len() && (#[trigger] r[i]).0 == q
}

/// Whether `r` is the selection of the `k` best of `scores`:
/// it has `min(k, scores.len())` entries; each entry pairs a position with
/// the score at that position; the entries stand in rank order; and every
/// position left out ranks after every entry.
pub open spec fn is_top_k(scores: Seq<u32>, k: nat, r: Seq<(usize, u32)>) -> bool {
    &&& r.len() == if k <= scores.len() { k } else { scores.len() }
    &&& forall|i: int|
        0 <= i < r.len() ==> (#[trigger] r[i]).0 < scores.len() && r[i].1 == scores[r[i].0 as int]
    &&& forall|i: int, j: int| 0 <= i < j < r.len() ==> precedes(#[trigger] r[i], #[trigger] r[j])
    &&& forall|q: int, i: int|
        0 <= q < scores.len() && 0 <= i < r.len() && !present(q, r) ==> precedes(
            #[trigger] r[i],
            (q as usize, #[trigger] scores[q]),
        )
}

/// The selection of the `k` best of `scores`. There is exactly one, as
/// `lemma_top_k_unique` shows and `top_k` computes.
pub open spec fn top_selection(scores: Seq<u32>, k: nat) -> Seq<(usize, u32)> {
    choose|r: Seq<(usize, u32)>| is_top_k(scores, k, r)
}

/// While fewer than `k` scores have been seen, every one of them is selected.
spec fn all_present(seen: int, k: nat, r: Seq<(usize, u32)>) -> bool {
    r.len() < k ==> forall|q: int| 0 <= q < seen ==> present(q, r)
}

/// Where a new entry goes: behind every entry with a score at least as high,
/// before every entry with a lower one.
spec fn slot_for(r: Seq<(usize, u32)>, score: u32, j: int) -> bool {
    &&& 0 <= j <= r.len()
    &&& forall|i: int| 0 <= i < j ==> order_key((#[trigger] r[i]).1) >= order_key(score)
    &&& forall|i: int| j <= i < r.len() ==> order_key((#[trigger] r[i]).1) < order_key(score)
}

/// The selection after one more score has been seen.
spec fn place_entry(r: Seq<(usize, u32)>, k: nat, j: int, e: (usize, u32)) -> Seq<(usize, u32)> {
    if j < k {
        let grown = r.insert(j, e);
        if grown.len() > k {
            grown.drop_last()
        } else {
            grown
        }
    } else {
        r
    }
}

/// Seeing one more score keeps the selection: with the new entry placed in
/// its slot, and the last entry dropped where that makes more than `k`, the
/// result is the selection of the scores seen so far.
proof fn lemma_place_entry(scores: Seq<u32>, p: int, k: nat, r: Seq<(usize, u32)>, j: int)
    requires
        0 <= p < scores.len(),
        p <= usize::MAX,
        is_top_k(scores.take(p), k, r),
        all_present(p, k, r),
        slot_for(r, scores[p], j),
    ensures
        is_top_k(scores.take(p + 1), k, place_entry(r, k, j, (p as usize, scores[p]))),
        all_present(p + 1, k, place_entry(r, k, j, (p as usize, scores[p]))),
{
    let e = (p as usize, scores[p]);
    let seen = scores.take(p);
    let next = scores.take(p + 1);
    let out = place_entry(r, k, j, e);
    let n = r.len() as int;
    assert forall|i: int| 0 <= i < n implies (#[trigger] r[i]).0 < p && r[i].1 == scores[r[i].0 as int] by {
        assert(r[i].1 == seen[r[i].0 as int]);
    }
    assert forall|i: int| 0 <= i < j implies precedes(#[trigger] r[i], e) by {}
    assert forall|i: int| j <= i < n implies precedes(e, #[trigger] r[i]) by {}
    if j < k {
        let grown = r.insert(j, e);
        assert(grown.len() == n + 1);
        assert forall|i: int| 0 <= i < grown.len() implies (#[trigger] grown[i]) == (if i < j {
            r[i]
        } else if i == j {
            e
        } else {
            r[i - 1]
        }) by {}
        assert forall|a: int, b: int| 0 <= a < b < grown.len() implies precedes(
            #[trigger] grown[a],
            #[trigger] grown[b],
        ) by {
            if b < j {
                assert(precedes(r[a], r[b]));
            } else if b == j {
                assert(precedes(r[a], e));
            } else if a < j {
                assert(precedes(r[a], r[b - 1]));
            } else if a == j {
                assert(precedes(e, r[b - 1]));
            } else {
                assert(precedes(r[a - 1], r[b - 1]));
            }
        }
        assert forall|q: int| 0 <= q < p && present(q, r) implies present(q, grown) by {
            let i = choose|i: int| 0 <= i < r.len() && (#[trigger] r[i]).0 == q;
            if i < j {
                assert(grown[i].0 == q);
            } else {
                assert(grown[i + 1].0 == q);
            }
        }
        assert(present(p, grown)) by {
            assert(grown[j].0 == p);
        }
        assert forall|q: int, i: int|
            0 <= q < p + 1 && 0 <= i < grown.len() && !present(q, grown) implies precedes(
            #[trigger] grown[i],
            (q as usize, #[trigger] next[q]),
        ) by {
            assert(!present(q, r));
            assert(q < p);
            assert(n >= k);
            assert(seen[q] == next[q]);
            let t = (q as usize, seen[q]);
            if i < j {
                assert(precedes(r[i], t));
            } else if i == j {
                assert(j < n);
                assert(precedes(r[j], t));
                assert(precedes(e, r[j]));
            } else {
                assert(precedes(r[i - 1], t));
            }
        }
        if grown.len() > k {
            assert(out == grown.drop_last());
            assert(n == k);
            assert forall|i: int| 0 <= i < out.len() implies (#[trigger] out[i]) == grown[i] by {}
            assert forall|q: int, i: int|
                0 <= q < p + 1 && 0 <= i < out.len() && !present(q, out) implies precedes(
                #[trigger] out[i],
                (q as usize, #[trigger] next[q]),
            ) by {
                if present(q, grown) {
                    let m = choose|m: int| 0 <= m < grown.len() && (#[trigger] grown[m]).0 == q;
                    if m < n {
                        assert(out[m].0 == q);
                    }
                    assert(m == n);
                    assert(precedes(grown[i], grown[n]));
                    assert(grown[n].1 == next[q]);
                } else {
                    assert(precedes(grown[i], (q as usize, next[q])));
                }
            }
            assert forall|i: int| 0 <= i < out.len() implies (#[trigger] out[i]).0 < next.len()
                && out[i].1 == next[out[i].0 as int] by {
                assert(out[i] == grown[i]);
            }
            assert forall|a: int, b: int| 0 <= a < b < out.len() implies precedes(
                #[trigger] out[a],
                #[trigger] out[b],
            ) by {
                assert(precedes(grown[a], grown[b]));
            }
        } else {
            assert(out == grown);
            assert forall|q: int| 0 <= q < p + 1 && out.len() < k implies present(q, out) by {
                if q < p {
                    assert(present(q, r));
                }
            }
        }
    } else {
        assert(out == r);
        assert(j == n && n == k);
        assert forall|q: int, i: int|
            0 <= q < p + 1 && 0 <= i < r.len() && !present(q, r) implies precedes(
            #[trigger] r[i],
            (q as usize, #[trigger] next[q]),
        ) by {
            if q < p {
                assert(seen[q] == next[q]);
                assert(precedes(r[i], (q as usize, seen[q])));
            } else {
                assert(precedes(r[i], e));
            }
        }
        assert forall|i: int| 0 <= i < r.len() implies (#[trigger] r[i]).0 < next.len() && r[i].1
            == next[r[i].0 as int] by {}
    }
}

/// Where two selections agree below index `i`, neither has at `i` an entry
/// that ranks before the other's.
proof fn lemma_not_ahead(
    scores: Seq<u32>,
    k: nat,
    r1: Seq<(usize, u32)>,
    r2: Seq<(usize, u32)>,
    i: int,
)
    requires
        is_top_k(scores, k, r1),
        is_top_k(scores, k, r2),
        0 <= i < r1.len(),
        forall|m: int| 0 <= m < i ==> r1[m] == r2[m],
    ensures
        !precedes(r1[i], r2[i]),
{
    let a = r1[i];
    let q = a.0 as int;
    if precedes(r1[i], r2[i]) {
        if present(q, r2) {
            let m = choose|m: int| 0 <= m < r2.len() && (#[trigger] r2[m]).0 == q;
            assert(r2[m] == a);
            if m < i {
                assert(r1[m] == a);
                assert(precedes(r1[m], r1[i]));
            } else if m > i {
                assert(precedes(r2[i], r2[m]));
            }
        } else {
            assert(precedes(r2[i], (q as usize, scores[q])));
        }
    }
}

/// Two selections of the same scores with the same `k` agree at every index.
pub proof fn lemma_top_k_agree(
    scores: Seq<u32>,
    k: nat,
    r1: Seq<(usize, u32)>,
    r2: Seq<(usize, u32)>,
    i: int,
)
    requires
        is_top_k(scores, k, r1),
        is_top_k(scores, k, r2),
        0 <= i < r1.len(),
    ensures
        r1[i] == r2[i],
    decreases i,
{
    assert forall|m: int| 0 <= m < i implies r1[m] == r2[m] by {
        lemma_top_k_agree(scores, k, r1, r2, m);
    }
    lemma_not_ahead(scores, k, r1, r2, i);
    lemma_not_ahead(scores, k, r2, r1, i);
    assert(r1[i].1 == scores[r1[i].0 as int]);
    assert(r2[i].1 == scores[r2[i].0 as int]);
}

/// The selection is determined by the scores and `k` alone.
pub proof fn lemma_top_k_unique(
    scores: Seq<u32>,
    k: nat,
    r1: Seq<(usize, u32)>,
    r2: Seq<(usize, u32)>,
)
    requires
        is_top_k(scores, k, r1),
        is_top_k(scores, k, r2),
    ensures
        r1 == r2,
{
    assert forall|i: int| 0 <= i < r1.len() implies r1[i] == r2[i] by {
        lemma_top_k_agree(scores, k, r1, r2, i);
    }
    assert(r1 =~= r2);
}

/// The rank key of a score.
pub fn key_of(bits: u32) -> (key: i64)
    ensures
        key == order_key(bits),
{
    let negative: bool = bits >= SIGN_BIT;
    let magnitude: u32 = if negative {
        bits - SIGN_BIT
    } else {
        bits
    };
    if magnitude > INFINITY_BITS {
        -(INFINITY_BITS as i64) - 1
    } else if negative {
        -(magnitude as i64)
    } else {
        magnitude as i64
    }
}

/// Selects the `k` best of `scores`, where `scores[i]` is the similarity of
/// the vector stored at position `i`. The result pairs each selected
/// position with its score, best first.
///
/// With `k == 0`, or no scores, the result is empty; with `k` beyond the
/// number of scores, every position is returned.
pub fn top_k(scores: &Vec<u32>, k: usize) -> (r: Vec<(usize, u32)>)
    ensures
        is_top_k(scores@, k as nat, r@),
        r@ == top_selection(scores@, k as nat),
{
    let mut best: Vec<(usize, u32)> = Vec::new();
    let n: usize = scores.len();
    let mut p: usize = 0;
    while p < n
        invariant
            n == scores@.len(),
            p <= n,
            is_top_k(scores@.take(p as int), k as nat, best@),
            all_present(p as int, k as nat, best@),
        decreases n - p,
    {
        let score: u32 = scores[p];
        let key: i64 = key_of(score);
        let mut j: usize = best.len();
        while j > 0 && key_of(best[j - 1].1) < key
            invariant
                j <= best@.len(),
                key == order_key(score),
                forall|i: int| j <= i < best@.len() ==> order_key((#[trigger] best@[i]).1) < key,
            decreases j,
        {
            j -= 1;
        }
        proof {
            assert forall|i: int| 0 <= i < j implies order_key((#[trigger] best@[i]).1)
                >= order_key(score) by {
                if i < j - 1 {
                    assert(precedes(best@[i], best@[j - 1]));
                }
            }
            assert(slot_for(best@, score, j as int));
            lemma_place_entry(scores@, p as int, k as nat, best@, j as int);
        }
        if j < k {
            best.insert(j, (p, score));
            if best.len() > k {
                best.pop();
            }
        }
        p += 1;
    }
    proof {
        assert(scores@.take(n as int) =~= scores@);
        lemma_top_k_unique(scores@, k as nat, best@, top_selection(scores@, k as nat));
    }
    best
}

} // verus!
