use vstd::prelude::*;

verus! {

/// What a weight counts for in selection: a weight that is not positive counts for nothing.
pub open spec fn weight_of(w: i32) -> int {
    if w > 0 {
        w as int
    } else {
        0
    }
}

/// The sum of the weights.
pub open spec fn total(ws: Seq<i32>) -> int
    decreases ws.len(),
{
    if ws.len() == 0 {
        0
    } else {
        total(ws.drop_last()) + weight_of(ws.last())
    }
}

/// The first index whose cumulative weight (its own included) exceeds `k`, or -1.
pub open spec fn pick(ws: Seq<i32>, k: int) -> int
    decreases ws.len(),
{
    if ws.len() == 0 {
        -1
    } else if pick(ws.drop_last(), k) >= 0 {
        pick(ws.drop_last(), k)
    } else if total(ws) > k {
        ws.len() - 1
    } else {
        -1
    }
}

pub proof fn lemma_total_bounds(ws: Seq<i32>)
    ensures
        0 <= total(ws) <= ws.len() * 0x8000_0000,
    decreases ws.len(),
{
    if ws.len() > 0 {
        lemma_total_bounds(ws.drop_last());
    }
}

/// Nothing is picked exactly when the whole sum does not exceed `k`; what is picked has a
/// positive weight, with the cumulative weight before it at most `k`.
pub proof fn lemma_pick(ws: Seq<i32>, k: int)
    requires
        k >= 0,
    ensures
        pick(ws, k) == -1 <==> total(ws) <= k,
        -1 <= pick(ws, k) < ws.len(),
        pick(ws, k) >= 0 ==> ws[pick(ws, k)] > 0 && total(ws.take(pick(ws, k))) <= k && k < total(
            ws.take(pick(ws, k) + 1),
        ),
    decreases ws.len(),
{
    if ws.len() > 0 {
        let d = ws.drop_last();
        lemma_pick(d, k);
        lemma_total_bounds(ws);
        let j = pick(ws, k);
        if pick(d, k) >= 0 {
            assert(ws.take(j) =~= d.take(j));
            assert(ws.take(j + 1) =~= d.take(j + 1));
            assert(total(ws) >= total(d));
        } else if total(ws) > k {
            assert(ws.take(j) =~= d);
            assert(ws.take(j + 1) =~= ws);
        }
    }
}

/// Picking among a prefix agrees with picking among the whole once the prefix picks.
pub proof fn lemma_pick_prefix(ws: Seq<i32>, n: int, k: int)
    requires
        0 <= n <= ws.len(),
        pick(ws.take(n), k) >= 0,
    ensures
        pick(ws, k) == pick(ws.take(n), k),
    decreases ws.len() - n,
{
    if n < ws.len() {
        assert(ws.take(n + 1).drop_last() =~= ws.take(n));
        lemma_pick_prefix(ws, n + 1, k);
    } else {
        assert(ws.take(n) =~= ws);
    }
}

/// Chooses an index with probability proportional to its weight, from a draw: with a
/// positive sum of weights, the draw is reduced modulo the sum and the first index whose
/// cumulative weight exceeds it wins. Weights that are not positive never win; with no
/// positive weight nothing is chosen.
pub fn choose_weighted(weights: &Vec<i32>, draw: u64) -> (r: Option<usize>)
    ensures
        total(weights@) == 0 ==> r is None,
        total(weights@) > 0 ==> r == Some(pick(weights@, draw as int % total(weights@)) as usize),
        r matches Some(j) ==> j < weights.len() && weights@[j as int] > 0,
{
    let ghost ws = weights@;
    let mut sum: u128 = 0;
    let mut i: usize = 0;
    while i < weights.len()
        invariant
            i <= weights.len(),
            ws == weights@,
            sum as int == total(ws.take(i as int)),
        decreases weights.len() - i,
    {
        proof {
            assert(ws.take(i + 1).drop_last() =~= ws.take(i as int));
            lemma_total_bounds(ws.take(i + 1));
        }
        let w = weights[i];
        if w > 0 {
            sum = sum + w as u128;
        }
        i = i + 1;
    }
    assert(ws.take(i as int) =~= ws);
    if sum == 0 {
        return None;
    }
    let k: u128 = (draw as u128) % sum;
    proof {
        lemma_pick(ws, k as int);
    }
    let mut acc: u128 = 0;
    let mut j: usize = 0;
    while j < weights.len()
        invariant
            j <= weights.len(),
            ws == weights@,
            sum as int == total(ws),
            k < sum,
            k as int == draw as int % total(ws),
            acc as int == total(ws.take(j as int)),
            pick(ws.take(j as int), k as int) == -1,
            pick(ws, k as int) >= 0,
        decreases weights.len() - j,
    {
        proof {
            assert(ws.take(j + 1).drop_last() =~= ws.take(j as int));
            lemma_total_bounds(ws.take(j + 1));
            lemma_pick(ws.take(j as int), k as int);
        }
        let w = weights[j];
        if w > 0 {
            acc = acc + w as u128;
        }
        if acc > k {
            proof {
                assert(total(ws.take(j + 1)) == acc as int);
                assert(pick(ws.take(j + 1), k as int) == j as int);
                lemma_pick_prefix(ws, j + 1, k as int);
                lemma_pick(ws, k as int);
            }
            return Some(j);
        }
        j = j + 1;
    }
    proof {
        assert(ws.take(j as int) =~= ws);
    }
    None
}

} // verus!
