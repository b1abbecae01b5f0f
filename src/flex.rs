//! Sharing the room along a packing axis among siblings when their requests
//! do not all fit: siblings without a weight take their minimum first, in
//! order, as far as room lasts; what remains is split among the weighted
//! siblings in proportion to their weights (rounded down).
use vstd::prelude::*;

verus! {

/// Room taken by the unweighted among the first `n` siblings.
pub open spec fn fixed_used(avail: int, mins: Seq<u16>, weights: Seq<u16>, n: int) -> int
    decreases n,
{
    if n <= 0 {
        0
    } else {
        let u = fixed_used(avail, mins, weights, n - 1);
        if weights[n - 1] == 0 {
            u + if mins[n - 1] <= avail - u { mins[n - 1] as int } else { avail - u }
        } else {
            u
        }
    }
}

/// The sum of the first `n` weights.
pub open spec fn weight_sum(weights: Seq<u16>, n: int) -> int
    decreases n,
{
    if n <= 0 {
        0
    } else {
        weight_sum(weights, n - 1) + weights[n - 1]
    }
}

/// The sum of the first `n` entries.
pub open spec fn total(s: Seq<u16>, n: int) -> int
    decreases n,
{
    if n <= 0 {
        0
    } else {
        total(s, n - 1) + s[n - 1]
    }
}

/// The room that sibling `i` receives out of `avail`.
pub open spec fn share(avail: int, mins: Seq<u16>, weights: Seq<u16>, i: int) -> int {
    if weights[i] == 0 {
        let u = fixed_used(avail, mins, weights, i);
        if mins[i] <= avail - u { mins[i] as int } else { avail - u }
    } else {
        (avail - fixed_used(avail, mins, weights, mins.len() as int)) * weights[i] / weight_sum(weights, weights.len() as int)
    }
}

proof fn lemma_fixed_used_bounds(avail: int, mins: Seq<u16>, weights: Seq<u16>, n: int)
    requires
        0 <= avail,
        0 <= n <= mins.len(),
        mins.len() == weights.len(),
    ensures
        0 <= fixed_used(avail, mins, weights, n) <= avail,
    decreases n,
{
    if n > 0 {
        lemma_fixed_used_bounds(avail, mins, weights, n - 1);
    }
}

proof fn lemma_weight_sum_bounds(weights: Seq<u16>, n: int)
    requires
        0 <= n <= weights.len(),
    ensures
        0 <= weight_sum(weights, n) <= n * 65535,
    decreases n,
{
    if n > 0 {
        lemma_weight_sum_bounds(weights, n - 1);
    }
}

/// Shares out `avail` cells among siblings with minimum requests `mins`
/// and weights `weights` (zero meaning no weight). The shares never add up
/// to more than `avail`.
pub fn distribute(avail: u16, mins: &Vec<u16>, weights: &Vec<u16>) -> (r: Vec<u16>)
    requires
        mins@.len() == weights@.len(),
    ensures
        r@.len() == mins@.len(),
        forall|i: int| 0 <= i < r@.len() ==> #[trigger] r@[i] == share(avail as int, mins@, weights@, i),
        total(r@, r@.len() as int) <= avail,
{
    let n = mins.len();
    let ghost a = avail as int;
    let mut used: u16 = 0;
    let mut wsum: u128 = 0;
    let mut i: usize = 0;
    while i < n
        invariant
            n == mins@.len(),
            n == weights@.len(),
            a == avail as int,
            i <= n,
            used == fixed_used(a, mins@, weights@, i as int),
            used <= avail,
            wsum == weight_sum(weights@, i as int),
            wsum <= i * 65535,
        decreases n - i,
    {
        if weights[i] == 0 {
            let room = avail - used;
            used = used + if mins[i] <= room { mins[i] } else { room };
        } else {
            wsum = wsum + weights[i] as u128;
        }
        i = i + 1;
    }
    let rest: u16 = avail - used;
    let ghost fixed_total = used as int;
    let mut r: Vec<u16> = Vec::new();
    let mut fixed: u16 = 0;
    let mut flex: u128 = 0;
    let mut j: usize = 0;
    while j < n
        invariant
            n == mins@.len(),
            n == weights@.len(),
            a == avail as int,
            j <= n,
            r@.len() == j,
            rest == a - fixed_total,
            fixed_total == fixed_used(a, mins@, weights@, n as int),
            wsum == weight_sum(weights@, n as int),
            fixed == fixed_used(a, mins@, weights@, j as int),
            fixed <= avail,
            flex * wsum <= rest * weight_sum(weights@, j as int),
            flex <= rest,
            total(r@, j as int) == fixed + flex,
            forall|k: int| 0 <= k < j ==> #[trigger] r@[k] == share(a, mins@, weights@, k),
        decreases n - j,
    {
        proof {
            lemma_weight_sum_bounds(weights@, j as int + 1);
            lemma_weight_sum_bounds(weights@, n as int);
            lemma_fixed_used_bounds(a, mins@, weights@, j as int + 1);
        }
        let ghost r0 = r@;
        if weights[j] == 0 {
            let room = avail - fixed;
            let s: u16 = if mins[j] <= room { mins[j] } else { room };
            fixed = fixed + s;
            r.push(s);
        } else {
            let w = weights[j] as u128;
            assert(rest as u128 * w <= 65535 * 65535) by (nonlinear_arith)
                requires rest <= 65535, w <= 65535;
            assert(wsum > 0) by {
                lemma_weight_sum_bounds(weights@, j as int);
                assert(weight_sum(weights@, j as int + 1) == weight_sum(weights@, j as int) + weights@[j as int]);
                assert(weight_sum(weights@, j as int + 1) <= weight_sum(weights@, n as int)) by {
                    lemma_weight_sum_mono(weights@, j as int + 1, n as int);
                }
            }
            let s64: u128 = (rest as u128 * w) / wsum;
            let ghost ws = weight_sum(weights@, j as int);
            let ghost (ri, wi, si, di, fi) = (rest as int, w as int, s64 as int, wsum as int, flex as int);
            assert(si * di <= ri * wi) by (nonlinear_arith)
                requires
                    si == (ri * wi) / di,
                    di > 0,
            ;
            assert((fi + si) * di <= ri * (ws + wi)) by (nonlinear_arith)
                requires
                    fi * di <= ri * ws,
                    si * di <= ri * wi,
            ;
            assert(ws + wi <= di) by {
                lemma_weight_sum_mono(weights@, j as int + 1, n as int);
            }
            assert(fi + si <= ri) by (nonlinear_arith)
                requires
                    (fi + si) * di <= ri * (ws + wi),
                    ws + wi <= di,
                    di > 0,
                    ri >= 0,
            ;
            flex = flex + s64;
            r.push(s64 as u16);
        }
        proof {
            assert(r@.subrange(0, j as int) =~= r0);
            assert(total(r@, j as int) == total(r0, j as int)) by {
                lemma_total_prefix(r0, r@, j as int);
            }
        }
        j = j + 1;
    }
    r
}

proof fn lemma_weight_sum_mono(weights: Seq<u16>, i: int, n: int)
    requires
        0 <= i <= n <= weights.len(),
    ensures
        weight_sum(weights, i) <= weight_sum(weights, n),
    decreases n - i,
{
    if i < n {
        lemma_weight_sum_mono(weights, i, n - 1);
    }
}

proof fn lemma_total_prefix(a: Seq<u16>, b: Seq<u16>, n: int)
    requires
        0 <= n <= a.len(),
        n <= b.len(),
        forall|k: int| 0 <= k < n ==> a[k] == b[k],
    ensures
        total(a, n) == total(b, n),
    decreases n,
{
    if n > 0 {
        lemma_total_prefix(a, b, n - 1);
    }
}

} // verus!
