//! Cumulative and elementwise minima over key sequences, and gathering a
//! sequence through a vector of 1-based positions.

use vstd::prelude::*;

verus! {

/// The smaller of two keys.
pub open spec fn min_u64(a: u64, b: u64) -> u64 {
    if a < b {
        a
    } else {
        b
    }
}

/// The minimum of `v[0..=i]`.
pub open spec fn prefix_min(v: Seq<u64>, i: int) -> u64
    recommends
        0 <= i < v.len(),
    decreases i,
{
    if i <= 0 {
        v[0]
    } else {
        min_u64(prefix_min(v, i - 1), v[i])
    }
}

/// The running minimum: `r[i]` is the minimum of `v[0..=i]`.
pub fn cummin(v: &Vec<u64>) -> (r: Vec<u64>)
    requires
        v@.len() >= 1,
    ensures
        r@.len() == v@.len(),
        forall|i: int| 0 <= i < v@.len() ==> r@[i] == prefix_min(v@, i),
{
    let mut r: Vec<u64> = Vec::new();
    r.push(v[0]);
    let mut i: usize = 1;
    while i < v.len()
        invariant
            1 <= i <= v@.len(),
            r@.len() == i,
            forall|t: int| 0 <= t < i ==> r@[t] == prefix_min(v@, t),
        decreases v@.len() - i,
    {
        let prev = r[i - 1];
        let cur = v[i];
        if cur < prev {
            r.push(cur);
        } else {
            r.push(prev);
        }
        i = i + 1;
    }
    r
}

/// The elementwise minimum of two equally long key vectors.
pub fn pmin(v1: &Vec<u64>, v2: &Vec<u64>) -> (r: Vec<u64>)
    requires
        v1@.len() == v2@.len(),
    ensures
        r@.len() == v1@.len(),
        forall|i: int| 0 <= i < v1@.len() ==> r@[i] == min_u64(v1@[i], v2@[i]),
{
    let mut r: Vec<u64> = Vec::new();
    let mut i: usize = 0;
    while i < v1.len()
        invariant
            i <= v1@.len(),
            v1@.len() == v2@.len(),
            r@.len() == i,
            forall|t: int| 0 <= t < i ==> r@[t] == min_u64(v1@[t], v2@[t]),
        decreases v1@.len() - i,
    {
        let a = v1[i];
        let b = v2[i];
        if a < b {
            r.push(a);
        } else {
            r.push(b);
        }
        i = i + 1;
    }
    r
}

/// Gathers `v` through a vector of 1-based positions: `r[k] == v[pos[k] - 1]`.
pub fn select(v: &Vec<u64>, pos: &Vec<usize>) -> (r: Vec<u64>)
    requires
        forall|k: int| 0 <= k < pos@.len() ==> 1 <= #[trigger] pos@[k] <= v@.len(),
    ensures
        r@.len() == pos@.len(),
        forall|k: int| 0 <= k < pos@.len() ==> r@[k] == v@[pos@[k] - 1],
{
    let mut r: Vec<u64> = Vec::new();
    let mut k: usize = 0;
    while k < pos.len()
        invariant
            k <= pos@.len(),
            forall|t: int| 0 <= t < pos@.len() ==> 1 <= #[trigger] pos@[t] <= v@.len(),
            r@.len() == k,
            forall|t: int| 0 <= t < k ==> r@[t] == v@[pos@[t] - 1],
        decreases pos@.len() - k,
    {
        let p = pos[k];
        r.push(v[p - 1]);
        k = k + 1;
    }
    r
}

/// The running minimum never increases along the sequence.
pub proof fn lemma_prefix_min_nonincreasing(v: Seq<u64>, i: int, j: int)
    requires
        0 <= i <= j < v.len(),
    ensures
        prefix_min(v, j) <= prefix_min(v, i),
    decreases j - i,
{
    if i < j {
        lemma_prefix_min_nonincreasing(v, i, j - 1);
    }
}

/// A bound below every element of a prefix is below the prefix minimum.
pub proof fn lemma_prefix_min_lower(v: Seq<u64>, i: int, c: u64)
    requires
        0 <= i < v.len(),
        forall|k: int| 0 <= k <= i ==> #[trigger] v[k] >= c,
    ensures
        prefix_min(v, i) >= c,
    decreases i,
{
    if i > 0 {
        lemma_prefix_min_lower(v, i - 1, c);
    }
}

} // verus!
