//! Sorting 1-based positions by key: the order/rank primitive of the
//! Benjamini-Hochberg adjustment.

use vstd::prelude::*;

verus! {

/// `r` is a permutation of the 1-based positions `1..=n`.
pub open spec fn is_index_perm(r: Seq<usize>, n: nat) -> bool {
    &&& r.len() == n
    &&& (forall|k: int| 0 <= k < n ==> 1 <= #[trigger] r[k] <= n)
    &&& (forall|k1: int, k2: int| 0 <= k1 < k2 < n ==> r[k1] != r[k2])
}

/// Strict precedence of the 1-based positions `a` and `b` of the key
/// sequence `v`: by key, ascending or descending, with ties resolved by
/// position.  Distinct positions are always ordered one way or the other,
/// and equal keys stay in ascending position order, as a stable sort
/// leaves them.
pub open spec fn pos_precedes(v: Seq<u64>, a: usize, b: usize, dec: bool) -> bool
    recommends
        1 <= a <= v.len(),
        1 <= b <= v.len(),
{
    if dec {
        v[a - 1] > v[b - 1] || (v[a - 1] == v[b - 1] && a < b)
    } else {
        v[a - 1] < v[b - 1] || (v[a - 1] == v[b - 1] && a < b)
    }
}

/// `r` sorts the positions of `v`: it is a permutation of `1..=v.len()`
/// ordered by `pos_precedes`.  Since the precedence is a strict total
/// order on distinct positions, exactly one permutation satisfies this.
pub open spec fn is_ordering(r: Seq<usize>, v: Seq<u64>, dec: bool) -> bool {
    &&& is_index_perm(r, v.len())
    &&& (forall|i: int, j: int|
        0 <= i < j < r.len() ==> pos_precedes(v, #[trigger] r[i], #[trigger] r[j], dec))
}

fn pos_precedes_exec(v: &Vec<u64>, a: usize, b: usize, dec: bool) -> (r: bool)
    requires
        1 <= a <= v@.len(),
        1 <= b <= v@.len(),
    ensures
        r == pos_precedes(v@, a, b, dec),
{
    let ka = v[a - 1];
    let kb = v[b - 1];
    if dec {
        ka > kb || (ka == kb && a < b)
    } else {
        ka < kb || (ka == kb && a < b)
    }
}

/// Returns the vector of 1-based positions that reads the keys of `v` in
/// ascending (`dec == false`) or descending (`dec == true`) order, equal
/// keys in ascending position order.
pub fn order(v: &Vec<u64>, dec: bool) -> (r: Vec<usize>)
    ensures
        is_ordering(r@, v@, dec),
{
    let n = v.len();
    let mut idx: Vec<usize> = Vec::new();
    let mut k: usize = 0;
    while k < n
        invariant
            k <= n,
            idx@.len() == k,
            forall|t: int| 0 <= t < k ==> #[trigger] idx@[t] == t + 1,
        decreases n - k,
    {
        k = k + 1;
        idx.push(k);
    }
    if n < 2 {
        return idx;
    }
    let mut i: usize = 1;
    while i < n
        invariant
            n == v@.len(),
            1 <= i <= n,
            is_index_perm(idx@, n as nat),
            forall|p: int, q: int|
                0 <= p < q < i ==> pos_precedes(v@, #[trigger] idx@[p], #[trigger] idx@[q], dec),
        decreases n - i,
    {
        let mut j: usize = i;
        while j > 0 && pos_precedes_exec(v, idx[j], idx[j - 1], dec)
            invariant
                n == v@.len(),
                j <= i < n,
                is_index_perm(idx@, n as nat),
                forall|p: int, q: int|
                    0 <= p < q <= i && q != j ==> pos_precedes(
                        v@,
                        #[trigger] idx@[p],
                        #[trigger] idx@[q],
                        dec,
                    ),
            decreases j,
        {
            let a = idx[j - 1];
            let b = idx[j];
            idx.set(j - 1, b);
            idx.set(j, a);
            j = j - 1;
        }
        proof {
            assert forall|p: int, q: int| 0 <= p < q <= i implies pos_precedes(
                v@,
                idx@[p],
                idx@[q],
                dec,
            ) by {
                if q == j && j > 0 {
                    assert(idx@[j - 1] != idx@[j as int]);
                    assert(pos_precedes(v@, idx@[j - 1], idx@[j as int], dec));
                    if p < j - 1 {
                        assert(pos_precedes(v@, idx@[p], idx@[j - 1], dec));
                    }
                }
            };
        }
        i = i + 1;
    }
    idx
}

} // verus!
