//! The shape of the Benjamini-Hochberg step-up adjustment and the laws it
//! obeys.
//!
//! The adjustment reads the raw p-values in descending order `o`, reweights
//! them into `w`, takes the running minimum capped at one (`m`), and hands
//! each position its value back through the inverse order `ro`, which the
//! reference obtains by ordering the positions of `o` ascending.  The laws
//! below hold at the key level, for every choice of reweighted values.

use crate::minima::{
    cummin, lemma_prefix_min_lower, lemma_prefix_min_nonincreasing, min_u64, pmin, prefix_min,
    select,
};
use crate::rank::{is_index_perm, is_ordering, order, pos_precedes};
use vstd::prelude::*;

verus! {

/// `ok` carries the positions of `o` as keys: position `k` holds `o[k]`.
pub open spec fn positions_as_keys(o: Seq<usize>, ok: Seq<u64>) -> bool {
    &&& ok.len() == o.len()
    &&& (forall|k: int| 0 <= k < o.len() ==> ok[k] == #[trigger] o[k] as u64)
}

/// The values of `o` read along `ro` grow by at least one per step.
proof fn lemma_increasing_gap(o: Seq<usize>, ro: Seq<usize>, n: nat, i: int, j: int)
    requires
        is_index_perm(o, n),
        is_index_perm(ro, n),
        forall|p: int, q: int|
            0 <= p < q < n ==> o[#[trigger] ro[p] - 1] < o[#[trigger] ro[q] - 1],
        0 <= i <= j < n,
    ensures
        o[ro[j] - 1] - o[ro[i] - 1] >= j - i,
    decreases j - i,
{
    if i < j {
        lemma_increasing_gap(o, ro, n, i, j - 1);
    }
}

/// Ordering the positions of a permutation ascending inverts it:
/// `o[ro[i] - 1] == i + 1` and `ro[o[k] - 1] == k + 1`.
pub proof fn lemma_order_of_order_inverts(o: Seq<usize>, ok: Seq<u64>, ro: Seq<usize>, n: nat)
    requires
        is_index_perm(o, n),
        positions_as_keys(o, ok),
        is_ordering(ro, ok, false),
    ensures
        forall|i: int| 0 <= i < n ==> o[#[trigger] ro[i] - 1] == i + 1,
        forall|k: int| 0 <= k < n ==> ro[#[trigger] o[k] - 1] == k + 1,
{
    assert forall|p: int, q: int|
        0 <= p < q < n implies o[#[trigger] ro[p] - 1] < o[#[trigger] ro[q] - 1] by {
        assert(pos_precedes(ok, ro[p], ro[q], false));
        assert(ok[ro[p] - 1] == o[ro[p] - 1] as u64);
        assert(ok[ro[q] - 1] == o[ro[q] - 1] as u64);
        if o[ro[p] - 1] == o[ro[q] - 1] {
            assert(ro[p] != ro[q]);
            if ro[p] - 1 < ro[q] - 1 {
                assert(o[ro[p] - 1] != o[ro[q] - 1]);
            } else {
                assert(o[ro[q] - 1] != o[ro[p] - 1]);
            }
        }
    };
    assert forall|i: int| 0 <= i < n implies o[#[trigger] ro[i] - 1] == i + 1 by {
        lemma_increasing_gap(o, ro, n, 0, i);
        lemma_increasing_gap(o, ro, n, i, (n - 1) as int);
    };
    assert forall|k: int| 0 <= k < n implies ro[#[trigger] o[k] - 1] == k + 1 by {
        let i = o[k] - 1;
        assert(o[ro[i] - 1] == i + 1);
        if ro[i] - 1 != k {
            if ro[i] - 1 < k {
                assert(o[ro[i] - 1] != o[k]);
            } else {
                assert(o[k] != o[ro[i] - 1]);
            }
        }
    };
}

/// The pieces of one run of the adjustment, at the key level: raw values
/// `p`; their descending order `o`; the reweighted values `w`, position
/// `i` of `w` belonging to position `o[i]` of `p`; the capped running
/// minimum `m`; the ascending order `ro` of the positions of `o`; and the
/// adjusted values `adj`, gathered from `m` through `ro`.
pub open spec fn bh_pipeline(
    p: Seq<u64>,
    w: Seq<u64>,
    o: Seq<usize>,
    ok: Seq<u64>,
    ro: Seq<usize>,
    m: Seq<u64>,
    adj: Seq<u64>,
    cap: u64,
) -> bool {
    &&& p.len() >= 1
    &&& is_ordering(o, p, true)
    &&& positions_as_keys(o, ok)
    &&& is_ordering(ro, ok, false)
    &&& w.len() == p.len()
    &&& m.len() == p.len()
    &&& (forall|i: int| 0 <= i < p.len() ==> #[trigger] m[i] == min_u64(cap, prefix_min(w, i)))
    &&& adj.len() == p.len()
    &&& (forall|k: int| 0 <= k < p.len() ==> adj[k] == m[#[trigger] ro[k] - 1])
}

/// The Benjamini-Hochberg adjustment after the reweighting.  The caller
/// hands in the reweighted keys `w` (position `i` of `w` belonging to
/// position `o[i]` of the raw values), the descending order `o` of the
/// raw values, and the cap (the key of one).  Position `o[i]` of the
/// result receives the capped running minimum of `w[0..=i]`, so the
/// result, read along `o`, never increases.
pub fn padjust_core(w: &Vec<u64>, o: &Vec<usize>, cap: u64) -> (adj: Vec<u64>)
    requires
        w@.len() >= 1,
        is_index_perm(o@, w@.len() as nat),
    ensures
        adj@.len() == w@.len(),
        forall|i: int|
            0 <= i < w@.len() ==> adj@[#[trigger] o@[i] - 1] == min_u64(cap, prefix_min(w@, i)),
        forall|i: int, j: int|
            0 <= i < j < w@.len() ==> adj@[#[trigger] o@[j] - 1] <= adj@[#[trigger] o@[i] - 1],
{
    let n = w.len();
    let mut ok: Vec<u64> = Vec::new();
    let mut k: usize = 0;
    while k < n
        invariant
            k <= n == o@.len(),
            ok@.len() == k,
            forall|t: int| 0 <= t < k ==> ok@[t] == #[trigger] o@[t] as u64,
        decreases n - k,
    {
        ok.push(o[k] as u64);
        k = k + 1;
    }
    let ro = order(&ok, false);
    let lows = cummin(w);
    let mut caps: Vec<u64> = Vec::new();
    let mut c: usize = 0;
    while c < n
        invariant
            c <= n,
            caps@.len() == c,
            forall|t: int| 0 <= t < c ==> caps@[t] == cap,
        decreases n - c,
    {
        caps.push(cap);
        c = c + 1;
    }
    let m = pmin(&caps, &lows);
    let adj = select(&m, &ro);
    proof {
        lemma_order_of_order_inverts(o@, ok@, ro@, n as nat);
        assert forall|i: int| 0 <= i < n implies adj@[#[trigger] o@[i] - 1] == min_u64(
            cap,
            prefix_min(w@, i),
        ) by {
            assert(ro@[o@[i] - 1] == i + 1);
            assert(adj@[o@[i] - 1] == m@[i]);
        };
        assert forall|i: int, j: int|
            0 <= i < j < n implies adj@[#[trigger] o@[j] - 1] <= adj@[#[trigger] o@[i] - 1] by {
            lemma_prefix_min_nonincreasing(w@, i, j);
        };
    }
    adj
}

/// Law: however the reweighted values came out, the adjusted values read
/// in ascending raw order — the reverse of the descending order `o` —
/// never decrease; equivalently, positions earlier in `o` carry the
/// larger adjusted value.
pub proof fn lemma_bh_adjusted_monotone(
    p: Seq<u64>,
    w: Seq<u64>,
    o: Seq<usize>,
    ok: Seq<u64>,
    ro: Seq<usize>,
    m: Seq<u64>,
    adj: Seq<u64>,
    cap: u64,
)
    requires
        bh_pipeline(p, w, o, ok, ro, m, adj, cap),
    ensures
        forall|i: int, j: int|
            0 <= i < j < p.len() ==> adj[#[trigger] o[j] - 1] <= adj[#[trigger] o[i] - 1],
{
    let n = p.len();
    lemma_order_of_order_inverts(o, ok, ro, n);
    assert forall|i: int, j: int|
        0 <= i < j < n implies adj[#[trigger] o[j] - 1] <= adj[#[trigger] o[i] - 1] by {
        assert(ro[o[i] - 1] == i + 1);
        assert(ro[o[j] - 1] == j + 1);
        assert(adj[o[i] - 1] == m[i]);
        assert(adj[o[j] - 1] == m[j]);
        lemma_prefix_min_nonincreasing(w, i, j);
    };
}

/// Law: every adjusted value dominates its raw value, provided each
/// reweighted value dominates the raw value at its sorted position and
/// the cap dominates every raw value.  In the adjustment proper the
/// reweighted value is the raw value scaled by `n/i >= 1` and the cap
/// stands for one, with every p-value at most one, so both provisos hold
/// there.
pub proof fn lemma_bh_adjusted_dominates(
    p: Seq<u64>,
    w: Seq<u64>,
    o: Seq<usize>,
    ok: Seq<u64>,
    ro: Seq<usize>,
    m: Seq<u64>,
    adj: Seq<u64>,
    cap: u64,
)
    requires
        bh_pipeline(p, w, o, ok, ro, m, adj, cap),
        forall|i: int| 0 <= i < p.len() ==> #[trigger] w[i] >= p[o[i] - 1],
        forall|k: int| 0 <= k < p.len() ==> cap >= #[trigger] p[k],
    ensures
        forall|k: int| 0 <= k < p.len() ==> #[trigger] adj[k] >= p[k],
{
    let n = p.len();
    lemma_order_of_order_inverts(o, ok, ro, n);
    assert forall|k: int| 0 <= k < n implies #[trigger] adj[k] >= p[k] by {
        let t = ro[k] - 1;
        assert(0 <= t < n);
        assert(o[ro[k] - 1] == k + 1);
        assert forall|s: int| 0 <= s <= t implies #[trigger] w[s] >= p[k] by {
            assert(w[s] >= p[o[s] - 1]);
            if s < t {
                assert(pos_precedes(p, o[s], o[t], true));
            }
        };
        lemma_prefix_min_lower(w, t, p[k]);
        assert(adj[k] == m[t]);
    };
}

} // verus!
