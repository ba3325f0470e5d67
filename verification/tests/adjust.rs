use numutils::adjust::padjust_core;
use numutils::rank::order;

/// Monotone embedding of the IEEE `f32` total order into the `u64` order.
fn key_of(x: f32) -> u64 {
    let b = x.to_bits();
    let k = if b & 0x8000_0000 != 0 { !b } else { b | 0x8000_0000 };
    k as u64
}

fn val_of(k: u64) -> f32 {
    let b = k as u32;
    if b & 0x8000_0000 != 0 {
        f32::from_bits(b ^ 0x8000_0000)
    } else {
        f32::from_bits(!b)
    }
}

fn almost_equal(x: f32, y: f32, tol: f32) -> bool {
    (x - y).abs() < tol
}

/// Benjamini-Hochberg adjustment: the reweighting in floats, the ordering,
/// minima and gathering through the verified library.
fn bh_adjust(pvals: &Vec<f32>) -> Vec<f32> {
    let lp = pvals.len();
    let keys: Vec<u64> = pvals.iter().map(|&x| key_of(x)).collect();
    let o = order(&keys, true);
    let w: Vec<u64> = (1..=lp)
        .rev()
        .map(|i| key_of(lp as f32 / i as f32 * pvals[o[lp - i] - 1]))
        .collect();
    let adj = padjust_core(&w, &o, key_of(1.0));
    adj.iter().map(|&k| val_of(k)).collect()
}

#[test]
fn padjust_matches_reference_sorted() {
    let p: Vec<f32> = vec![0.005, 0.02, 0.03];
    let adj = bh_adjust(&p);
    let expected: [f32; 3] = [0.015, 0.03, 0.03];
    for i in 0..3 {
        assert!(almost_equal(adj[i], expected[i], 1e-6));
    }
}

#[test]
fn padjust_matches_reference_unsorted() {
    let p: Vec<f32> = vec![0.01, 0.04, 0.03, 0.005];
    let adj = bh_adjust(&p);
    let expected: [f32; 4] = [0.02, 0.04, 0.04, 0.02];
    for i in 0..4 {
        assert!(almost_equal(adj[i], expected[i], 1e-6));
    }
}

#[test]
fn padjust_equal_after_adjustment() {
    let p: Vec<f32> = vec![0.01, 0.02, 0.03, 0.04];
    let adj = bh_adjust(&p);
    for i in 0..4 {
        assert!(almost_equal(adj[i], 0.04, 1e-6));
    }
}

#[test]
fn padjust_matches_reference_with_ties() {
    let p: Vec<f32> = vec![0.01, 0.02, 0.04, 0.02];
    let adj = bh_adjust(&p);
    let expected: [f32; 4] = [0.026666667, 0.026666667, 0.04, 0.026666667];
    for i in 0..4 {
        assert!(almost_equal(adj[i], expected[i], 1e-6));
    }
    assert_eq!(adj[1], adj[3]);
}

#[test]
fn padjust_single_value() {
    let p: Vec<f32> = vec![0.2];
    let adj = bh_adjust(&p);
    assert!(almost_equal(adj[0], 0.2, 1e-7));
}

#[test]
fn padjust_core_applies_cap() {
    let w: Vec<u64> = vec![10, 5, 7];
    let o: Vec<usize> = vec![1, 2, 3];
    let adj = padjust_core(&w, &o, 6);
    assert_eq!(adj, vec![6, 5, 5]);
}

#[test]
fn padjust_sorted_input_stays_monotone() {
    let p: Vec<f32> = vec![0.001, 0.008, 0.039, 0.041, 0.042, 0.06];
    let adj = bh_adjust(&p);
    for i in 1..adj.len() {
        assert!(adj[i - 1] <= adj[i]);
    }
}

#[test]
fn padjust_dominates_raw_values() {
    let p: Vec<f32> = vec![0.02, 0.8, 0.001, 0.43, 0.1];
    let adj = bh_adjust(&p);
    for i in 0..p.len() {
        assert!(adj[i] >= p[i]);
        assert!(adj[i] <= 1.0);
    }
}

#[test]
fn padjust_input_unchanged() {
    let p: Vec<f32> = vec![0.02, 0.8, 0.001];
    let before = p.clone();
    let _ = bh_adjust(&p);
    assert_eq!(p, before);
}
