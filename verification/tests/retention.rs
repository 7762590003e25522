use ankisim::fx::{ONE, fx_mul, fx_div};
use ankisim::retention::{retention_model, retained_fraction, neg_log2};

#[test]
fn retention_identity_default_pair() {
    let nine_tenths = 9 * ONE / 10;
    let five_halves = 5 * ONE / 2;
    assert_eq!(retention_model(nine_tenths, five_halves, five_halves), nine_tenths);
}

#[test]
fn retention_identity_other_pairs() {
    assert_eq!(retention_model(ONE / 2, 3 * ONE, 3 * ONE), ONE / 2);
    assert_eq!(retention_model(ONE / 7, ONE, ONE), ONE / 7);
    assert_eq!(retention_model(ONE - 1, 2 * ONE, 2 * ONE), ONE - 1);
}

#[test]
fn retention_monotone_in_interval_factor() {
    let m = 9 * ONE / 10;
    let mf = 5 * ONE / 2;
    let mut factors = Vec::new();
    let mut f = ONE / 2;
    while f <= 10 * ONE {
        factors.push(f);
        f += ONE / 4;
    }
    let mut prev = ONE;
    for f in factors {
        let r = retention_model(m, mf, f);
        assert!(r <= prev, "retention grew from {} to {} at factor {}", prev, r, f);
        prev = r;
    }
    // Far-apart factors are strictly ordered.
    assert!(retention_model(m, mf, 5 * ONE) < retention_model(m, mf, 5 * ONE / 2));
    assert!(retention_model(m, mf, 5 * ONE / 2) < retention_model(m, mf, ONE));
}

#[test]
fn retention_bounds_strictly_inside_unit_interval() {
    let ratios = [1u64, ONE / 100, ONE / 2, 9 * ONE / 10, ONE - 1];
    let factors = [0u64, 1, ONE / 2, ONE, 5 * ONE / 2, 10 * ONE, u64::MAX];
    for &m in &ratios {
        for &f in &factors {
            let r = retention_model(m, 5 * ONE / 2, f);
            assert!(r >= 1, "retention hit zero for m={} f={}", m, f);
            assert!(r < ONE, "retention reached one for m={} f={}", m, f);
        }
    }
}

#[test]
fn retention_exact_square_of_reference() {
    // Doubling the interval factor squares the reference ratio:
    // 0.9 ^ 2 = 0.81.
    let r = retention_model(9 * ONE / 10, 5 * ONE / 2, 5 * ONE);
    let expected = (0.81f64 * ONE as f64) as i64;
    assert!((r as i64 - expected).abs() <= 300, "got {}, expected about {}", r, expected);
}

#[test]
fn retention_degenerate_inputs_fail_soft() {
    // A measured ratio of zero has no defined logarithm: the model yields
    // zero recall.
    assert_eq!(retention_model(0, 5 * ONE / 2, 5 * ONE / 2), 0);
    // A measured ratio at or above one is clamped just under one.
    assert_eq!(retention_model(ONE, 5 * ONE / 2, 5 * ONE / 2), ONE - 1);
    assert_eq!(retention_model(3 * ONE, 5 * ONE / 2, ONE), ONE - 1);
    // A measured interval factor of zero acts as an infinite exponent.
    let r = retention_model(9 * ONE / 10, 0, 5 * ONE / 2);
    assert!(r >= 1 && r < ONE);
    assert!(r <= 2);
}

#[test]
fn neg_log2_matches_float_log() {
    for &m in &[1u64, 7, ONE / 100, ONE / 3, ONE / 2, 9 * ONE / 10, ONE - 1, ONE] {
        let l = neg_log2(m);
        let exact = -((m as f64 / ONE as f64).log2()) * ONE as f64;
        assert!(
            (l as f64 - exact).abs() <= 64.0,
            "neg_log2({}) == {}, expected about {}",
            m,
            l,
            exact
        );
    }
}

#[test]
fn retained_fraction_matches_float_formula() {
    let r = 9 * ONE / 10;
    let q = retained_fraction(r);
    let rf = r as f64 / ONE as f64;
    let exact = (1.0 - rf) / (-rf.ln()) * ONE as f64;
    assert!((q as f64 - exact).abs() <= 500.0, "got {}, expected about {}", q, exact);
}

#[test]
fn fx_ops_exact_values() {
    assert_eq!(fx_mul(ONE, ONE), ONE);
    assert_eq!(fx_mul(2 * ONE, 5 * ONE / 2), 5 * ONE);
    assert_eq!(fx_mul(3, ONE / 2), 1);
    assert_eq!(fx_div(ONE, 2 * ONE), ONE / 2);
    assert_eq!(fx_div(5 * ONE, 2 * ONE), 5 * ONE / 2);
    assert_eq!(fx_div(1, 0), u64::MAX);
    assert_eq!(fx_mul(u64::MAX, u64::MAX), u64::MAX);
}
