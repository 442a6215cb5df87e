//! A status for every refusal.
use voltic::arith::Arith;
use voltic::direct;
use voltic::double::Double;
use voltic::kind::OptionKind;
use voltic::typed;
use voltic::typed::{ImpliedVolResult, ImpliedVolStatus};

const VOL_MIN: f64 = 0.01;
const VOL_MAX: f64 = 5.0;

/// Arithmetic in hardware.
struct Machine;

impl Arith for Machine {
    fn plus(&self, a: Double, b: Double) -> Double {
        d(f(a) + f(b))
    }

    fn minus(&self, a: Double, b: Double) -> Double {
        d(f(a) - f(b))
    }

    fn times(&self, a: Double, b: Double) -> Double {
        d(f(a) * f(b))
    }

    fn over(&self, a: Double, b: Double) -> Double {
        d(f(a) / f(b))
    }

    fn sqrt(&self, a: Double) -> Double {
        d(f(a).sqrt())
    }

    fn exp(&self, a: Double) -> Double {
        d(f(a).exp())
    }

    fn ln(&self, a: Double) -> Double {
        d(f(a).ln())
    }
}

fn d(x: f64) -> Double {
    Double { bits: x.to_bits() }
}

fn f(x: Double) -> f64 {
    f64::from_bits(x.bits)
}

fn ds(x: &[f64]) -> Vec<Double> {
    x.iter().map(|v| d(*v)).collect()
}

fn fs(x: &[Double]) -> Vec<f64> {
    x.iter().map(|v| f(*v)).collect()
}

fn bs_price(s: &[f64], k: &[f64], t: &[f64], r: &[f64], v: &[f64], kind: &[OptionKind]) -> Vec<f64> {
    fs(&direct::bs_price(&Machine, &ds(s), &ds(k), &ds(t), &ds(r), &ds(v), kind))
}

fn implied_vol_typed(
    s: f64,
    k: f64,
    t: f64,
    r: f64,
    p: f64,
    kind: OptionKind,
) -> ImpliedVolResult {
    typed::implied_vol_typed(&Machine, d(s), d(k), d(t), d(r), d(p), kind)
}

fn implied_vol_typed_batch(
    s: &[f64],
    k: &[f64],
    t: &[f64],
    r: &[f64],
    p: &[f64],
    kind: &[OptionKind],
) -> Vec<ImpliedVolResult> {
    typed::implied_vol_typed_batch(&Machine, &ds(s), &ds(k), &ds(t), &ds(r), &ds(p), kind)
}

fn assert_computed(res: ImpliedVolResult, expected: f64, tol: f64, label: &str) {
    assert!(
        matches!(res.status, ImpliedVolStatus::Computed),
        "{label}: expected Computed, got {:?} value={}",
        res.status,
        f(res.value)
    );
    assert!(
        f(res.value).is_finite() && (f(res.value) - expected).abs() < tol,
        "{label}: value {} not within {} of {}",
        f(res.value),
        tol,
        expected
    );
}

#[test]
fn variant_computed_atm_call() {
    let s = [100.0];
    let k = [100.0];
    let t = [1.0];
    let r = [0.02];
    let v = [0.30];
    let kind = [OptionKind::Call];
    let p = bs_price(&s, &k, &t, &r, &v, &kind);
    let res = implied_vol_typed(s[0], k[0], t[0], r[0], p[0], kind[0]);
    assert_computed(res, 0.30, 1e-9, "ATM call");
}

#[test]
fn variant_computed_atm_call_batch() {
    let s = [100.0];
    let k = [100.0];
    let t = [1.0];
    let r = [0.02];
    let v = [0.30];
    let kind = [OptionKind::Call];
    let p = bs_price(&s, &k, &t, &r, &v, &kind);
    let res = implied_vol_typed_batch(&s, &k, &t, &r, &p, &kind);
    assert_eq!(res.len(), 1);
    assert_computed(res[0], 0.30, 1e-9, "ATM call (batch)");
}

#[test]
fn variant_below_vol_min_sub_vol_min_root() {
    let s = [100.0];
    let k = [100.0];
    let t = [1.0];
    let r = [0.02];
    let v = [0.005_f64];
    let kind = [OptionKind::Call];
    let p = bs_price(&s, &k, &t, &r, &v, &kind);
    let res = implied_vol_typed(s[0], k[0], t[0], r[0], p[0], kind[0]);
    match res.status {
        ImpliedVolStatus::BelowVolMin { computed } => {
            let computed = f(computed);
            assert!(
                computed.is_finite() && (computed - 0.005).abs() < 1e-8,
                "BelowVolMin computed = {} (want ~0.005)",
                computed
            );
            assert_eq!(
                f(res.value), computed,
                "value must mirror computed for BelowVolMin"
            );
            assert!(
                computed < VOL_MIN,
                "computed {} must be < VOL_MIN",
                computed
            );
        }
        other => panic!("expected BelowVolMin, got {:?}", other),
    }
}

#[test]
fn variant_above_vol_max_super_vol_max_root() {
    let s = [100.0];
    let k = [100.0];
    let t = [1.0];
    let r = [0.0];
    let v = [6.0_f64];
    let kind = [OptionKind::Call];
    let p = bs_price(&s, &k, &t, &r, &v, &kind);
    let res = implied_vol_typed(s[0], k[0], t[0], r[0], p[0], kind[0]);
    match res.status {
        ImpliedVolStatus::AboveVolMax { computed } => {
            let computed = f(computed);
            assert!(
                computed.is_finite() && (computed - 6.0).abs() < 1e-6,
                "AboveVolMax computed = {} (want ~6.0)",
                computed
            );
            assert_eq!(f(res.value), computed);
            assert!(
                computed > VOL_MAX,
                "computed {} must be > VOL_MAX",
                computed
            );
        }
        other => panic!("expected AboveVolMax, got {:?}", other),
    }
}

#[test]
fn variant_below_intrinsic_zero_premium() {
    let s = 100.0;
    let k = 100.0;
    let t = 1.0;
    let r = 0.0;
    let p = 0.0;
    let res = implied_vol_typed(s, k, t, r, p, OptionKind::Call);
    assert!(
        matches!(res.status, ImpliedVolStatus::BelowIntrinsic),
        "expected BelowIntrinsic, got {:?} value={}",
        res.status,
        f(res.value)
    );
    assert!(f(res.value).is_nan(), "BelowIntrinsic value must be NaN");
}

#[test]
fn variant_below_intrinsic_itm_call() {
    let s = 110.0;
    let k = 100.0;
    let t = 1.0;
    let r = 0.0;
    let p = 8.0;
    let res = implied_vol_typed(s, k, t, r, p, OptionKind::Call);
    assert!(
        matches!(res.status, ImpliedVolStatus::BelowIntrinsic),
        "expected BelowIntrinsic, got {:?}",
        res.status
    );
}

#[test]
fn variant_above_maximum_call_above_spot() {
    let s = 100.0;
    let k = 100.0;
    let t = 1.0;
    let r = 0.0;
    let p = 200.0;
    let res = implied_vol_typed(s, k, t, r, p, OptionKind::Call);
    assert!(
        matches!(res.status, ImpliedVolStatus::AboveMaximum),
        "expected AboveMaximum, got {:?}",
        res.status
    );
    assert!(f(res.value).is_nan());
}

#[test]
fn variant_above_maximum_put_above_strike() {
    let s = 100.0;
    let k = 100.0;
    let t = 1.0;
    let r = 0.0;
    let p = 200.0;
    let res = implied_vol_typed(s, k, t, r, p, OptionKind::Put);
    assert!(
        matches!(res.status, ImpliedVolStatus::AboveMaximum),
        "expected AboveMaximum, got {:?}",
        res.status
    );
}

#[test]
fn variant_non_finite_nan_spot() {
    let res = implied_vol_typed(f64::NAN, 100.0, 1.0, 0.0, 10.0, OptionKind::Call);
    assert!(
        matches!(res.status, ImpliedVolStatus::NonFinite),
        "expected NonFinite, got {:?}",
        res.status
    );
    assert!(f(res.value).is_nan());
}

#[test]
fn variant_non_finite_zero_tte() {
    let res = implied_vol_typed(100.0, 100.0, 0.0, 0.0, 5.0, OptionKind::Call);
    assert!(
        matches!(res.status, ImpliedVolStatus::NonFinite),
        "expected NonFinite (T=0), got {:?}",
        res.status
    );
}

#[test]
fn variant_non_finite_negative_spot() {
    let res = implied_vol_typed(-1.0, 100.0, 1.0, 0.0, 5.0, OptionKind::Call);
    assert!(
        matches!(res.status, ImpliedVolStatus::NonFinite),
        "expected NonFinite (neg spot), got {:?}",
        res.status
    );
}

#[test]
fn variant_non_finite_inf_price() {
    let res = implied_vol_typed(100.0, 100.0, 1.0, 0.0, f64::INFINITY, OptionKind::Call);
    assert!(
        matches!(res.status, ImpliedVolStatus::NonFinite),
        "expected NonFinite (Inf price), got {:?}",
        res.status
    );
}

#[test]
fn variant_failed_to_converge_deep_itm_floor() {
    let s: f64 = 100.0;
    let k: f64 = 200.0;
    let t: f64 = 1.0 / 365.0;
    let r: f64 = 0.0;
    let p: f64 = f64::from_bits(1);
    let res = implied_vol_typed(s, k, t, r, p, OptionKind::Call);
    match res.status {
        ImpliedVolStatus::FailedToConverge
        | ImpliedVolStatus::BelowIntrinsic
        | ImpliedVolStatus::BelowVolMin { .. }
        | ImpliedVolStatus::AboveVolMax { .. } => {
        }
        ImpliedVolStatus::Computed => {
            panic!(
                "regime is below the f64 conditioning floor; Computed = {} \
                 would be a wrong-finite claim.",
                f(res.value)
            );
        }
        other => panic!("unexpected status {:?}", other),
    }
}

#[test]
fn variant_failed_to_converge_near_upper_bound() {
    let s: f64 = 100.0;
    let k: f64 = 100.0;
    let t: f64 = 1.0;
    let r: f64 = 0.0;
    let p: f64 = s - f64::EPSILON * s;
    let res = implied_vol_typed(s, k, t, r, p, OptionKind::Call);
    match res.status {
        ImpliedVolStatus::AboveVolMax { .. }
        | ImpliedVolStatus::FailedToConverge
        | ImpliedVolStatus::AboveMaximum => {}
        other => panic!(
            "expected AboveVolMax / FailedToConverge / AboveMaximum, got {:?} value={}",
            other, f(res.value)
        ),
    }
}

#[test]
fn batch_status_distribution() {
    let s_ref = [100.0, 100.0, 100.0, 100.0, 100.0, f64::NAN, 100.0, 100.0];
    let k_ref = [100.0, 100.0, 100.0, 100.0, 100.0, 100.0, 100.0, 100.0];
    let t_ref = [1.0, 1.0, 1.0, 1.0, 1.0, 1.0, 0.0, 1.0];
    let r_ref = [0.0; 8];
    let kind_ref = [OptionKind::Call; 8];

    let sigs = [0.30, 0.005, 6.0, 0.0, 0.0, 0.0, 0.0, 0.20];
    let p_well = bs_price(&s_ref, &k_ref, &t_ref, &r_ref, &sigs, &kind_ref);

    let mut p = p_well;
    p[3] = 0.0;
    p[4] = 101.0;
    p[5] = 10.0;
    p[6] = 10.0;

    let res = implied_vol_typed_batch(&s_ref, &k_ref, &t_ref, &r_ref, &p, &kind_ref);

    assert!(matches!(res[0].status, ImpliedVolStatus::Computed));
    assert!(matches!(
        res[1].status,
        ImpliedVolStatus::BelowVolMin { .. }
    ));
    assert!(matches!(
        res[2].status,
        ImpliedVolStatus::AboveVolMax { .. }
    ));
    assert!(matches!(res[3].status, ImpliedVolStatus::BelowIntrinsic));
    assert!(matches!(res[4].status, ImpliedVolStatus::AboveMaximum));
    assert!(matches!(res[5].status, ImpliedVolStatus::NonFinite));
    assert!(matches!(res[6].status, ImpliedVolStatus::NonFinite));
    assert!(matches!(res[7].status, ImpliedVolStatus::Computed));
    assert!((f(res[7].value) - 0.20).abs() < 1e-9);
}

#[test]
fn to_f64_mapping_is_legacy_compat() {
    let computed = ImpliedVolResult {
        value: d(0.30),
        status: ImpliedVolStatus::Computed,
    };
    assert_eq!(f(computed.to_f64_nan_on_boundary()), 0.30);

    let below = ImpliedVolResult {
        value: d(0.005),
        status: ImpliedVolStatus::BelowVolMin { computed: d(0.005) },
    };
    assert!(f(below.to_f64_nan_on_boundary()).is_nan());

    let above = ImpliedVolResult {
        value: d(6.0),
        status: ImpliedVolStatus::AboveVolMax { computed: d(6.0) },
    };
    assert!(f(above.to_f64_nan_on_boundary()).is_nan());

    for status in &[
        ImpliedVolStatus::BelowIntrinsic,
        ImpliedVolStatus::AboveMaximum,
        ImpliedVolStatus::NonFinite,
        ImpliedVolStatus::FailedToConverge,
    ] {
        let r = ImpliedVolResult {
            value: d(f64::NAN),
            status: *status,
        };
        assert!(f(r.to_f64_nan_on_boundary()).is_nan());
    }
}

#[test]
fn boundary_sigma_exactly_vol_min() {
    let s = [100.0];
    let k = [100.0];
    let t = [1.0];
    let r = [0.0];
    let v = [VOL_MIN];
    let kind = [OptionKind::Call];
    let p = bs_price(&s, &k, &t, &r, &v, &kind);
    let res = implied_vol_typed(s[0], k[0], t[0], r[0], p[0], kind[0]);
    assert!(
        matches!(res.status, ImpliedVolStatus::Computed),
        "σ = VOL_MIN should be Computed, got {:?} value={}",
        res.status,
        f(res.value)
    );
    assert!((f(res.value) - VOL_MIN).abs() < 1e-9);
}

#[test]
fn boundary_sigma_one_ulp_below_vol_min() {
    let s = [100.0];
    let k = [100.0];
    let t = [1.0];
    let r = [0.0];
    let v = [VOL_MIN - f64::EPSILON * VOL_MIN];
    let kind = [OptionKind::Call];
    let p = bs_price(&s, &k, &t, &r, &v, &kind);
    let res = implied_vol_typed(s[0], k[0], t[0], r[0], p[0], kind[0]);
    match res.status {
        ImpliedVolStatus::BelowVolMin { computed } => {
            let computed = f(computed);
            assert!(computed < VOL_MIN);
        }
        ImpliedVolStatus::Computed => {
            assert!((f(res.value) - VOL_MIN).abs() < 1e-9);
        }
        other => panic!("unexpected status {:?}", other),
    }
}
