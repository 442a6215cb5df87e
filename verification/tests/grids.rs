//! Grids of options.
use voltic::arith::Arith;
use voltic::double::Double;
use voltic::adversarial;
use voltic::adversarial::Row;
use voltic::grids;
use voltic::grids::{Candidate, GridRow, ATM_FLOOR, WING_FLOOR};
use voltic::kind::OptionKind;
use voltic::plan::{ExpectedStatus, Regime};
use voltic::typed;
use voltic::typed::ImpliedVolStatus;

/// Arithmetic in hardware.
struct Machine;

impl Arith for Machine {
    fn plus(&self, a: Double, b: Double) -> Double {
        d(f(a) + f(b))
    }

    fn minus(&self, a: Double, b: Double) -> Double {
        d(f(a) - f(b))
    }

    fn times(&self, a: Double, b: Double) -> Double {
        d(f(a) * f(b))
    }

    fn over(&self, a: Double, b: Double) -> Double {
        d(f(a) / f(b))
    }

    fn sqrt(&self, a: Double) -> Double {
        d(f(a).sqrt())
    }

    fn exp(&self, a: Double) -> Double {
        d(f(a).exp())
    }

    fn ln(&self, a: Double) -> Double {
        d(f(a).ln())
    }
}

fn d(x: f64) -> Double {
    Double { bits: x.to_bits() }
}

fn f(x: Double) -> f64 {
    f64::from_bits(x.bits)
}

#[test]
fn evenly_spaced() {
    let x = grids::linspace(&Machine, d(85.0), d(115.0), 31);
    assert_eq!(x.len(), 31);
    for i in 0..31 {
        assert_eq!(f(x[i]), 85.0 + i as f64);
    }
    assert_eq!(f(grids::linspace(&Machine, d(3.0), d(9.0), 1)[0]), 3.0);
    assert_eq!(grids::linspace(&Machine, d(3.0), d(9.0), 0).len(), 0);
}

/// The near-money grid, raw and after its filter.
#[test]
fn near_money_grid() {
    let raw = grids::atm_candidates(&Machine);
    assert_eq!(raw.len(), 49_600);
    assert_eq!(f(raw[0].strike), 85.0);
    assert_eq!(f(raw[49_599].strike), 115.0);
    assert_eq!(f(raw[0].tte), 0.01);
    assert!(raw[0].kind == OptionKind::Put);
    assert!(raw[15 * 1600].kind == OptionKind::Call);
    let rows = grids::keep_priced(&Machine, &raw, d(f64::from_bits(ATM_FLOOR)));
    assert_eq!(rows.len(), 48_831);
}

/// The wing grid has its documented number of rows.
#[test]
fn wing_grid() {
    let raw = grids::wing_candidates(&Machine);
    assert_eq!(raw.len(), 520);
    let rows = grids::keep_priced(&Machine, &raw, d(f64::from_bits(WING_FLOOR)));
    assert_eq!(rows.len(), 360);
    let wing = rows.iter().filter(|r| grids::wing_row(&Machine, r)).count();
    assert!(wing > 0 && wing < 360, "wing {wing}");
}

/// The abscissa of the wing grid in its two arms.
#[test]
fn wing_abscissa() {
    assert_eq!(f(grids::phi_inv(&Machine, d(0.5))), 2.506628277459239);
    let left = f(grids::phi_inv(&Machine, d(0.01)));
    let right = f(grids::phi_inv(&Machine, d(0.99)));
    assert!((left + 1.783278968876775).abs() < 1e-12);
    assert!((right - 1.783278968876775).abs() < 1e-12);
}

/// A row in the wing, one near the money, and one too far out.
#[test]
fn wing_rows() {
    let row = |strike: f64, price: f64| GridRow {
        option: Candidate {
            spot: d(1.0),
            strike: d(strike),
            tte: d(1.0),
            rate: d(0.0),
            sigma: d(1.0),
            kind: OptionKind::Call,
        },
        price: d(price),
    };
    assert!(grids::wing_row(&Machine, &row(5.0_f64.exp(), 0.02)));
    assert!(!grids::wing_row(&Machine, &row(1.0, 0.02)));
    assert!(!grids::wing_row(&Machine, &row(9.0_f64.exp(), 0.02)));
}

/// The smile at the spot, and its strikes.
#[test]
fn smile_strip() {
    let rows = grids::smile_candidates(&Machine);
    assert_eq!(rows.len(), 13);
    assert_eq!(f(rows[0].strike), 70.0);
    assert_eq!(f(rows[12].strike), 130.0);
    assert_eq!(f(rows[6].sigma), 0.2);
    assert!((f(rows[0].sigma) - (0.2 + 0.3 * 0.09 + 0.03)).abs() < 1e-12);
    assert_eq!(f(rows[3].tte), 30.0 / 365.0);
}

/// Every planned row that must be refused is refused with the planned status,
/// and every computed row lies near its volatility.
#[test]
fn stress_rows_get_their_status() {
    let rows = adversarial::build_grid(&Machine);
    assert_eq!(rows.len(), 3082);
    let count = |g: fn(&Row) -> bool| rows.iter().filter(|r| g(r)).count();
    assert_eq!(count(|r| r.regime == Regime::Sweep), 2450);
    assert_eq!(count(|r| r.regime == Regime::SubnormalPrice), 528);
    assert_eq!(count(|r| r.regime == Regime::SigmaBelowVolMax), 3);
    let col = |g: fn(&Row) -> Double| rows.iter().map(g).collect::<Vec<Double>>();
    let kind: Vec<OptionKind> = rows.iter().map(|r| r.kind).collect();
    let out = typed::implied_vol_typed_batch(
        &Machine,
        &col(|r| r.s),
        &col(|r| r.k),
        &col(|r| r.t),
        &col(|r| r.r),
        &col(|r| r.p),
        &kind,
    );
    for (i, row) in rows.iter().enumerate() {
        let got = adversarial::status_label(out[i].status);
        match row.expected {
            ExpectedStatus::NonFinite
            | ExpectedStatus::BelowIntrinsic
            | ExpectedStatus::AboveMaximum => {
                assert_eq!(got, adversarial::expected_label(row.expected), "row {i}");
                assert!(f(out[i].value).is_nan(), "row {i}");
            }
            ExpectedStatus::Computed => {
                if got == "Computed" {
                    let err = (f(out[i].value) - f(row.sigma_true)).abs();
                    assert!(err < 1e-5, "row {i}: {err:e}");
                }
            }
            _ => {}
        }
    }
}

/// Labels and what a status holds.
#[test]
fn labels_of_statuses() {
    let all = [
        (ImpliedVolStatus::Computed, "Computed", None),
        (ImpliedVolStatus::BelowVolMin { computed: d(0.005) }, "BelowVolMin", Some(0.005)),
        (ImpliedVolStatus::AboveVolMax { computed: d(6.0) }, "AboveVolMax", Some(6.0)),
        (ImpliedVolStatus::BelowIntrinsic, "BelowIntrinsic", None),
        (ImpliedVolStatus::AboveMaximum, "AboveMaximum", None),
        (ImpliedVolStatus::NonFinite, "NonFinite", None),
        (ImpliedVolStatus::FailedToConverge, "FailedToConverge", None),
    ];
    for (s, label, held) in all {
        assert_eq!(adversarial::status_label(s), label);
        assert_eq!(adversarial::status_computed(s).map(f), held);
    }
    assert_eq!(adversarial::expected_label(ExpectedStatus::NonFinite), "NonFinite");
    assert_eq!(adversarial::regime_label(Regime::Sweep), "PARAMETRIZED_SWEEP");
}
