//! The cumulative normal, its density and its inverse.
use voltic::arith::Arith;
use voltic::double::Double;
use voltic::norm;

/// Arithmetic in hardware.
struct Machine;

impl Arith for Machine {
    fn plus(&self, a: Double, b: Double) -> Double {
        d(f(a) + f(b))
    }

    fn minus(&self, a: Double, b: Double) -> Double {
        d(f(a) - f(b))
    }

    fn times(&self, a: Double, b: Double) -> Double {
        d(f(a) * f(b))
    }

    fn over(&self, a: Double, b: Double) -> Double {
        d(f(a) / f(b))
    }

    fn sqrt(&self, a: Double) -> Double {
        d(f(a).sqrt())
    }

    fn exp(&self, a: Double) -> Double {
        d(f(a).exp())
    }

    fn ln(&self, a: Double) -> Double {
        d(f(a).ln())
    }
}

fn d(x: f64) -> Double {
    Double { bits: x.to_bits() }
}

fn f(x: Double) -> f64 {
    f64::from_bits(x.bits)
}

fn phi_as(x: f64) -> f64 {
    f(norm::phi_as(&Machine, d(x)))
}

fn phi_hart(x: f64) -> f64 {
    f(norm::phi_hart(&Machine, d(x)))
}

fn phi_west(x: f64) -> f64 {
    f(norm::phi_west(&Machine, d(x)))
}

fn phi_cody(x: f64) -> f64 {
    f(norm::phi_cody(&Machine, d(x)))
}

fn cody_erfc(x: f64) -> f64 {
    f(norm::cody_erfc(&Machine, d(x)))
}

fn erfcx(x: f64) -> f64 {
    f(norm::erfcx(&Machine, d(x)))
}

fn phi_pdf(x: f64) -> f64 {
    f(norm::phi_pdf(&Machine, d(x)))
}

fn phi_inv(p: f64) -> f64 {
    f(norm::phi_inv(&Machine, d(p)))
}



fn approx_eq(a: f64, b: f64, tol: f64) {
    assert!(
        (a - b).abs() < tol,
        "left={a} right={b} |Δ|={} tol={tol}",
        (a - b).abs()
    );
}

const REF: &[(f64, f64)] = &[
    (-5.0, 2.866_515_719_235_352_1e-7),
    (-3.0, 1.349_898_031_630_094_5e-3),
    (-1.96, 2.499_789_514_822_046e-2),
    (-1.0, 1.586_552_539_314_570_5e-1),
    (-0.5, 3.085_375_387_259_868_9e-1),
    (0.0, 5.0e-1),
    (0.25, 5.987_063_256_829_237e-1),
    (1.0, 8.413_447_460_685_429e-1),
    (1.96, 9.750_021_048_517_795e-1),
    (2.0, 9.772_498_680_518_208e-1),
    (3.0, 9.986_501_019_683_699e-1),
    (5.0, 9.999_997_133_484_281e-1),
    (8.0, 9.999_999_999_999_993e-1),
];

#[test]
fn west_matches_reference() {
    for &(x, y) in REF {
        let got = phi_west(x);
        approx_eq(got, y, 1e-12);
    }
}

#[test]
fn hart_matches_reference() {
    for &(x, y) in REF {
        let got = phi_hart(x);
        approx_eq(got, y, 1e-12);
    }
}

#[test]
fn cody_matches_reference() {
    for &(x, y) in REF {
        let got = phi_cody(x);
        approx_eq(got, y, 1e-14);
    }
}

#[test]
fn as_matches_reference_coarsely() {
    for &(x, y) in REF {
        if x.abs() > 6.0 {
            continue;
        }
        let got = phi_as(x);
        approx_eq(got, y, 1e-7);
    }
}

#[test]
fn phi_inv_recovers_reference() {
    for &(x, p) in REF {
        if !(1e-12..=1.0 - 1e-12).contains(&p) {
            continue;
        }
        let got = phi_inv(p);
        approx_eq(got, x, 1e-10);
    }
}

#[test]
fn phi_inv_is_inverse_of_phi() {
    for p in [
        1e-9_f64,
        1e-4,
        0.02425,
        0.05,
        0.2,
        0.5,
        0.7,
        0.97575,
        0.9999,
        1.0 - 1e-9,
    ] {
        let x = phi_inv(p);
        approx_eq(phi_hart(x), p, 1e-12);
    }
}

#[test]
fn symmetry() {
    for v in [0.1_f64, 0.5, 1.0, 1.7, 2.5, 3.3, 4.1, 6.0] {
        let p = v;
        let m = -v;
        approx_eq(phi_west(p) + phi_west(m), 1.0, 1e-12);
        approx_eq(phi_hart(p) + phi_hart(m), 1.0, 1e-12);
        approx_eq(phi_cody(p) + phi_cody(m), 1.0, 1e-15);
    }
}

#[test]
fn erfcx_matches_identity_in_centre() {
    for y in [0.0_f64, 0.1, 0.3, 0.5, 0.8, 1.0, 1.5, 2.0, 3.0, 4.0] {
        let got = erfcx(y);
        let erfc_y = cody_erfc(y);
        let expected = (y * y).exp() * erfc_y;
        assert!(
            (got - expected).abs() < 1e-13 * expected.max(1e-12),
            "erfcx({y}): got {got}, expected {expected}"
        );
    }
}

#[test]
fn erfcx_large_argument_asymptotic() {
    let one_over_sqrt_pi = 0.564_189_583_547_756_3_f64;
    for y in [5.0_f64, 8.0, 12.0, 20.0] {
        let got = erfcx(y);
        let asymp = one_over_sqrt_pi / y;
        let rel = (got - asymp).abs() / asymp;
        assert!(
            rel < 0.5 / (y * y),
            "erfcx({y}): {got} vs asymp {asymp} rel={rel}"
        );
    }
}

#[test]
fn erfcx_at_zero_is_one() {
    let got = erfcx(0.0);
    assert!((got - 1.0).abs() < 1e-15, "erfcx(0) = {got}, expected 1");
}

#[test]
fn pdf_is_derivative_of_cdf() {
    let h = 1e-6;
    for v in [-1.5_f64, -0.3, 0.0, 0.7, 2.0] {
        let num =
            (phi_west(v + h) - phi_west(v - h)) / (2.0 * h);
        approx_eq(num, phi_pdf(v), 1e-7);
    }
}

/// Every kernel returns a probability, also far out and for no number.
#[test]
fn kernels_stay_in_the_unit_interval() {
    for x in [f64::NEG_INFINITY, -1e300, -40.0, -1e-300, 0.0, 3.0, 38.0, 1e9, f64::INFINITY] {
        for p in [phi_as(x), phi_hart(x), phi_west(x), phi_cody(x)] {
            assert!((0.0..=1.0).contains(&p), "x={x} p={p}");
        }
    }
    assert_eq!(phi_west(-40.0), 0.0);
    assert_eq!(phi_west(40.0), 1.0);
    for x in [37.5, 40.0, 1e9, 1e300, f64::INFINITY] {
        assert_eq!((phi_hart(x), phi_hart(-x)), (1.0, 0.0), "x={x}");
        assert_eq!((phi_west(x), phi_west(-x)), (1.0, 0.0), "x={x}");
    }
    assert_eq!(phi_as(0.0) > 0.4999999, true);
}

/// The probit takes the ends of the unit interval to finite numbers.
#[test]
fn probit_is_finite_at_the_ends() {
    for p in [0.0, 1.0, -1.0, 2.0, 1e-320] {
        assert!(phi_inv(p).is_finite(), "p={p}");
    }
    assert!(phi_inv(0.0) < -30.0);
    assert!(phi_inv(1.0) > 8.0);
    assert_eq!(phi_inv(0.5), 0.0);
}

/// The density at zero is the reciprocal of the root of two pi.
#[test]
fn density_at_zero() {
    assert_eq!(phi_pdf(0.0), 0.398_942_280_401_432_7);
}

/// The survival probability of the law at equal arguments.
#[test]
fn survival_from_arguments() {
    let s = f(norm::ig_surv_from_uv(&Machine, d(0.7), d(0.7)));
    assert!((0.0..=1.0).contains(&s), "s={s}");
}
