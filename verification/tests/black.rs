//! The normalised price and its derivatives.
use voltic::arith::Arith;
use voltic::black;
use voltic::double::Double;
use voltic::norm;

/// Arithmetic in hardware.
struct Machine;

impl Arith for Machine {
    fn plus(&self, a: Double, b: Double) -> Double {
        d(f(a) + f(b))
    }

    fn minus(&self, a: Double, b: Double) -> Double {
        d(f(a) - f(b))
    }

    fn times(&self, a: Double, b: Double) -> Double {
        d(f(a) * f(b))
    }

    fn over(&self, a: Double, b: Double) -> Double {
        d(f(a) / f(b))
    }

    fn sqrt(&self, a: Double) -> Double {
        d(f(a).sqrt())
    }

    fn exp(&self, a: Double) -> Double {
        d(f(a).exp())
    }

    fn ln(&self, a: Double) -> Double {
        d(f(a).ln())
    }
}

fn d(x: f64) -> Double {
    Double { bits: x.to_bits() }
}

fn f(x: Double) -> f64 {
    f64::from_bits(x.bits)
}

fn b_normalized(x: f64, sigma: f64) -> f64 {
    f(black::b_normalized(&Machine, d(x), d(sigma)))
}

fn b_prime(x: f64, sigma: f64) -> f64 {
    f(black::b_prime(&Machine, d(x), d(sigma)))
}

fn b_double_prime(x: f64, sigma: f64) -> f64 {
    f(black::b_double_prime(&Machine, d(x), d(sigma)))
}

fn b_triple_prime(x: f64, sigma: f64) -> f64 {
    f(black::b_triple_prime(&Machine, d(x), d(sigma)))
}

fn b_max(x: f64) -> f64 {
    f(black::b_max(&Machine, d(x)))
}

fn sigma_c(x: f64) -> f64 {
    f(black::sigma_c(&Machine, d(x)))
}

fn phi_hart(x: f64) -> f64 {
    f(norm::phi_hart(&Machine, d(x)))
}

/// The textbook difference of two normal probabilities.
fn b_normalized_naive(x: f64, sigma: f64) -> f64 {
    let h = x / sigma;
    let t = 0.5 * sigma;
    (0.5 * x).exp() * phi_hart(h + t) - (-0.5 * x).exp() * phi_hart(h - t)
}




#[test]
fn b_at_forward_matches_erf_form() {
    for &sigma_val in &[0.01_f64, 0.05, 0.2, 0.5, 1.0, 2.0, 4.0] {
        let x = 0.0;
        let s = sigma_val;
        let got = b_normalized(x, s);
        let expected = 2.0 * phi_hart(0.5 * sigma_val) - 1.0;
        assert!(
            (got - expected).abs() < 1e-14,
            "b(0, {sigma_val}) = {got}, expected {expected}, diff {:e}",
            (got - expected).abs()
        );
    }
}

#[test]
fn b_bounded_by_b_max() {
    let mut bad = 0;
    for &x_val in &[0.0_f64, -0.1, -0.5, -1.0, -2.0, -5.0] {
        for &sigma_val in &[0.01_f64, 0.1, 0.5, 1.0, 2.0, 5.0] {
            let x = x_val;
            let s = sigma_val;
            let b = b_normalized(x, s);
            let bm = b_max(x);
            if !(b >= 0.0 && b <= bm + 1e-15) {
                println!("b({x_val}, {sigma_val}) = {b} not in [0, {bm}]");
                bad += 1;
            }
        }
    }
    assert_eq!(bad, 0, "{bad} (x, σ) pairs violated 0 ≤ b ≤ b_max");
}

#[test]
fn b_prime_matches_finite_difference() {
    for &x_val in &[0.0_f64, -0.1, -0.5, -1.0] {
        for &sigma_val in &[0.1_f64, 0.3, 0.7, 1.5] {
            let h = 1e-6;
            let x = x_val;
            let s_plus = (sigma_val + h);
            let s_minus = (sigma_val - h);
            let s = sigma_val;
            let fd = (b_normalized(x, s_plus) - b_normalized(x, s_minus)) / (2.0 * h);
            let analytic = b_prime(x, s);
            let err = (fd - analytic).abs();
            assert!(
                err < 1e-7,
                "b'({x_val}, {sigma_val}): analytic={analytic} fd={fd} err={err:e}"
            );
        }
    }
}

#[test]
fn b_small_sigma_matches_asymptotic_3_3() {
    for (x_val, sigma_small) in [(-0.5_f64, 0.1_f64), (-1.0, 0.2), (-2.0, 0.4)] {
        let x = x_val;
        let s = sigma_small;
        let b = b_normalized(x, s);
        let abs_x = x_val.abs();
        let z = -abs_x / (3.0_f64.sqrt() * sigma_small);
        let phi_z = phi_hart(z);
        let b_asymp =
            (2.0 * std::f64::consts::PI * abs_x / (3.0 * 3.0_f64.sqrt())) * phi_z.powi(3);
        let ratio = b / b_asymp;
        assert!(
            b > 0.0 && b_asymp > 0.0 && (0.3..=3.0).contains(&ratio),
            "x={x_val} σ={sigma_small}: b={b} b_asymp={b_asymp} ratio={ratio}"
        );
    }
}

#[test]
fn b_large_sigma_matches_asymptotic_3_4() {
    for &x_val in &[0.0_f64, -0.5, -1.0] {
        let sigma_large = 5.0_f64;
        let x = x_val;
        let s = sigma_large;
        let b = b_normalized(x, s);
        let bm = b_max(x);
        let phi_neg = phi_hart(-0.5 * sigma_large);
        let deficit = bm - b;
        let asymp_deficit = 2.0 * phi_neg;
        let ratio = deficit / asymp_deficit;
        assert!(
            (0.5..=2.0).contains(&ratio),
            "x={x_val} σ={sigma_large}: b_max−b={deficit} 2Φ(−σ/2)={asymp_deficit} ratio={ratio}"
        );
    }
}

#[test]
fn b_double_prime_matches_fd_of_bprime() {
    for &x_val in &[0.0_f64, -0.1, -0.5, -1.0] {
        for &sigma_val in &[0.1_f64, 0.3, 0.7, 1.5] {
            let h = 1e-6;
            let x = x_val;
            let fd = (b_prime(x, (sigma_val + h))
                - b_prime(x, (sigma_val - h)))
                / (2.0 * h);
            let analytic = b_double_prime(x, sigma_val);
            assert!(
                (fd - analytic).abs() < 1e-6,
                "b''({x_val}, {sigma_val}): analytic={analytic} fd={fd}"
            );
        }
    }
}

#[test]
fn b_triple_prime_matches_fd_of_bdoubleprime() {
    for &x_val in &[0.0_f64, -0.1, -0.5, -1.0] {
        for &sigma_val in &[0.2_f64, 0.5, 1.0, 1.5] {
            let h = 1e-5;
            let x = x_val;
            let fd = (b_double_prime(x, (sigma_val + h))
                - b_double_prime(x, (sigma_val - h)))
                / (2.0 * h);
            let analytic = b_triple_prime(x, sigma_val);
            assert!(
                (fd - analytic).abs() < 1e-4,
                "b'''({x_val}, {sigma_val}): analytic={analytic} fd={fd}"
            );
        }
    }
}

#[test]
fn b_double_prime_zero_at_sigma_c() {
    for &x_val in &[-0.1_f64, -0.5, -1.0, -2.0] {
        let sc = (2.0 * x_val.abs()).sqrt();
        let x = x_val;
        let val = b_double_prime(x, sc);
        assert!(val.abs() < 1e-15, "b''(σ_c) for x={x_val}: {val}");
    }
}

#[test]
fn sigma_c_is_inflection_point() {
    for &x_val in &[-0.1_f64, -0.5, -1.0, -2.0] {
        let sc = (2.0 * x_val.abs()).sqrt();
        let h = 1e-5;
        let x = x_val;
        let bpp_fd = (b_prime(x, (sc + h))
            - b_prime(x, (sc - h)))
            / (2.0 * h);
        assert!(
            bpp_fd.abs() < 1e-4,
            "x={x_val} σ_c={sc}: b''(σ_c)≈{bpp_fd} should be ~0"
        );
    }
}

#[test]
fn scalar_simd_consistency() {
    let x_vals = [-0.1_f64, -0.5, -1.0, 0.0, -0.3, -0.7, -1.5, -2.5];
    let sigma_vals = [0.5_f64, 0.7, 0.8, 1.0, 0.6, 0.9, 1.5, 3.0];
    for i in 0..8 {
        let lane = b_normalized(x_vals[i], sigma_vals[i]);
        let naive = b_normalized_naive(x_vals[i], sigma_vals[i]);
        let err = (lane - naive).abs();
        let rel = err / naive.abs().max(1e-15);
        assert!(
            rel < 1e-12,
            "lane {i}: erfcx form {} vs naive {} rel={rel:e}",
            lane,
            naive
        );
    }
}

#[test]
fn erfcx_form_agrees_with_naive_in_centre() {
    for &x_val in &[0.0_f64, -0.1, -0.3, -0.5, -1.0] {
        for &sigma_val in &[1.0_f64, 1.5, 2.0] {
            if x_val.abs() / sigma_val > 1.5 {
                continue;
            }
            let b_new = b_normalized(x_val, sigma_val);
            let b_old = b_normalized_naive(x_val, sigma_val);
            let rel = ((b_new - b_old).abs()) / b_old.abs().max(1e-15);
            assert!(
                rel < 1e-14,
                "strict centre x={x_val} σ={sigma_val}: erfcx={b_new} naive={b_old} rel={rel:e}"
            );
        }
    }
    for &x_val in &[-0.5_f64, -1.0, -1.5] {
        for &sigma_val in &[0.5_f64, 0.7, 1.0] {
            if x_val.abs() / sigma_val > 3.5 {
                continue;
            }
            let b_new = b_normalized(x_val, sigma_val);
            let b_old = b_normalized_naive(x_val, sigma_val);
            let rel = ((b_new - b_old).abs()) / b_old.abs().max(1e-15);
            assert!(
                rel < 1e-10,
                "wider centre x={x_val} σ={sigma_val}: erfcx={b_new} naive={b_old} rel={rel:e}"
            );
        }
    }
}

#[test]
fn erfcx_form_extends_to_deep_otm() {
    for (x_val, sigma_val) in [
        (-2.0_f64, 0.05_f64),
        (-3.0, 0.07),
        (-1.5, 0.04),
    ] {
        let x = x_val;
        let s = sigma_val;
        let b_new = b_normalized(x, s);
        let b_naive = b_normalized_naive(x, s);
        let abs_x = x_val.abs();
        let z = -abs_x / (3.0_f64.sqrt() * sigma_val);
        let phi_z = phi_hart(z);
        let b_asymp =
            (2.0 * std::f64::consts::PI * abs_x / (3.0 * 3.0_f64.sqrt())) * phi_z.powi(3);
        assert!(
            b_new >= 0.0,
            "x={x_val} σ={sigma_val}: erfcx returned negative {b_new}"
        );
        if b_asymp > 1e-300 {
            let ratio = b_new / b_asymp;
            assert!(
                (0.3..=3.0).contains(&ratio) || (b_new < 1e-280 && b_asymp < 1e-280),
                "x={x_val} σ={sigma_val}: erfcx={b_new:e} naive={b_naive:e} asymp={b_asymp:e} ratio={ratio}"
            );
        }
    }
}

/// The inflection and the bound at moneyness minus two.
#[test]
fn inflection_and_bound() {
    assert_eq!(sigma_c(-2.0), 2.0);
    assert_eq!(sigma_c(2.0), 2.0);
    assert_eq!(b_max(-2.0), (-1.0_f64).exp());
    assert_eq!(b_max(0.0), 1.0);
}
