//! The rational solver.
use voltic::arith::Arith;
use voltic::black;
use voltic::double::Double;
use voltic::jackel;
use voltic::jackel::RegionBoundaries;
use voltic::norm;

/// Arithmetic in hardware.
struct Machine;

impl Arith for Machine {
    fn plus(&self, a: Double, b: Double) -> Double {
        d(f(a) + f(b))
    }

    fn minus(&self, a: Double, b: Double) -> Double {
        d(f(a) - f(b))
    }

    fn times(&self, a: Double, b: Double) -> Double {
        d(f(a) * f(b))
    }

    fn over(&self, a: Double, b: Double) -> Double {
        d(f(a) / f(b))
    }

    fn sqrt(&self, a: Double) -> Double {
        d(f(a).sqrt())
    }

    fn exp(&self, a: Double) -> Double {
        d(f(a).exp())
    }

    fn ln(&self, a: Double) -> Double {
        d(f(a).ln())
    }
}

fn d(x: f64) -> Double {
    Double { bits: x.to_bits() }
}

fn f(x: Double) -> f64 {
    f64::from_bits(x.bits)
}

fn b_normalized(x: f64, sigma: f64) -> f64 {
    f(black::b_normalized(&Machine, d(x), d(sigma)))
}

fn sigma_c(x: f64) -> f64 {
    f(black::sigma_c(&Machine, d(x)))
}

fn phi_hart(x: f64) -> f64 {
    f(norm::phi_hart(&Machine, d(x)))
}

fn dg_rational_cubic(x: f64, x_l: f64, x_r: f64, f_l: f64, f_r: f64, fp_l: f64, fp_r: f64, r: f64) -> f64 {
    f(jackel::dg_rational_cubic(&Machine, d(x), d(x_l), d(x_r), d(f_l), d(f_r), d(fp_l), d(fp_r), d(r)))
}

fn householder3_step(sigma: f64, g: f64, gp: f64, gpp: f64, gppp: f64) -> f64 {
    f(jackel::householder3_step(&Machine, d(sigma), d(g), d(gp), d(gpp), d(gppp)))
}

/// The anchors, as the library holds them and as numbers.
struct Anchors {
    held: RegionBoundaries,
    sigma_l: f64,
    sigma_c: f64,
    sigma_u: f64,
    b_l: f64,
    b_c: f64,
    b_u: f64,
    b_max: f64,
}

fn region_boundaries(x: f64) -> Anchors {
    let held = jackel::region_boundaries(&Machine, d(x));
    Anchors {
        held,
        sigma_l: f(held.sigma_l),
        sigma_c: f(held.sigma_c),
        sigma_u: f(held.sigma_u),
        b_l: f(held.b_l),
        b_c: f(held.b_c),
        b_u: f(held.b_u),
        b_max: f(held.b_max),
    }
}

fn canonicalize(x: f64, beta: f64, is_call: bool) -> (f64, f64) {
    let (a, b) = jackel::canonicalize(&Machine, d(x), d(beta), is_call);
    (f(a), f(b))
}

fn classify_region(beta: f64, rb: &Anchors) -> i64 {
    jackel::classify_region(d(beta), &rb.held)
}

fn initial_guess(x: f64, beta: f64, rb: &Anchors) -> f64 {
    f(jackel::initial_guess(&Machine, d(x), d(beta), &rb.held))
}

fn initial_guess_centre_left(x: f64, beta: f64, rb: &Anchors) -> f64 {
    f(jackel::initial_guess_centre_left(&Machine, d(x), d(beta), &rb.held))
}

fn initial_guess_centre_right(x: f64, beta: f64, rb: &Anchors) -> f64 {
    f(jackel::initial_guess_centre_right(&Machine, d(x), d(beta), &rb.held))
}

fn solve_middle(x: f64, beta: f64, rb: &Anchors) -> f64 {
    f(jackel::solve_middle(&Machine, d(x), d(beta), &rb.held))
}

fn solve_rational(x: f64, beta: f64, rb: &Anchors) -> f64 {
    let out = jackel::solve_rational(&Machine, &[d(x); 8], &[d(beta); 8], &[rb.held; 8]);
    for lane in out.iter() {
        assert_eq!(lane.bits, out[0].bits);
    }
    f(out[0])
}




#[test]
fn canonicalize_handles_all_four_quadrants() {

    let sigma_true = 0.30_f64;
    for x_val in [-0.5_f64, -0.1, 0.1, 0.5] {
        for &is_call_val in &[true, false] {
            let theta = if is_call_val { 1.0_f64 } else { -1.0 };
            let h = x_val / sigma_true;
            let k = 0.5 * sigma_true;
            let d1 = h + k;
            let d2 = h - k;
            let phi_d1 = phi_hart(theta * d1);
            let phi_d2 = phi_hart(theta * d2);
            let beta_input =
                theta * ((0.5 * x_val).exp() * phi_d1 - (-0.5 * x_val).exp() * phi_d2);

            let x = x_val;
            let beta = beta_input;

            let (x_canon, beta_canon) = canonicalize(x, beta, is_call_val);

            assert!(
                x_canon <= 1e-15,
                "x_canon = {} should be ≤ 0 (input x={x_val}, call={is_call_val})",
                x_canon
            );

            let b_check = b_normalized(x_canon, sigma_true);
            let err = (b_check - beta_canon).abs();
            assert!(
                err < 1e-13,
                "x={x_val} call={is_call_val}: canonical β={} but b(x_canon, σ_true)={}, err={:e}",
                beta_canon,
                b_check,
                err
            );
        }
    }
}

#[test]
fn region_boundaries_are_ordered() {
    for x_val in [-0.05_f64, -0.2, -0.5, -1.0, -2.0, -4.0] {
        let x = x_val;
        let rb = region_boundaries(x);
        assert!(rb.sigma_l > 0.0, "σ_l > 0 (x={x_val})");
        assert!(
            rb.sigma_l < rb.sigma_c,
            "σ_l < σ_c (x={x_val}): {} vs {}",
            rb.sigma_l,
            rb.sigma_c
        );
        assert!(
            rb.sigma_c < rb.sigma_u,
            "σ_c < σ_u (x={x_val}): {} vs {}",
            rb.sigma_c,
            rb.sigma_u
        );
        assert!(rb.b_l > 0.0, "b_l > 0 (x={x_val})");
        assert!(
            rb.b_l < rb.b_c,
            "b_l < b_c (x={x_val}): {} vs {}",
            rb.b_l,
            rb.b_c
        );
        assert!(
            rb.b_c < rb.b_u,
            "b_c < b_u (x={x_val}): {} vs {}",
            rb.b_c,
            rb.b_u
        );
        assert!(
            rb.b_u < rb.b_max,
            "b_u < b_max (x={x_val}): {} vs {}",
            rb.b_u,
            rb.b_max
        );
    }
}

#[test]
fn region_boundaries_sigma_c_matches_black() {
    let x = -1.5;
    let rb = region_boundaries(x);
    let sc = sigma_c(x);
    assert!((rb.sigma_c - sc).abs() < 1e-15);
}

#[test]
fn classify_region_assigns_correct_index() {
    let x = -1.0;
    let rb = region_boundaries(x);
    let half = 0.5_f64;
    let beta_lower = half * rb.b_l;
    let beta_cl = half * (rb.b_l + rb.b_c);
    let beta_cr = half * (rb.b_c + rb.b_u);
    let beta_upper = half * (rb.b_u + rb.b_max);

    assert_eq!(classify_region(beta_lower, &rb), 0, "lower");
    assert_eq!(classify_region(beta_cl, &rb), 1, "centre-left");
    assert_eq!(classify_region(beta_cr, &rb), 2, "centre-right");
    assert_eq!(classify_region(beta_upper, &rb), 3, "upper");
}

#[test]
fn dg_rational_cubic_matches_endpoints() {
    let x_l = 0.0;
    let x_r = 2.0;
    let f_l = 1.0;
    let f_r = 4.0;
    let fp_l = 0.5;
    let fp_r = 2.0;
    let r = 2.5;

    let v_at_l = dg_rational_cubic(x_l, x_l, x_r, f_l, f_r, fp_l, fp_r, r);
    assert!(
        (v_at_l - f_l).abs() < 1e-14,
        "left endpoint: got {}, expected {}",
        v_at_l,
        f_l
    );

    let v_at_r = dg_rational_cubic(x_r, x_l, x_r, f_l, f_r, fp_l, fp_r, r);
    assert!(
        (v_at_r - f_r).abs() < 1e-14,
        "right endpoint: got {}, expected {}",
        v_at_r,
        f_r
    );

    let h = 1e-6_f64;
    let x_l_h = h;
    let fd_l = (dg_rational_cubic(x_l_h, x_l, x_r, f_l, f_r, fp_l, fp_r, r) - f_l) / h;
    assert!(
        (fd_l - fp_l).abs() < 1e-5,
        "left slope: fd {} vs {}",
        fd_l,
        fp_l
    );
}

#[test]
fn initial_guess_centre_left_matches_anchors() {
    let x = -0.5;
    let rb = region_boundaries(x);
    let g_at_bl = initial_guess_centre_left(x, rb.b_l, &rb);
    assert!(
        (g_at_bl - rb.sigma_l).abs() < 1e-13,
        "σ_0(b_l) = {} expected σ_l = {}",
        g_at_bl,
        rb.sigma_l
    );
    let g_at_bc = initial_guess_centre_left(x, rb.b_c, &rb);
    assert!(
        (g_at_bc - rb.sigma_c).abs() < 1e-13,
        "σ_0(b_c) = {} expected σ_c = {}",
        g_at_bc,
        rb.sigma_c
    );
}

#[test]
fn initial_guess_centre_right_matches_anchors() {
    let x = -0.5;
    let rb = region_boundaries(x);
    let g_at_bc = initial_guess_centre_right(x, rb.b_c, &rb);
    assert!(
        (g_at_bc - rb.sigma_c).abs() < 1e-13,
        "σ_0(b_c) = {} expected σ_c = {}",
        g_at_bc,
        rb.sigma_c
    );
    let g_at_bu = initial_guess_centre_right(x, rb.b_u, &rb);
    assert!(
        (g_at_bu - rb.sigma_u).abs() < 1e-13,
        "σ_0(b_u) = {} expected σ_u = {}",
        g_at_bu,
        rb.sigma_u
    );
}

#[test]
fn initial_guess_centre_close_to_truth() {
    let mut worst = 0.0_f64;
    for x_val in [-0.05_f64, -0.2, -0.5, -1.0, -2.0] {
        let x = x_val;
        let rb = region_boundaries(x);
        let n = 8;
        for i in 0..=n {
            let frac = i as f64 / n as f64;
            let sigma_true = rb.sigma_l + frac * (rb.sigma_u - rb.sigma_l);
            let s = sigma_true;
            let beta = b_normalized(x, s);
            let beta_v = beta;

            let region = classify_region(beta_v, &rb);
            let guess = match region {
                1 => initial_guess_centre_left(x, beta_v, &rb),
                2 => initial_guess_centre_right(x, beta_v, &rb),
                _ => continue,
            };
            let rel = ((guess - sigma_true) / sigma_true).abs();
            worst = worst.max(rel);
            assert!(
                rel < 0.05,
                "x={x_val} σ_true={sigma_true} guess={guess} rel_err={rel:e}"
            );
        }
    }
    println!("centre-region worst relative initial-guess error: {worst:e}");
}

#[test]
fn unified_initial_guess_across_all_regions() {
    let mut worst_by_region = [0.0_f64; 4];
    let mut count_by_region = [0_usize; 4];
    for x_val in [-0.05_f64, -0.2, -0.5, -1.0, -2.0] {
        let x = x_val;
        let rb = region_boundaries(x);
        for &sigma_true in &[
            0.5 * rb.sigma_l,
            0.99 * rb.sigma_l,
            0.5 * (rb.sigma_l + rb.sigma_c),
            rb.sigma_c,
            0.5 * (rb.sigma_c + rb.sigma_u),
            1.01 * rb.sigma_u,
            1.5 * rb.sigma_u,
        ] {
            let s = sigma_true;
            let beta = b_normalized(x, s);
            let beta_v = beta;
            let region = classify_region(beta_v, &rb) as usize;
            let guess = initial_guess(x, beta_v, &rb);
            if !guess.is_finite() || guess <= 0.0 {
                println!(
                    "non-positive/non-finite guess: x={x_val} σ_true={sigma_true} \
                     beta={beta} region={region} guess={guess}"
                );
                continue;
            }
            let rel = ((guess - sigma_true) / sigma_true).abs();
            worst_by_region[region] = worst_by_region[region].max(rel);
            count_by_region[region] += 1;
        }
    }
    for (i, (&w, &c)) in worst_by_region.iter().zip(&count_by_region).enumerate() {
        let name = ["lower", "centre-left", "centre-right", "upper"][i];
        println!("region {i} ({name}): worst rel err = {w:e} over {c} cases");
    }
    assert!(
        worst_by_region[1] < 0.01,
        "centre-left worst: {}",
        worst_by_region[1]
    );
    assert!(
        worst_by_region[2] < 0.01,
        "centre-right worst: {}",
        worst_by_region[2]
    );
    if count_by_region[0] > 0 {
        assert!(
            worst_by_region[0] < 0.20,
            "lower worst: {}",
            worst_by_region[0]
        );
    }
    if count_by_region[3] > 0 {
        assert!(
            worst_by_region[3] < 0.20,
            "upper worst: {}",
            worst_by_region[3]
        );
    }
}

#[test]
fn householder3_reduces_to_newton_when_higher_derivs_zero() {
    let sigma = 1.0;
    let g = 0.5;
    let gp = 2.0;
    let gpp = 0.0;
    let gppp = 0.0;
    let next = householder3_step(sigma, g, gp, gpp, gppp);
    assert!((next - 0.75).abs() < 1e-15, "got {next}");
}

#[test]
fn solve_middle_converges_to_truth() {
    let mut worst = 0.0_f64;
    for x_val in [-0.05_f64, -0.2, -0.5, -1.0, -2.0] {
        let x = x_val;
        let rb = region_boundaries(x);
        for &frac in &[0.001_f64, 0.1, 0.25, 0.5, 0.75, 0.9, 0.999] {
            let sigma_true = rb.sigma_l + frac * (rb.sigma_u - rb.sigma_l);
            let s = sigma_true;
            let beta = b_normalized(x, s);
            let beta_v = beta;
            let recovered = solve_middle(x, beta_v, &rb);
            let abs_err = (recovered - sigma_true).abs();
            worst = worst.max(abs_err);
            assert!(
                abs_err < 1e-10,
                "x={x_val} σ_true={sigma_true}: recovered={recovered} err={abs_err:e}"
            );
        }
    }
    println!("middle-region worst abs error after 2 Householder-3 iters: {worst:e}");
}

#[test]
fn solve_rational_end_to_end() {
    let mut worst_by_region = [0.0_f64; 4];
    let mut count_by_region = [0_usize; 4];
    for x_val in [-0.05_f64, -0.2, -0.5, -1.0, -2.0] {
        let x = x_val;
        let rb = region_boundaries(x);
        for &frac in &[0.01_f64, 0.1, 0.3, 0.5, 0.7, 0.9, 0.99] {
            let sigma_range_lo = 0.3 * rb.sigma_l;
            let sigma_range_hi = 1.7 * rb.sigma_u;
            let sigma_true = sigma_range_lo + frac * (sigma_range_hi - sigma_range_lo);
            let s = sigma_true;
            let beta = b_normalized(x, s);
            if !beta.is_finite() || beta <= 0.0 {
                continue;
            }
            let beta_v = beta;
            let region = classify_region(beta_v, &rb) as usize;
            let recovered = solve_rational(x, beta_v, &rb);
            if !recovered.is_finite() {
                println!(
                    "non-finite: x={x_val} σ_true={sigma_true} beta={beta} \
                     region={region}"
                );
                continue;
            }
            let abs_err = (recovered - sigma_true).abs();
            worst_by_region[region] = worst_by_region[region].max(abs_err);
            count_by_region[region] += 1;
        }
    }
    for (i, (&w, &c)) in worst_by_region.iter().zip(&count_by_region).enumerate() {
        let name = ["lower", "centre-left", "centre-right", "upper"][i];
        println!("region {i} ({name}): worst abs err = {w:e} over {c} cases");
    }
    assert!(
        worst_by_region[1] < 1e-13,
        "centre-left worst: {}",
        worst_by_region[1]
    );
    assert!(
        worst_by_region[2] < 1e-13,
        "centre-right worst: {}",
        worst_by_region[2]
    );
    if count_by_region[3] > 0 {
        assert!(
            worst_by_region[3] < 1e-10,
            "upper worst: {}",
            worst_by_region[3]
        );
    }
    if count_by_region[0] > 0 {
        assert!(
            worst_by_region[0] < 1e-3,
            "lower worst: {}",
            worst_by_region[0]
        );
    }
}

#[test]
fn dg_r_helpers_compile() {
    let _ = jackel::dg_r_left::<Machine>;
    let _ = jackel::dg_r_right::<Machine>;
}


/// A price gets the same volatility in a mixed pack as in a uniform one.
#[test]
fn pack_does_not_matter() {
    let x = -1.0;
    let rb = region_boundaries(x);
    let betas = [
        0.5 * rb.b_l,
        0.5 * (rb.b_l + rb.b_c),
        0.5 * (rb.b_c + rb.b_u),
        0.5 * (rb.b_u + rb.b_max),
        0.9 * rb.b_c,
        0.2 * rb.b_l,
        1.1 * rb.b_u,
        rb.b_c,
    ];
    let mut packed = [d(0.0); 8];
    for j in 0..8 {
        packed[j] = d(betas[j]);
    }
    let out = jackel::solve_rational(&Machine, &[d(x); 8], &packed, &[rb.held; 8]);
    for j in 0..8 {
        assert_eq!(f(out[j]), solve_rational(x, betas[j], &rb), "lane {j}");
    }
}

/// Outside the open interval of attainable prices there is no answer; a NaN
/// counts as upper.
#[test]
fn unattainable_prices_get_nan() {
    let x = -1.0;
    let rb = region_boundaries(x);
    for beta in [0.0, -1.0, rb.b_max, 2.0, f64::NAN] {
        assert!(solve_rational(x, beta, &rb).is_nan(), "beta={beta}");
    }
    assert_eq!(classify_region(f64::NAN, &rb), 3);
    assert_eq!(classify_region(rb.b_l, &rb), 0);
}

/// The regions meet without a gap: a price on an anchor is solved, and comes to
/// the volatility of the anchor.
#[test]
fn anchors_are_solved() {
    for x in [-0.1, -0.5, -1.0, -2.0] {
        let rb = region_boundaries(x);
        for (beta, sigma) in [(rb.b_l, rb.sigma_l), (rb.b_c, rb.sigma_c), (rb.b_u, rb.sigma_u)] {
            let found = solve_rational(x, beta, &rb);
            assert!((found - sigma).abs() < 1e-10, "x={x} beta={beta}: {found} vs {sigma}");
        }
    }
}

/// The canonical side of an option that is on it already is the option.
#[test]
fn canonical_side_is_kept() {
    assert_eq!(canonicalize(-0.3, 0.1, true), (-0.3, 0.1));
    assert_eq!(canonicalize(0.3, 0.1, false), (-0.3, 0.1));
    let (x, beta) = canonicalize(0.3, 0.5, true);
    assert_eq!(x, -0.3);
    assert!(beta < 0.5);
}
