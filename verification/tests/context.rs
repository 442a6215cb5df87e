//! Two-stage solving.
use voltic::arith::Arith;
use voltic::double::Double;
use voltic::direct;
use voltic::kind::OptionKind;
use voltic::otm_context;
use voltic::otm_context::{OtmContext, SeedRange, Seeds, SEED_CENTRE, SEED_HALF_WIDTH};
use voltic::schadner;

/// Arithmetic in hardware.
struct Machine;

impl Arith for Machine {
    fn plus(&self, a: Double, b: Double) -> Double {
        d(f(a) + f(b))
    }

    fn minus(&self, a: Double, b: Double) -> Double {
        d(f(a) - f(b))
    }

    fn times(&self, a: Double, b: Double) -> Double {
        d(f(a) * f(b))
    }

    fn over(&self, a: Double, b: Double) -> Double {
        d(f(a) / f(b))
    }

    fn sqrt(&self, a: Double) -> Double {
        d(f(a).sqrt())
    }

    fn exp(&self, a: Double) -> Double {
        d(f(a).exp())
    }

    fn ln(&self, a: Double) -> Double {
        d(f(a).ln())
    }
}

fn d(x: f64) -> Double {
    Double { bits: x.to_bits() }
}

fn f(x: Double) -> f64 {
    f64::from_bits(x.bits)
}

/// Seeds found by halving an interval, and Newton steps in place of the
/// third-order one; without a fit the fitted seed is no number.
struct Desk {
    fitted: bool,
}

impl Arith for Desk {
    fn plus(&self, a: Double, b: Double) -> Double {
        Machine.plus(a, b)
    }

    fn minus(&self, a: Double, b: Double) -> Double {
        Machine.minus(a, b)
    }

    fn times(&self, a: Double, b: Double) -> Double {
        Machine.times(a, b)
    }

    fn over(&self, a: Double, b: Double) -> Double {
        Machine.over(a, b)
    }

    fn sqrt(&self, a: Double) -> Double {
        Machine.sqrt(a)
    }

    fn exp(&self, a: Double) -> Double {
        Machine.exp(a)
    }

    fn ln(&self, a: Double) -> Double {
        Machine.ln(a)
    }
}

fn below(v: f64, mu: f64) -> f64 {
    f(schadner::ig_cdf_pdf(&Machine, d(4.0 / (v * v)), d(mu)).cdf)
}

/// The total volatility at which the law with mean `mu` has the probability
/// `q`, to a few digits.
fn root(mu: f64, q: f64) -> f64 {
    let mut lo = 1e-3;
    let mut hi = 10.0;
    for _ in 0..16 {
        let v = 0.5 * (lo + hi);
        if below(v, mu) > q {
            lo = v;
        } else {
            hi = v;
        }
    }
    0.5 * (lo + hi)
}

impl Seeds for Desk {
    fn seed_range(&self) -> SeedRange {
        SeedRange { lo: d(1e-9), hi: d(1.0 - 1e-9) }
    }

    fn fitted_seed(&self, basis: &[Double], q: Double) -> Double {
        if !self.fitted {
            return d(f64::NAN);
        }
        let u = f(basis[1]);
        let away = (f64::from_bits(SEED_CENTRE) + f64::from_bits(SEED_HALF_WIDTH) * u).exp();
        d(root(2.0 / away, f(q)))
    }

    fn wing_seed(&self, h: Double, q: Double) -> Double {
        d(root(2.0 / f(h), 1.0 - f(q)))
    }

    fn third_order(&self, v: Double, mu: Double, q: Double) -> Double {
        let mut x = f(v);
        for _ in 0..4 {
            let law = schadner::ig_cdf_pdf(&Machine, d(4.0 / (x * x)), mu);
            let slope = f(law.pdf) * (-8.0 / (x * x * x));
            let next = x - (f(law.cdf) - f(q)) / slope;
            x = next.max(0.8 * x).min(1.25 * x);
        }
        d(x)
    }
}

#[test]
fn context_api_routes_wing_seed() {
    let desk = Desk { fitted: false };
    let h: f64 = 5.29;
    let q_surv_target: f64 = 0.0234;
    let v_target: f64 = 1.99934761081733714e+00;
    let k_log: f64 = -h;
    let t: f64 = 1.0;
    let m: f64 = (-h).exp();
    let q_cdf = 1.0 - q_surv_target;
    let c: f64 = 1.0 - q_cdf * m;
    let out = otm_context::implied_vol_fully_vectorized(&desk, &[d(k_log)], &[d(t)], &[d(c)]);
    let sigma_ctx = f(out[0]);
    let err = (sigma_ctx - v_target).abs();
    assert!(sigma_ctx.is_finite());
    assert!(err < 5e-10, "context API wing path off by {err:.3e} > 5e-10");

    let ctx = OtmContext::new(&desk, d(k_log), d(t));
    let sigma_scalar = f(otm_context::implied_vol_with_context(&desk, &ctx, d(c)));
    let err_s = (sigma_scalar - v_target).abs();
    assert!(sigma_scalar.is_finite());
    assert!(err_s < 5e-10, "context scalar API wing path off by {err_s:.3e} > 5e-10");
}

/// A premium solved through contexts, one by one, in a batch on one context,
/// over many contexts, and straight from moneyness and expiry.
#[test]
fn contexts_agree_with_each_other() {
    let desk = Desk { fitted: true };
    let mut contexts = Vec::new();
    let mut canon = Vec::new();
    let mut logs = Vec::new();
    let mut ttes = Vec::new();
    let mut truth = Vec::new();
    for i in 0..19 {
        let strike = 80.0 + 3.0 * (i as f64);
        let v = 0.2 + 0.01 * (i as f64);
        let (spot, tte, rate) = (100.0, 0.75, 0.02);
        let kind = if strike >= spot { OptionKind::Call } else { OptionKind::Put };
        let price = direct::bs_price(
            &desk,
            &[d(spot)],
            &[d(strike)],
            &[d(tte)],
            &[d(rate)],
            &[d(v)],
            &[kind],
        )[0];
        let ctx =
            OtmContext::from_market(&desk, d(strike), d(tte), d(spot), d(rate), d(0.0));
        let c = otm_context::canonical_c_from_price(&desk, &ctx, d(spot), price, kind.is_call());
        contexts.push(ctx);
        canon.push(c);
        logs.push(ctx.k_log);
        ttes.push(d(tte));
        truth.push(v);
    }
    let many = otm_context::implied_vol_vectorized_with_contexts(&desk, &contexts, &canon);
    let full = otm_context::implied_vol_fully_vectorized(&desk, &logs, &ttes, &canon);
    assert_eq!(many.len(), 19);
    for i in 0..19 {
        let one = otm_context::implied_vol_with_context(&desk, &contexts[i], canon[i]);
        assert!((f(one) - truth[i]).abs() < 1e-9, "row {i}: {}", f(one));
        assert!((f(many[i]) - f(one)).abs() < 1e-15, "row {i}");
        assert_eq!(full[i].bits, many[i].bits, "row {i}");
        let same = otm_context::implied_vol_with_context_batch(&desk, &contexts[i], &canon);
        assert_eq!(same[i].bits, many[i].bits, "row {i}");
    }
}

/// The wing seed serves all the ways to a volatility alike, at any moneyness.
#[test]
fn one_pass_is_two_stages_in_the_wing() {
    let desk = Desk { fitted: false };
    for (h, survival) in [(2.95, 0.2), (3.5, 0.1), (5.29, 0.0234), (7.9, 0.05)] {
        let ctx = OtmContext::new(&desk, d(-h), d(1.0));
        let c = d(1.0 - (1.0 - survival) * (-h as f64).exp());
        let pass = otm_context::implied_vol_fully_vectorized(&desk, &[d(-h)], &[d(1.0)], &[c]);
        let stages = otm_context::implied_vol_vectorized_with_contexts(&desk, &[ctx], &[c]);
        let batch = otm_context::implied_vol_with_context_batch(&desk, &ctx, &[c]);
        assert!(f(pass[0]).is_finite(), "h={h}");
        assert_eq!(pass[0].bits, stages[0].bits, "h={h}");
        assert_eq!(pass[0].bits, batch[0].bits, "h={h}");
    }
}

/// No number, no seed, and no convergence each give a NaN.
#[test]
fn unsolvable_prices_get_nan() {
    let desk = Desk { fitted: true };
    let nan = |k_log: f64, c: f64| {
        let ctx = OtmContext::new(&desk, d(k_log), d(1.0));
        let one = otm_context::implied_vol_with_context(&desk, &ctx, d(c));
        let batch = otm_context::implied_vol_with_context_batch(&desk, &ctx, &[d(c)]);
        let many = otm_context::implied_vol_vectorized_with_contexts(&desk, &[ctx], &[d(c)]);
        let full =
            otm_context::implied_vol_fully_vectorized(&desk, &[d(k_log)], &[d(1.0)], &[d(c)]);
        let all = [one, batch[0], many[0], full[0]].map(|x| f(x).is_nan());
        assert!(all.iter().all(|x| *x == all[0]), "k={k_log} c={c}: {all:?}");
        all[0]
    };
    assert!(!nan(0.1, 0.05));
    assert!(nan(0.1, f64::NAN));
    assert!(nan(0.1, 0.0));
    assert!(nan(0.1, 1.5));
    assert!(nan(0.0, 0.05));
    assert!(nan(0.0005, 0.05));
    assert!(nan(8.0, 0.05));
    assert!(nan(-9.0, 0.9999));
    assert!(nan(f64::NAN, 0.05));
    // The root is far above the largest volatility.
    assert!(nan(0.1, 0.999));
}

/// The wing is open at both ends of the survival probability and at the far end
/// of the moneyness.
#[test]
fn wing_has_its_edges() {
    let wing = |h: f64, q: f64| otm_context::uses_wing(d(h), d(q));
    assert!(wing(2.95, 0.1));
    assert!(!wing(2.9499, 0.1));
    assert!(!wing(8.0, 0.1));
    assert!(!wing(5.0, 0.30));
    assert!(!wing(5.0, 0.0));
    assert!(!wing(5.0, f64::NAN));
}

/// A context keeps what it is made of.
#[test]
fn context_holds_its_terms() {
    let desk = Desk { fitted: true };
    let ctx = OtmContext::new(&desk, d(-0.25), d(4.0));
    assert_eq!(f(ctx.sqrt_t), 2.0);
    assert_eq!(f(ctx.ak), 0.25);
    assert_eq!(f(ctx.m), (-0.25_f64).exp());
    assert_eq!(f(ctx.mu), 8.0);
    assert_eq!(f(ctx.v_lo), 0.02);
    assert_eq!(f(ctx.v_hi), 10.0);
    let pack = otm_context::broadcast_context(&ctx);
    for j in 0..8 {
        assert_eq!(pack.read_lane(j).sqrt_t.bits, ctx.sqrt_t.bits);
    }
    let seen = otm_context::build_simd_contexts_observed(
        &desk,
        &[d(-0.25), d(0.5)],
        &[d(4.0), d(9.0)],
    );
    assert_eq!((seen.len(), f(seen[0]), f(seen[1])), (2, 2.0, 3.0));
    let packed = otm_context::pack_contexts(&[ctx; 8]);
    assert_eq!(packed.read_lane(7).mu.bits, ctx.mu.bits);
}
