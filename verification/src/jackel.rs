//! The rational solver: four regions, one initial guess and one objective each.
//!
//! A normalized price `beta` falls into one of four regions, set apart by the
//! inflection point of the price and the ends of its tangent there. Each lane
//! gets the guess of its region and two third-order Householder steps on the
//! objective of its branch. A pack whose lanes share a branch runs that branch
//! alone; the others run all three and pick.
use crate::arith::{
    diff, exp_of, is_zero, ln_of, neutral, prod, quot, sqrt_of, steady, sum, Arith,
};
use crate::black::{
    b_double_prime, b_double_prime_of, b_max, b_max_of, b_normalized, b_of, b_prime, b_prime_of,
    b_triple_prime, b_triple_prime_of, cube_of, sigma_c, sigma_c_of,
};
use crate::constants::{
    EIGHTH, HALF, HALF_PI, MINUS_HALF, MINUS_TWO, ONE, SIX, SQRT_THREE, THREE, THREE_SQRT_THREE,
    TWO, TWO_PI, ZERO,
};
use crate::direct::positive;
use crate::double::{
    flipped, lemma_pow2_two_words, lemma_rounds, lemma_units_zero, num, rounds, unsigned,
    Double, NAN,
};
use crate::guard::{guard_step, law_guard_bounds_away_from_zero, step_denominator};
use crate::lanes::LANES;
use crate::norm::{phi_hart, phi_hart_of, phi_inv, phi_inv_of};
use vstd::arithmetic::power2::{lemma2_to64, lemma2_to64_rest};
use vstd::prelude::*;

verus! {

/// `1e-5`, the relative step of a difference quotient.
pub const NUDGE: u64 = 0x3EE4_F8B5_88E3_68F1;

/// In the money: a call above the forward, or a put that is not.
pub open spec fn in_the_money(x: Double, is_call: bool) -> bool {
    positive(x) == is_call
}

/// The log-moneyness, taken to the side where a call is out of the money.
pub open spec fn canonical_x(x: Double) -> Double {
    flipped(unsigned(x))
}

/// The intrinsic value at a log-moneyness, on the side that has one.
pub open spec fn intrinsic_of<K: Arith>(k: K, x: Double) -> Double {
    let half = prod(k, num(HALF), unsigned(x));
    diff(k, exp_of(k, half), exp_of(k, flipped(half)))
}

/// The canonical price: in the money, the time value; else the price itself.
pub open spec fn canonical_beta<K: Arith>(k: K, x: Double, beta: Double, is_call: bool) -> Double {
    if in_the_money(x, is_call) {
        diff(k, beta, intrinsic_of(k, x))
    } else {
        beta
    }
}

/// Takes an option to the equivalent call that is out of the money.
pub fn canonicalize<K: Arith>(k: &K, x: Double, beta: Double, is_call: bool) -> (r: (
    Double,
    Double,
))
    ensures
        r.0 == canonical_x(x),
        steady(*k) ==> r.1 == canonical_beta(*k, x, beta, is_call),
        !in_the_money(x, is_call) ==> r.1 == beta,
{
    let magnitude = x.abs();
    let above: bool = num(ZERO).lt(x);
    let price = if above == is_call {
        let half = k.times(num(HALF), magnitude);
        k.minus(beta, k.minus(k.exp(half), k.exp(half.neg())))
    } else {
        beta
    };
    (magnitude.neg(), price)
}

/// The anchors of the four regions.
#[derive(Clone, Copy, Debug, PartialEq, Eq, Structural)]
pub struct RegionBoundaries {
    /// Where the tangent at the inflection point meets zero.
    pub sigma_l: Double,
    /// The inflection point.
    pub sigma_c: Double,
    /// Where the tangent at the inflection point meets the bound.
    pub sigma_u: Double,
    /// The price at `sigma_l`.
    pub b_l: Double,
    /// The price at `sigma_c`.
    pub b_c: Double,
    /// The price at `sigma_u`.
    pub b_u: Double,
    /// The bound of the price.
    pub b_max: Double,
    /// The slope of the price at `sigma_c`.
    pub bp_c: Double,
}

/// The anchors at a log-moneyness.
pub open spec fn boundaries_of<K: Arith>(k: K, x: Double) -> RegionBoundaries {
    let sigma_c = sigma_c_of(k, x);
    let b_c = b_of(k, x, sigma_c);
    let bp_c = b_prime_of(k, x, sigma_c);
    let b_max = b_max_of(k, x);
    let sigma_l = diff(k, sigma_c, quot(k, b_c, bp_c));
    let sigma_u = sum(k, sigma_c, quot(k, diff(k, b_max, b_c), bp_c));
    RegionBoundaries {
        sigma_l,
        sigma_c,
        sigma_u,
        b_l: b_of(k, x, sigma_l),
        b_c,
        b_u: b_of(k, x, sigma_u),
        b_max,
        bp_c,
    }
}

/// The anchors at a log-moneyness.
pub fn region_boundaries<K: Arith>(k: &K, x: Double) -> (r: RegionBoundaries)
    ensures
        steady(*k) ==> r == boundaries_of(*k, x),
{
    let sigma_c = sigma_c(k, x);
    let b_c = b_normalized(k, x, sigma_c);
    let bp_c = b_prime(k, x, sigma_c);
    let b_max = b_max(k, x);
    let sigma_l = k.minus(sigma_c, k.over(b_c, bp_c));
    let sigma_u = k.plus(sigma_c, k.over(k.minus(b_max, b_c), bp_c));
    RegionBoundaries {
        sigma_l,
        sigma_c,
        sigma_u,
        b_l: b_normalized(k, x, sigma_l),
        b_c,
        b_u: b_normalized(k, x, sigma_u),
        b_max,
        bp_c,
    }
}

/// A region of prices.
#[derive(Clone, Copy, Debug, PartialEq, Eq, Structural)]
pub enum Region {
    Lower,
    CentreLeft,
    CentreRight,
    Upper,
}

/// An objective. The two centre regions share one.
#[derive(Clone, Copy, Debug, PartialEq, Eq, Structural)]
pub enum Branch {
    Lower,
    Middle,
    Upper,
}

/// The region of a price: the first whose upper end it does not exceed.
pub open spec fn region_of(beta: Double, rb: RegionBoundaries) -> Region {
    if beta.at_most(rb.b_l) {
        Region::Lower
    } else if beta.at_most(rb.b_c) {
        Region::CentreLeft
    } else if beta.at_most(rb.b_u) {
        Region::CentreRight
    } else {
        Region::Upper
    }
}

/// The number of a region.
pub open spec fn region_number(region: Region) -> int {
    match region {
        Region::Lower => 0,
        Region::CentreLeft => 1,
        Region::CentreRight => 2,
        Region::Upper => 3,
    }
}

/// The number of the region that the price falls into.
pub fn classify_region(beta: Double, rb: &RegionBoundaries) -> (r: i64)
    ensures
        r == region_number(region_of(beta, *rb)),
{
    if beta.le(rb.b_l) {
        0
    } else if beta.le(rb.b_c) {
        1
    } else if beta.le(rb.b_u) {
        2
    } else {
        3
    }
}

/// The branch of a region.
pub open spec fn branch_of(region: Region) -> Branch {
    match region {
        Region::Lower => Branch::Lower,
        Region::Upper => Branch::Upper,
        _ => Branch::Middle,
    }
}

/// The branch of the region that the price falls into.
pub fn branch(beta: Double, rb: &RegionBoundaries) -> (r: Branch)
    ensures
        r == branch_of(region_of(beta, *rb)),
{
    let region: i64 = classify_region(beta, rb);
    if region == 0 {
        Branch::Lower
    } else if region == 3 {
        Branch::Upper
    } else {
        Branch::Middle
    }
}

/// The rational cubic between two anchors: `s` is how far `x` is from the left
/// one to the right one, and `r` the control parameter.
pub open spec fn cubic_of<K: Arith>(
    k: K,
    x: Double,
    x_l: Double,
    x_r: Double,
    f_l: Double,
    f_r: Double,
    fp_l: Double,
    fp_r: Double,
    r: Double,
) -> Double {
    let h = diff(k, x_r, x_l);
    let s = quot(k, diff(k, x, x_l), h);
    let t = diff(k, num(ONE), s);
    let s2 = prod(k, s, s);
    let t2 = prod(k, t, t);
    let right = prod(k, f_r, prod(k, s2, s));
    let towards = prod(k, prod(k, diff(k, prod(k, r, f_r), prod(k, h, fp_r)), s2), t);
    let away = prod(k, prod(k, sum(k, prod(k, r, f_l), prod(k, h, fp_l)), s), t2);
    let left = prod(k, f_l, prod(k, t2, t));
    let top = sum(k, sum(k, sum(k, right, towards), away), left);
    let bottom = sum(k, num(ONE), prod(k, prod(k, diff(k, r, num(THREE)), s), t));
    quot(k, top, bottom)
}

/// The rational cubic between two anchors, with control parameter `r`.
pub fn dg_rational_cubic<K: Arith>(
    k: &K,
    x: Double,
    x_l: Double,
    x_r: Double,
    f_l: Double,
    f_r: Double,
    fp_l: Double,
    fp_r: Double,
    r: Double,
) -> (y: Double)
    ensures
        steady(*k) ==> y == cubic_of(*k, x, x_l, x_r, f_l, f_r, fp_l, fp_r, r),
{
    let h = k.minus(x_r, x_l);
    let s = k.over(k.minus(x, x_l), h);
    let t = k.minus(num(ONE), s);
    let s2 = k.times(s, s);
    let t2 = k.times(t, t);
    let right = k.times(f_r, k.times(s2, s));
    let towards = k.times(k.times(k.minus(k.times(r, f_r), k.times(h, fp_r)), s2), t);
    let away = k.times(k.times(k.plus(k.times(r, f_l), k.times(h, fp_l)), s), t2);
    let left = k.times(f_l, k.times(t2, t));
    let top = k.plus(k.plus(k.plus(right, towards), away), left);
    let bottom = k.plus(num(ONE), k.times(k.times(k.minus(r, num(THREE)), s), t));
    k.over(top, bottom)
}

/// What the second derivative `fpp` asks of the control parameter, before it is
/// divided by the gap between a slope and the chord.
pub open spec fn control_top_of<K: Arith>(
    k: K,
    x_l: Double,
    x_r: Double,
    fp_l: Double,
    fp_r: Double,
    fpp: Double,
) -> Double {
    let h = diff(k, x_r, x_l);
    sum(k, prod(k, prod(k, num(HALF), h), fpp), diff(k, fp_r, fp_l))
}

/// The slope of the chord.
pub open spec fn chord_of<K: Arith>(k: K, x_l: Double, x_r: Double, f_l: Double, f_r: Double) -> Double {
    quot(k, diff(k, f_r, f_l), diff(k, x_r, x_l))
}

/// The control parameter that matches a second derivative at the left anchor.
pub open spec fn control_left_of<K: Arith>(
    k: K,
    x_l: Double,
    x_r: Double,
    f_l: Double,
    f_r: Double,
    fp_l: Double,
    fp_r: Double,
    fpp_l: Double,
) -> Double {
    quot(
        k,
        control_top_of(k, x_l, x_r, fp_l, fp_r, fpp_l),
        diff(k, chord_of(k, x_l, x_r, f_l, f_r), fp_l),
    )
}

/// The control parameter that matches a second derivative at the left anchor.
pub fn dg_r_left<K: Arith>(
    k: &K,
    x_l: Double,
    x_r: Double,
    f_l: Double,
    f_r: Double,
    fp_l: Double,
    fp_r: Double,
    fpp_l: Double,
) -> (r: Double)
    ensures
        steady(*k) ==> r == control_left_of(*k, x_l, x_r, f_l, f_r, fp_l, fp_r, fpp_l),
{
    let h = k.minus(x_r, x_l);
    let chord = k.over(k.minus(f_r, f_l), h);
    let top = k.plus(k.times(k.times(num(HALF), h), fpp_l), k.minus(fp_r, fp_l));
    k.over(top, k.minus(chord, fp_l))
}

/// The control parameter that matches a second derivative at the right anchor.
pub open spec fn control_right_of<K: Arith>(
    k: K,
    x_l: Double,
    x_r: Double,
    f_l: Double,
    f_r: Double,
    fp_l: Double,
    fp_r: Double,
    fpp_r: Double,
) -> Double {
    quot(
        k,
        control_top_of(k, x_l, x_r, fp_l, fp_r, fpp_r),
        diff(k, fp_r, chord_of(k, x_l, x_r, f_l, f_r)),
    )
}

/// The control parameter that matches a second derivative at the right anchor.
pub fn dg_r_right<K: Arith>(
    k: &K,
    x_l: Double,
    x_r: Double,
    f_l: Double,
    f_r: Double,
    fp_l: Double,
    fp_r: Double,
    fpp_r: Double,
) -> (r: Double)
    ensures
        steady(*k) ==> r == control_right_of(*k, x_l, x_r, f_l, f_r, fp_l, fp_r, fpp_r),
{
    let h = k.minus(x_r, x_l);
    let chord = k.over(k.minus(f_r, f_l), h);
    let top = k.plus(k.times(k.times(num(HALF), h), fpp_r), k.minus(fp_r, fp_l));
    k.over(top, k.minus(fp_r, chord))
}

/// The slope of the volatility in the price.
pub open spec fn inverse_slope_of<K: Arith>(k: K, x: Double, sigma: Double) -> Double {
    quot(k, num(ONE), b_prime_of(k, x, sigma))
}

/// The guess left of the inflection point: a cubic from `b_l` to `b_c`, flat at
/// the inflection point.
pub open spec fn centre_left_of<K: Arith>(
    k: K,
    x: Double,
    beta: Double,
    rb: RegionBoundaries,
) -> Double {
    let at_l = inverse_slope_of(k, x, rb.sigma_l);
    let at_c = quot(k, num(ONE), rb.bp_c);
    let r = control_right_of(
        k,
        rb.b_l,
        rb.b_c,
        rb.sigma_l,
        rb.sigma_c,
        at_l,
        at_c,
        num(ZERO),
    );
    cubic_of(k, beta, rb.b_l, rb.b_c, rb.sigma_l, rb.sigma_c, at_l, at_c, r)
}

/// The guess left of the inflection point.
pub fn initial_guess_centre_left<K: Arith>(
    k: &K,
    x: Double,
    beta: Double,
    rb: &RegionBoundaries,
) -> (r: Double)
    ensures
        steady(*k) ==> r == centre_left_of(*k, x, beta, *rb),
{
    let at_l = k.over(num(ONE), b_prime(k, x, rb.sigma_l));
    let at_c = k.over(num(ONE), rb.bp_c);
    let r = dg_r_right(k, rb.b_l, rb.b_c, rb.sigma_l, rb.sigma_c, at_l, at_c, num(ZERO));
    dg_rational_cubic(k, beta, rb.b_l, rb.b_c, rb.sigma_l, rb.sigma_c, at_l, at_c, r)
}

/// The guess right of the inflection point: a cubic from `b_c` to `b_u`, flat at
/// the inflection point.
pub open spec fn centre_right_of<K: Arith>(
    k: K,
    x: Double,
    beta: Double,
    rb: RegionBoundaries,
) -> Double {
    let at_c = quot(k, num(ONE), rb.bp_c);
    let at_u = inverse_slope_of(k, x, rb.sigma_u);
    let r = control_left_of(
        k,
        rb.b_c,
        rb.b_u,
        rb.sigma_c,
        rb.sigma_u,
        at_c,
        at_u,
        num(ZERO),
    );
    cubic_of(k, beta, rb.b_c, rb.b_u, rb.sigma_c, rb.sigma_u, at_c, at_u, r)
}

/// The guess right of the inflection point.
pub fn initial_guess_centre_right<K: Arith>(
    k: &K,
    x: Double,
    beta: Double,
    rb: &RegionBoundaries,
) -> (r: Double)
    ensures
        steady(*k) ==> r == centre_right_of(*k, x, beta, *rb),
{
    let at_c = k.over(num(ONE), rb.bp_c);
    let at_u = k.over(num(ONE), b_prime(k, x, rb.sigma_u));
    let r = dg_r_left(k, rb.b_c, rb.b_u, rb.sigma_c, rb.sigma_u, at_c, at_u, num(ZERO));
    dg_rational_cubic(k, beta, rb.b_c, rb.b_u, rb.sigma_c, rb.sigma_u, at_c, at_u, r)
}

/// The transformed volatility of the upper region.
pub open spec fn f_u_of<K: Arith>(k: K, sigma: Double) -> Double {
    phi_hart_of(k, prod(k, num(MINUS_HALF), sigma))
}

/// The transformed volatility of the upper region.
fn f_u<K: Arith>(k: &K, sigma: Double) -> (r: Double)
    ensures
        steady(*k) ==> r == f_u_of(*k, sigma),
{
    phi_hart(k, k.times(num(MINUS_HALF), sigma))
}

/// Its slope in the price.
pub open spec fn fp_u_of<K: Arith>(k: K, x: Double, sigma: Double) -> Double {
    let h = quot(k, x, sigma);
    prod(k, num(MINUS_HALF), exp_of(k, prod(k, prod(k, num(HALF), h), h)))
}

/// Its slope in the price.
fn fp_u<K: Arith>(k: &K, x: Double, sigma: Double) -> (r: Double)
    ensures
        steady(*k) ==> r == fp_u_of(*k, x, sigma),
{
    let h = k.over(x, sigma);
    k.times(num(MINUS_HALF), k.exp(k.times(k.times(num(HALF), h), h)))
}

/// Its second derivative in the price.
pub open spec fn fpp_u_of<K: Arith>(k: K, x: Double, sigma: Double) -> Double {
    let h = quot(k, x, sigma);
    let coefficient = quot(
        k,
        prod(k, sqrt_of(k, num(HALF_PI)), prod(k, x, x)),
        cube_of(k, sigma),
    );
    let e = sum(k, prod(k, h, h), prod(k, prod(k, num(EIGHTH), sigma), sigma));
    prod(k, coefficient, exp_of(k, e))
}

/// Its second derivative in the price.
fn fpp_u<K: Arith>(k: &K, x: Double, sigma: Double) -> (r: Double)
    ensures
        steady(*k) ==> r == fpp_u_of(*k, x, sigma),
{
    let h = k.over(x, sigma);
    let cube = k.times(k.times(sigma, sigma), sigma);
    let coefficient = k.over(k.times(k.sqrt(num(HALF_PI)), k.times(x, x)), cube);
    let e = k.plus(k.times(h, h), k.times(k.times(num(EIGHTH), sigma), sigma));
    k.times(coefficient, k.exp(e))
}

/// The guess in the upper region: a cubic of the transformed volatility from
/// `b_u` to the bound, taken back.
pub open spec fn upper_of<K: Arith>(k: K, x: Double, beta: Double, rb: RegionBoundaries) -> Double {
    let f = f_u_of(k, rb.sigma_u);
    let fp = fp_u_of(k, x, rb.sigma_u);
    let r = control_left_of(
        k,
        rb.b_u,
        rb.b_max,
        f,
        num(ZERO),
        fp,
        num(MINUS_HALF),
        fpp_u_of(k, x, rb.sigma_u),
    );
    let y = cubic_of(k, beta, rb.b_u, rb.b_max, f, num(ZERO), fp, num(MINUS_HALF), r);
    prod(k, num(MINUS_TWO), phi_inv_of(k, y))
}

/// The guess in the upper region.
pub fn initial_guess_upper<K: Arith>(
    k: &K,
    x: Double,
    beta: Double,
    rb: &RegionBoundaries,
) -> (r: Double)
    ensures
        steady(*k) ==> r == upper_of(*k, x, beta, *rb),
{
    let f = f_u(k, rb.sigma_u);
    let fp = fp_u(k, x, rb.sigma_u);
    let fpp = fpp_u(k, x, rb.sigma_u);
    let r = dg_r_left(k, rb.b_u, rb.b_max, f, num(ZERO), fp, num(MINUS_HALF), fpp);
    let y = dg_rational_cubic(
        k,
        beta,
        rb.b_u,
        rb.b_max,
        f,
        num(ZERO),
        fp,
        num(MINUS_HALF),
        r,
    );
    k.times(num(MINUS_TWO), phi_inv(k, y))
}

/// The argument of the lower transformation.
pub open spec fn lower_z_of<K: Arith>(k: K, x: Double, sigma: Double) -> Double {
    quot(k, flipped(unsigned(x)), prod(k, num(SQRT_THREE), sigma))
}

/// The transformed volatility of the lower region.
pub open spec fn f_l_of<K: Arith>(k: K, x: Double, sigma: Double) -> Double {
    let p = phi_hart_of(k, lower_z_of(k, x, sigma));
    let coefficient = quot(k, prod(k, num(TWO_PI), unsigned(x)), num(THREE_SQRT_THREE));
    prod(k, prod(k, prod(k, coefficient, p), p), p)
}

/// The transformed volatility of the lower region.
fn f_l<K: Arith>(k: &K, x: Double, sigma: Double) -> (r: Double)
    ensures
        steady(*k) ==> r == f_l_of(*k, x, sigma),
{
    let magnitude = x.abs();
    let z = k.over(magnitude.neg(), k.times(num(SQRT_THREE), sigma));
    let coefficient = k.over(k.times(num(TWO_PI), magnitude), num(THREE_SQRT_THREE));
    let p = phi_hart(k, z);
    k.times(k.times(k.times(coefficient, p), p), p)
}

/// Its slope in the price.
pub open spec fn fp_l_of<K: Arith>(k: K, x: Double, sigma: Double) -> Double {
    let z = lower_z_of(k, x, sigma);
    let p = phi_hart_of(k, z);
    let z2 = prod(k, z, z);
    let e = sum(k, z2, prod(k, prod(k, num(EIGHTH), sigma), sigma));
    prod(k, prod(k, prod(k, prod(k, num(TWO_PI), z2), p), p), exp_of(k, e))
}

/// Its slope in the price.
fn fp_l<K: Arith>(k: &K, x: Double, sigma: Double) -> (r: Double)
    ensures
        steady(*k) ==> r == fp_l_of(*k, x, sigma),
{
    let z = k.over(x.abs().neg(), k.times(num(SQRT_THREE), sigma));
    let p = phi_hart(k, z);
    let z2 = k.times(z, z);
    let e = k.plus(z2, k.times(k.times(num(EIGHTH), sigma), sigma));
    k.times(k.times(k.times(k.times(num(TWO_PI), z2), p), p), k.exp(e))
}

/// Its second derivative in the price, by a difference quotient.
pub open spec fn fpp_l_of<K: Arith>(k: K, x: Double, sigma: Double) -> Double {
    let h = prod(k, num(NUDGE), sigma);
    let rise = diff(k, fp_l_of(k, x, sum(k, sigma, h)), fp_l_of(k, x, diff(k, sigma, h)));
    quot(k, quot(k, rise, prod(k, num(TWO), h)), b_prime_of(k, x, sigma))
}

/// Its second derivative in the price, by a difference quotient.
fn fpp_l<K: Arith>(k: &K, x: Double, sigma: Double) -> (r: Double)
    ensures
        steady(*k) ==> r == fpp_l_of(*k, x, sigma),
{
    let h = k.times(num(NUDGE), sigma);
    let above = fp_l(k, x, k.plus(sigma, h));
    let below = fp_l(k, x, k.minus(sigma, h));
    let slope = k.over(k.minus(above, below), k.times(num(TWO), h));
    k.over(slope, b_prime(k, x, sigma))
}

/// The guess in the lower region: a cubic of the transformed volatility from
/// zero to `b_l`, taken back.
pub open spec fn lower_of<K: Arith>(k: K, x: Double, beta: Double, rb: RegionBoundaries) -> Double {
    let f = f_l_of(k, x, rb.sigma_l);
    let fp = fp_l_of(k, x, rb.sigma_l);
    let r = control_right_of(
        k,
        num(ZERO),
        rb.b_l,
        num(ZERO),
        f,
        num(ONE),
        fp,
        fpp_l_of(k, x, rb.sigma_l),
    );
    let y = cubic_of(k, beta, num(ZERO), rb.b_l, num(ZERO), f, num(ONE), fp, r);
    let ratio = quot(k, y, prod(k, num(TWO_PI), unsigned(x)));
    let root = exp_of(k, quot(k, ln_of(k, ratio), num(THREE)));
    let z = phi_inv_of(k, prod(k, root, num(SQRT_THREE)));
    unsigned(quot(k, unsigned(x), prod(k, num(SQRT_THREE), unsigned(z))))
}

/// The guess in the lower region.
pub fn initial_guess_lower<K: Arith>(
    k: &K,
    x: Double,
    beta: Double,
    rb: &RegionBoundaries,
) -> (r: Double)
    ensures
        steady(*k) ==> r == lower_of(*k, x, beta, *rb),
{
    let magnitude = x.abs();
    let f = f_l(k, x, rb.sigma_l);
    let fp = fp_l(k, x, rb.sigma_l);
    let fpp = fpp_l(k, x, rb.sigma_l);
    let r = dg_r_right(k, num(ZERO), rb.b_l, num(ZERO), f, num(ONE), fp, fpp);
    let y = dg_rational_cubic(k, beta, num(ZERO), rb.b_l, num(ZERO), f, num(ONE), fp, r);
    let ratio = k.over(y, k.times(num(TWO_PI), magnitude));
    let root = k.exp(k.over(k.ln(ratio), num(THREE)));
    let z = phi_inv(k, k.times(root, num(SQRT_THREE)));
    k.over(magnitude, k.times(num(SQRT_THREE), z.abs())).abs()
}

/// The guess of a region.
pub open spec fn region_guess_of<K: Arith>(
    k: K,
    region: Region,
    x: Double,
    beta: Double,
    rb: RegionBoundaries,
) -> Double {
    match region {
        Region::Lower => lower_of(k, x, beta, rb),
        Region::CentreLeft => centre_left_of(k, x, beta, rb),
        Region::CentreRight => centre_right_of(k, x, beta, rb),
        Region::Upper => upper_of(k, x, beta, rb),
    }
}

/// The initial guess: that of the region of the price.
pub fn initial_guess<K: Arith>(k: &K, x: Double, beta: Double, rb: &RegionBoundaries) -> (r: Double)
    ensures
        steady(*k) ==> r == region_guess_of(*k, region_of(beta, *rb), x, beta, *rb),
{
    let region: i64 = classify_region(beta, rb);
    if region == 0 {
        initial_guess_lower(k, x, beta, rb)
    } else if region == 1 {
        initial_guess_centre_left(k, x, beta, rb)
    } else if region == 2 {
        initial_guess_centre_right(k, x, beta, rb)
    } else {
        initial_guess_upper(k, x, beta, rb)
    }
}

/// An objective and its first three derivatives.
#[derive(Clone, Copy, Debug, PartialEq, Eq, Structural)]
pub struct Objective {
    pub g: Double,
    pub gp: Double,
    pub gpp: Double,
    pub gppp: Double,
}

/// One Householder step of third order, its denominator kept away from zero.
pub open spec fn householder_of<K: Arith>(k: K, sigma: Double, o: Objective) -> Double {
    let top = prod(
        k,
        prod(k, num(THREE), o.g),
        diff(k, prod(k, prod(k, num(TWO), o.gp), o.gp), prod(k, o.g, o.gpp)),
    );
    let bottom = diff(
        k,
        sum(
            k,
            prod(k, prod(k, prod(k, num(SIX), o.gp), o.gp), o.gp),
            prod(k, prod(k, o.g, o.g), o.gppp),
        ),
        prod(k, prod(k, prod(k, num(SIX), o.g), o.gp), o.gpp),
    );
    diff(k, sigma, quot(k, top, step_denominator(bottom)))
}

/// One Householder step of third order.
pub fn householder3_step<K: Arith>(
    k: &K,
    sigma: Double,
    g: Double,
    gp: Double,
    gpp: Double,
    gppp: Double,
) -> (r: Double)
    ensures
        steady(*k) ==> r == householder_of(*k, sigma, (Objective { g, gp, gpp, gppp })),
{
    let top = k.times(
        k.times(num(THREE), g),
        k.minus(k.times(k.times(num(TWO), gp), gp), k.times(g, gpp)),
    );
    let bottom = k.minus(
        k.plus(
            k.times(k.times(k.times(num(SIX), gp), gp), gp),
            k.times(k.times(g, g), gppp),
        ),
        k.times(k.times(k.times(num(SIX), g), gp), gpp),
    );
    k.minus(sigma, k.over(top, guard_step(bottom)))
}

/// The price and its first three derivatives.
#[derive(Clone, Copy, Debug, PartialEq, Eq, Structural)]
pub struct Expansion {
    pub b: Double,
    pub bp: Double,
    pub bpp: Double,
    pub bppp: Double,
}

/// The price and its first three derivatives at `sigma`.
pub open spec fn expansion_of<K: Arith>(k: K, x: Double, sigma: Double) -> Expansion {
    Expansion {
        b: b_of(k, x, sigma),
        bp: b_prime_of(k, x, sigma),
        bpp: b_double_prime_of(k, x, sigma),
        bppp: b_triple_prime_of(k, x, sigma),
    }
}

/// The price and its first three derivatives at `sigma`.
pub fn expansion<K: Arith>(k: &K, x: Double, sigma: Double) -> (r: Expansion)
    ensures
        steady(*k) ==> r == expansion_of(*k, x, sigma),
{
    Expansion {
        b: b_normalized(k, x, sigma),
        bp: b_prime(k, x, sigma),
        bpp: b_double_prime(k, x, sigma),
        bppp: b_triple_prime(k, x, sigma),
    }
}

/// The objective of the centre: the price less `beta`.
pub open spec fn middle_of<K: Arith>(k: K, e: Expansion, beta: Double) -> Objective {
    Objective { g: diff(k, e.b, beta), gp: e.bp, gpp: e.bpp, gppp: e.bppp }
}

/// The objective of the centre.
pub fn objective_middle<K: Arith>(k: &K, x: Double, sigma: Double, beta: Double) -> (r: Objective)
    ensures
        steady(*k) ==> r == middle_of(*k, expansion_of(*k, x, sigma), beta),
{
    let e = expansion(k, x, sigma);
    Objective { g: k.minus(e.b, beta), gp: e.bp, gpp: e.bpp, gppp: e.bppp }
}

/// The objective of the lower region: the difference of the reciprocal
/// logarithms of price and `beta`.
pub open spec fn low_of<K: Arith>(k: K, e: Expansion, beta: Double) -> Objective {
    let l = ln_of(k, e.b);
    let lp = quot(k, e.bp, e.b);
    let lpp = diff(k, quot(k, e.bpp, e.b), prod(k, lp, lp));
    let lppp = diff(
        k,
        diff(k, quot(k, e.bppp, e.b), prod(k, prod(k, num(THREE), lp), lpp)),
        prod(k, prod(k, lp, lp), lp),
    );
    let l2 = prod(k, l, l);
    Objective {
        g: diff(k, quot(k, num(ONE), l), quot(k, num(ONE), ln_of(k, beta))),
        gp: quot(k, flipped(lp), l2),
        gpp: quot(
            k,
            diff(k, prod(k, prod(k, num(TWO), lp), lp), prod(k, l, lpp)),
            prod(k, l2, l),
        ),
        gppp: quot(
            k,
            diff(
                k,
                diff(
                    k,
                    prod(k, prod(k, prod(k, num(SIX), l), lp), lpp),
                    prod(k, l2, lppp),
                ),
                prod(k, prod(k, prod(k, num(SIX), lp), lp), lp),
            ),
            prod(k, l2, l2),
        ),
    }
}

/// The objective of the lower region.
pub fn objective_lower<K: Arith>(k: &K, x: Double, sigma: Double, beta: Double) -> (r: Objective)
    ensures
        steady(*k) ==> r == low_of(*k, expansion_of(*k, x, sigma), beta),
{
    let e = expansion(k, x, sigma);
    let l = k.ln(e.b);
    let lp = k.over(e.bp, e.b);
    let lpp = k.minus(k.over(e.bpp, e.b), k.times(lp, lp));
    let lppp = k.minus(
        k.minus(k.over(e.bppp, e.b), k.times(k.times(num(THREE), lp), lpp)),
        k.times(k.times(lp, lp), lp),
    );
    let l2 = k.times(l, l);
    let g = k.minus(k.over(num(ONE), l), k.over(num(ONE), k.ln(beta)));
    let gp = k.over(lp.neg(), l2);
    let gpp = k.over(
        k.minus(k.times(k.times(num(TWO), lp), lp), k.times(l, lpp)),
        k.times(l2, l),
    );
    let top = k.minus(
        k.minus(k.times(k.times(k.times(num(SIX), l), lp), lpp), k.times(l2, lppp)),
        k.times(k.times(k.times(num(SIX), lp), lp), lp),
    );
    Objective { g, gp, gpp, gppp: k.over(top, k.times(l2, l2)) }
}

/// The objective of the upper region: the logarithm of how far `beta` is from
/// the bound, over how far the price is.
pub open spec fn high_of<K: Arith>(k: K, e: Expansion, beta: Double, bound: Double) -> Objective {
    let h = diff(k, bound, e.b);
    let h2 = prod(k, h, h);
    Objective {
        g: ln_of(k, quot(k, diff(k, bound, beta), h)),
        gp: quot(k, e.bp, h),
        gpp: sum(k, quot(k, e.bpp, h), quot(k, prod(k, e.bp, e.bp), h2)),
        gppp: sum(
            k,
            sum(
                k,
                quot(k, e.bppp, h),
                quot(k, prod(k, prod(k, num(THREE), e.bp), e.bpp), h2),
            ),
            quot(k, prod(k, prod(k, prod(k, num(TWO), e.bp), e.bp), e.bp), prod(k, h2, h)),
        ),
    }
}

/// The objective of the upper region.
pub fn objective_upper<K: Arith>(
    k: &K,
    x: Double,
    sigma: Double,
    beta: Double,
    bound: Double,
) -> (r: Objective)
    ensures
        steady(*k) ==> r == high_of(*k, expansion_of(*k, x, sigma), beta, bound),
{
    let e = expansion(k, x, sigma);
    let h = k.minus(bound, e.b);
    let h2 = k.times(h, h);
    let g = k.ln(k.over(k.minus(bound, beta), h));
    let gp = k.over(e.bp, h);
    let gpp = k.plus(k.over(e.bpp, h), k.over(k.times(e.bp, e.bp), h2));
    let second = k.over(k.times(k.times(num(THREE), e.bp), e.bpp), h2);
    let third = k.over(k.times(k.times(k.times(num(TWO), e.bp), e.bp), e.bp), k.times(h2, h));
    Objective { g, gp, gpp, gppp: k.plus(k.plus(k.over(e.bppp, h), second), third) }
}

/// The objective of a branch at `sigma`.
pub open spec fn objective_of<K: Arith>(
    k: K,
    branch: Branch,
    x: Double,
    sigma: Double,
    beta: Double,
    bound: Double,
) -> Objective {
    let e = expansion_of(k, x, sigma);
    match branch {
        Branch::Lower => low_of(k, e, beta),
        Branch::Middle => middle_of(k, e, beta),
        Branch::Upper => high_of(k, e, beta, bound),
    }
}

/// One refinement of `sigma` on the objective of the branch.
pub open spec fn refined_of<K: Arith>(
    k: K,
    branch: Branch,
    x: Double,
    sigma: Double,
    beta: Double,
    bound: Double,
) -> Double {
    householder_of(k, sigma, objective_of(k, branch, x, sigma, beta, bound))
}

/// One refinement of `sigma` on the objective of the branch.
pub fn refine<K: Arith>(
    k: &K,
    branch: Branch,
    x: Double,
    sigma: Double,
    beta: Double,
    bound: Double,
) -> (r: Double)
    ensures
        steady(*k) ==> r == refined_of(*k, branch, x, sigma, beta, bound),
{
    let o = match branch {
        Branch::Lower => objective_lower(k, x, sigma, beta),
        Branch::Middle => objective_middle(k, x, sigma, beta),
        Branch::Upper => objective_upper(k, x, sigma, beta, bound),
    };
    householder3_step(k, sigma, o.g, o.gp, o.gpp, o.gppp)
}

/// What two refinements make of a guess.
pub open spec fn solved_from<K: Arith>(
    k: K,
    branch: Branch,
    x: Double,
    beta: Double,
    rb: RegionBoundaries,
    begin: Double,
) -> Double {
    let once = refined_of(k, branch, x, begin, beta, rb.b_max);
    refined_of(k, branch, x, once, beta, rb.b_max)
}

/// Refines a guess twice.
pub fn refine_twice<K: Arith>(
    k: &K,
    branch: Branch,
    x: Double,
    beta: Double,
    rb: &RegionBoundaries,
    begin: Double,
) -> (r: Double)
    ensures
        steady(*k) ==> r == solved_from(*k, branch, x, beta, *rb, begin),
{
    let once = refine(k, branch, x, begin, beta, rb.b_max);
    refine(k, branch, x, once, beta, rb.b_max)
}

/// The guess that a branch starts from: in the centre, that of the side of the
/// inflection point that the price is on.
pub open spec fn branch_guess_of<K: Arith>(
    k: K,
    branch: Branch,
    x: Double,
    beta: Double,
    rb: RegionBoundaries,
) -> Double {
    match branch {
        Branch::Lower => lower_of(k, x, beta, rb),
        Branch::Upper => upper_of(k, x, beta, rb),
        Branch::Middle => if beta.at_most(rb.b_c) {
            centre_left_of(k, x, beta, rb)
        } else {
            centre_right_of(k, x, beta, rb)
        },
    }
}

/// The price lies in the band that the branch serves.
pub open spec fn served(branch: Branch, beta: Double, rb: RegionBoundaries) -> bool {
    match branch {
        Branch::Lower => positive(beta) && beta.at_most(rb.b_l),
        Branch::Middle => rb.b_l.at_most(beta) && beta.at_most(rb.b_u),
        Branch::Upper => rb.b_u.below(beta) && beta.below(rb.b_max),
    }
}

/// What a branch finds, whatever its band.
pub open spec fn branch_found_of<K: Arith>(
    k: K,
    branch: Branch,
    x: Double,
    beta: Double,
    rb: RegionBoundaries,
) -> Double {
    solved_from(k, branch, x, beta, rb, branch_guess_of(k, branch, x, beta, rb))
}

/// What a branch returns: a NaN outside its band.
pub open spec fn branch_solved_of<K: Arith>(
    k: K,
    branch: Branch,
    x: Double,
    beta: Double,
    rb: RegionBoundaries,
) -> Double {
    if served(branch, beta, rb) {
        branch_found_of(k, branch, x, beta, rb)
    } else {
        num(NAN)
    }
}

/// Solves in the lower region.
pub fn solve_lower<K: Arith>(k: &K, x: Double, beta: Double, rb: &RegionBoundaries) -> (r: Double)
    ensures
        steady(*k) ==> r == branch_solved_of(*k, Branch::Lower, x, beta, *rb),
        !served(Branch::Lower, beta, *rb) ==> r == num(NAN),
{
    if num(ZERO).lt(beta) && beta.le(rb.b_l) {
        solve_lower_dense(k, x, beta, rb)
    } else {
        num(NAN)
    }
}

/// Solves in the two centre regions.
pub fn solve_middle<K: Arith>(k: &K, x: Double, beta: Double, rb: &RegionBoundaries) -> (r: Double)
    ensures
        steady(*k) ==> r == branch_solved_of(*k, Branch::Middle, x, beta, *rb),
        !served(Branch::Middle, beta, *rb) ==> r == num(NAN),
{
    if rb.b_l.le(beta) && beta.le(rb.b_u) {
        if beta.le(rb.b_c) {
            solve_centre_left(k, x, beta, rb)
        } else {
            solve_centre_right(k, x, beta, rb)
        }
    } else {
        num(NAN)
    }
}

/// Solves in the upper region.
pub fn solve_upper<K: Arith>(k: &K, x: Double, beta: Double, rb: &RegionBoundaries) -> (r: Double)
    ensures
        steady(*k) ==> r == branch_solved_of(*k, Branch::Upper, x, beta, *rb),
        !served(Branch::Upper, beta, *rb) ==> r == num(NAN),
{
    if rb.b_u.lt(beta) && beta.lt(rb.b_max) {
        solve_upper_dense(k, x, beta, rb)
    } else {
        num(NAN)
    }
}

/// Solves a price that is known to lie left of the inflection point.
pub fn solve_centre_left<K: Arith>(
    k: &K,
    x: Double,
    beta: Double,
    rb: &RegionBoundaries,
) -> (r: Double)
    ensures
        steady(*k) ==> r == solved_from(
            *k,
            Branch::Middle,
            x,
            beta,
            *rb,
            centre_left_of(*k, x, beta, *rb),
        ),
{
    let begin = initial_guess_centre_left(k, x, beta, rb);
    refine_twice(k, Branch::Middle, x, beta, rb, begin)
}

/// Solves a price that is known to lie right of the inflection point.
pub fn solve_centre_right<K: Arith>(
    k: &K,
    x: Double,
    beta: Double,
    rb: &RegionBoundaries,
) -> (r: Double)
    ensures
        steady(*k) ==> r == solved_from(
            *k,
            Branch::Middle,
            x,
            beta,
            *rb,
            centre_right_of(*k, x, beta, *rb),
        ),
{
    let begin = initial_guess_centre_right(k, x, beta, rb);
    refine_twice(k, Branch::Middle, x, beta, rb, begin)
}

/// Solves a price that is known to lie in the lower region.
pub fn solve_lower_dense<K: Arith>(
    k: &K,
    x: Double,
    beta: Double,
    rb: &RegionBoundaries,
) -> (r: Double)
    ensures
        steady(*k) ==> r == branch_found_of(*k, Branch::Lower, x, beta, *rb),
{
    let begin = initial_guess_lower(k, x, beta, rb);
    refine_twice(k, Branch::Lower, x, beta, rb, begin)
}

/// Solves a price that is known to lie in the upper region.
pub fn solve_upper_dense<K: Arith>(
    k: &K,
    x: Double,
    beta: Double,
    rb: &RegionBoundaries,
) -> (r: Double)
    ensures
        steady(*k) ==> r == branch_found_of(*k, Branch::Upper, x, beta, *rb),
{
    let begin = initial_guess_upper(k, x, beta, rb);
    refine_twice(k, Branch::Upper, x, beta, rb, begin)
}

/// What the branch of a price returns for it.
pub open spec fn rational_of<K: Arith>(
    k: K,
    x: Double,
    beta: Double,
    rb: RegionBoundaries,
) -> Double {
    branch_solved_of(k, branch_of(region_of(beta, rb)), x, beta, rb)
}

/// The rational solver may return `r` for the price.
pub open spec fn rational_answer<K: Arith>(
    k: K,
    x: Double,
    beta: Double,
    rb: RegionBoundaries,
    r: Double,
) -> bool {
    &&& steady(k) ==> r == rational_of(k, x, beta, rb)
    &&& !served(branch_of(region_of(beta, rb)), beta, rb) ==> r == num(NAN)
}

/// Every price of the pack belongs to the branch.
pub open spec fn all_of(
    which: Branch,
    beta: [Double; LANES],
    rb: [RegionBoundaries; LANES],
) -> bool {
    forall|j: int|
        0 <= j < LANES ==> branch_of(region_of(#[trigger] beta[j], rb[j])) == which
}

/// Whether every price of the pack belongs to the branch.
pub fn all_in(which: Branch, beta: &[Double; LANES], rb: &[RegionBoundaries; LANES]) -> (r: bool)
    ensures
        r == all_of(which, *beta, *rb),
{
    let mut j: usize = 0;
    while j < LANES
        invariant
            j <= LANES,
            forall|i: int|
                0 <= i < j ==> branch_of(region_of(#[trigger] beta@[i], rb@[i])) == which,
        decreases LANES - j,
    {
        if branch(beta[j], &rb[j]) != which {
            assert(branch_of(region_of(beta@[j as int], rb@[j as int])) != which);
            return false;
        }
        j += 1;
    }
    true
}

/// A branch may return `out` for the pack.
pub open spec fn branch_answers<K: Arith>(
    k: K,
    which: Branch,
    x: [Double; LANES],
    beta: [Double; LANES],
    rb: [RegionBoundaries; LANES],
    out: [Double; LANES],
) -> bool {
    forall|j: int|
        0 <= j < LANES ==> {
            &&& steady(k) ==> #[trigger] out[j] == branch_solved_of(k, which, x[j], beta[j], rb[j])
            &&& !served(which, beta[j], rb[j]) ==> out[j] == num(NAN)
        }
}

/// Runs one branch on every lane of a pack.
pub fn run_branch<K: Arith>(
    k: &K,
    which: Branch,
    x: &[Double; LANES],
    beta: &[Double; LANES],
    rb: &[RegionBoundaries; LANES],
) -> (out: [Double; LANES])
    ensures
        branch_answers(*k, which, *x, *beta, *rb, out),
{
    let mut out: [Double; LANES] = [num(NAN);LANES];
    let mut j: usize = 0;
    while j < LANES
        invariant
            j <= LANES,
            forall|i: int|
                0 <= i < j ==> {
                    &&& steady(*k) ==> #[trigger] out@[i] == branch_solved_of(
                        *k,
                        which,
                        x@[i],
                        beta@[i],
                        rb@[i],
                    )
                    &&& !served(which, beta@[i], rb@[i]) ==> out@[i] == num(NAN)
                },
        decreases LANES - j,
    {
        out[j] = match which {
            Branch::Lower => solve_lower(k, x[j], beta[j], &rb[j]),
            Branch::Middle => solve_middle(k, x[j], beta[j], &rb[j]),
            Branch::Upper => solve_upper(k, x[j], beta[j], &rb[j]),
        };
        j += 1;
    }
    out
}

/// The rational solver on a pack. A pack of one branch runs that branch alone;
/// a mixed pack runs all three, and each lane takes the result of its own.
pub fn solve_rational<K: Arith>(
    k: &K,
    x: &[Double; LANES],
    beta: &[Double; LANES],
    rb: &[RegionBoundaries; LANES],
) -> (out: [Double; LANES])
    ensures
        forall|j: int|
            0 <= j < LANES ==> rational_answer(*k, x[j], beta[j], rb[j], #[trigger] out[j]),
{
    let first = branch(beta[0], &rb[0]);
    if all_in(first, beta, rb) {
        let out = run_branch(k, first, x, beta, rb);
        assert forall|j: int| 0 <= j < LANES implies rational_answer(
            *k,
            x[j],
            beta[j],
            rb[j],
            #[trigger] out[j],
        ) by {
            assert(branch_of(region_of(beta[j], rb[j])) == first);
        }
        return out;
    }
    let lower = run_branch(k, Branch::Lower, x, beta, rb);
    let middle = run_branch(k, Branch::Middle, x, beta, rb);
    let upper = run_branch(k, Branch::Upper, x, beta, rb);
    let mut out: [Double; LANES] = middle;
    let mut j: usize = 0;
    while j < LANES
        invariant
            j <= LANES,
            branch_answers(*k, Branch::Lower, *x, *beta, *rb, lower),
            branch_answers(*k, Branch::Middle, *x, *beta, *rb, middle),
            branch_answers(*k, Branch::Upper, *x, *beta, *rb, upper),
            forall|i: int|
                0 <= i < j ==> rational_answer(*k, x@[i], beta@[i], rb@[i], #[trigger] out@[i]),
        decreases LANES - j,
    {
        out[j] = match branch(beta[j], &rb[j]) {
            Branch::Lower => lower[j],
            Branch::Middle => middle[j],
            Branch::Upper => upper[j],
        };
        j += 1;
    }
    out
}

/// Between anchors in order, the regions part the prices: each price lies in
/// exactly the interval of its region, and a NaN counts as upper.
pub proof fn law_regions_part_the_prices(beta: Double, rb: RegionBoundaries)
    requires
        rb.b_l.below(rb.b_c),
        rb.b_c.below(rb.b_u),
    ensures
        region_of(beta, rb) is Lower <==> beta.at_most(rb.b_l),
        region_of(beta, rb) is CentreLeft <==> rb.b_l.below(beta) && beta.at_most(rb.b_c),
        region_of(beta, rb) is CentreRight <==> rb.b_c.below(beta) && beta.at_most(rb.b_u),
        region_of(beta, rb) is Upper <==> beta.nan() || rb.b_u.below(beta),
{
}

/// The regions leave no gap: between anchors in order, a price is served by the
/// branch of its region exactly when it lies strictly between zero and the
/// bound.
pub proof fn law_branch_serves_its_region(beta: Double, rb: RegionBoundaries)
    requires
        positive(rb.b_l),
        rb.b_l.below(rb.b_c),
        rb.b_c.below(rb.b_u),
        rb.b_u.below(rb.b_max),
    ensures
        served(branch_of(region_of(beta, rb)), beta, rb) <==> positive(beta) && beta.below(
            rb.b_max,
        ),
{
}

/// The guess that the branch of a price starts from is the guess of its region.
pub proof fn law_branch_starts_from_region_guess<K: Arith>(
    k: K,
    x: Double,
    beta: Double,
    rb: RegionBoundaries,
)
    ensures
        branch_guess_of(k, branch_of(region_of(beta, rb)), x, beta, rb) == region_guess_of(
            k,
            region_of(beta, rb),
            x,
            beta,
            rb,
        ),
{
}

/// What a price gets in a pack does not depend on the pack: neither on its lane,
/// nor on the other lanes, nor on which path they make the solver take.
pub proof fn law_pack_does_not_matter<K: Arith>(
    k: K,
    x: Double,
    beta: Double,
    rb: RegionBoundaries,
    one: Double,
    other: Double,
)
    requires
        steady(k),
        rational_answer(k, x, beta, rb, one),
        rational_answer(k, x, beta, rb, other),
    ensures
        one == other,
{
}

/// The canonical side: never above the forward, the same distance from it, and
/// already taken where it is.
pub proof fn law_canonical_side(x: Double)
    ensures
        canonical_x(x).value() <= 0,
        canonical_x(x).value() == if x.value() <= 0 { x.value() } else { -x.value() },
        canonical_x(canonical_x(x)) == canonical_x(x),
        x.negative() ==> canonical_x(x) == x,
{
    lemma_units_zero(x.magnitude());
    lemma_units_zero(0);
}

/// An option that is out of the money keeps its price; of a call and a put on
/// one strike, exactly one is in the money; and one that has been taken to the
/// canonical side as a call is out of the money there, so that taking it again
/// changes nothing.
pub proof fn law_canonical_quadrants<K: Arith>(k: K, x: Double, beta: Double, is_call: bool)
    ensures
        in_the_money(x, true) == !in_the_money(x, false),
        !in_the_money(x, is_call) ==> canonical_beta(k, x, beta, is_call) == beta,
        !in_the_money(canonical_x(x), true),
        canonical_beta(k, canonical_x(x), beta, true) == beta,
{
    lemma_units_zero(x.magnitude());
    lemma_units_zero(0);
}

/// A difference quotient takes steps of a hundred-thousandth part.
pub proof fn law_rational_thresholds()
    ensures
        rounds(num(NUDGE), 1, 100000),
{
    lemma2_to64();
    lemma2_to64_rest();
    lemma_pow2_two_words(5);
    lemma_rounds(num(NUDGE), 1006, 5902958103587057, 590295810358705651712int, 1, 100000);
}

/// An option in the money loses its intrinsic value, at every distance from the
/// forward: a call with `x` above zero, or a put with `x` not above zero, at
/// `beta` becomes the call at `-|x|` whose price is `beta` less
/// `exp(|x| / 2) - exp(-|x| / 2)`. An option out of the money keeps its price.
pub proof fn law_canonical_price_is_time_value<K: Arith>(
    k: K,
    x: Double,
    beta: Double,
    is_call: bool,
)
    ensures
        ({
            let half = prod(k, num(HALF), unsigned(x));
            let intrinsic = diff(k, exp_of(k, half), exp_of(k, flipped(half)));
            &&& is_call && num(ZERO).below(x) ==> canonical_beta(k, x, beta, is_call) == diff(
                k,
                beta,
                intrinsic,
            )
            &&& !is_call && !num(ZERO).below(x) ==> canonical_beta(k, x, beta, is_call) == diff(
                k,
                beta,
                intrinsic,
            )
            &&& is_call && !num(ZERO).below(x) ==> canonical_beta(k, x, beta, is_call) == beta
            &&& !is_call && num(ZERO).below(x) ==> canonical_beta(k, x, beta, is_call) == beta
        }),
{
}

/// The two options on one strike have one canonical form: where the one in the
/// money costs `beta`, and the other costs that less the intrinsic value, as
/// parity has it, they are the same call out of the money, at every `x`.
pub proof fn law_both_options_have_one_canonical_form<K: Arith>(
    k: K,
    x: Double,
    inside: Double,
    outside: Double,
)
    requires
        outside == diff(
            k,
            inside,
            diff(
                k,
                exp_of(k, prod(k, num(HALF), unsigned(x))),
                exp_of(k, flipped(prod(k, num(HALF), unsigned(x)))),
            ),
        ),
    ensures
        canonical_beta(k, x, inside, num(ZERO).below(x)) == outside,
        canonical_beta(k, x, outside, !num(ZERO).below(x)) == outside,
{
}

/// A call and a put at opposite log-moneyness and one price have one canonical
/// form.
pub proof fn law_canonical_form_is_dual<K: Arith>(k: K, x: Double, beta: Double)
    requires
        num(ZERO).below(x),
    ensures
        canonical_x(x) == canonical_x(flipped(x)),
        canonical_beta(k, x, beta, true) == canonical_beta(k, flipped(x), beta, false),
        canonical_beta(k, x, beta, false) == canonical_beta(k, flipped(x), beta, true),
{
    assert(unsigned(flipped(x)) == unsigned(x));
    lemma_units_zero(x.magnitude());
    lemma_units_zero(0);
}

/// The anchors: the inflection point, and where the tangent there meets zero and
/// meets the bound; the prices at the three, the bound itself, and the slope of
/// the tangent.
pub proof fn law_anchors_lie_on_the_tangent<K: Arith>(k: K, x: Double)
    ensures
        ({
            let rb = boundaries_of(k, x);
            &&& rb.sigma_c == sqrt_of(k, prod(k, num(TWO), unsigned(x)))
            &&& rb.b_c == b_of(k, x, rb.sigma_c)
            &&& rb.bp_c == b_prime_of(k, x, rb.sigma_c)
            &&& rb.b_max == exp_of(k, prod(k, num(HALF), x))
            &&& rb.sigma_l == diff(k, rb.sigma_c, quot(k, rb.b_c, rb.bp_c))
            &&& rb.sigma_u == sum(
                k,
                rb.sigma_c,
                quot(k, diff(k, rb.b_max, rb.b_c), rb.bp_c),
            )
            &&& rb.b_l == b_of(k, x, rb.sigma_l)
            &&& rb.b_u == b_of(k, x, rb.sigma_u)
        }),
{
}

/// The rational cubic passes through its anchors: at the left one it is the value
/// there, and at the right one the value there, whatever the slopes and the
/// control parameter.
pub proof fn law_cubic_meets_its_anchors<K: Arith>(
    k: K,
    x_l: Double,
    x_r: Double,
    f_l: Double,
    f_r: Double,
    fp_l: Double,
    fp_r: Double,
    r: Double,
)
    requires
        neutral(k),
        diff(k, num(ONE), num(ONE)).finite(),
        x_l.finite() && x_r.finite(),
        diff(k, x_r, x_l).finite() && !is_zero(diff(k, x_r, x_l)),
        quot(k, diff(k, x_r, x_l), diff(k, x_r, x_l)) == num(ONE),
        f_l.finite() && !is_zero(f_l),
        f_r.finite() && !is_zero(f_r),
        diff(k, prod(k, r, f_r), prod(k, diff(k, x_r, x_l), fp_r)).finite(),
        sum(k, prod(k, r, f_l), prod(k, diff(k, x_r, x_l), fp_l)).finite(),
        diff(k, r, num(THREE)).finite(),
    ensures
        cubic_of(k, x_l, x_l, x_r, f_l, f_r, fp_l, fp_r, r) == f_l,
        cubic_of(k, x_r, x_l, x_r, f_l, f_r, fp_l, fp_r, r) == f_r,
{
    let h = diff(k, x_r, x_l);
    let a = diff(k, prod(k, r, f_r), prod(k, h, fp_r));
    let b = sum(k, prod(k, r, f_l), prod(k, h, fp_l));
    let c = diff(k, r, num(THREE));
    let one = num(ONE);
    assert(one.finite() && !is_zero(one));
    assert(prod(k, one, one) == one);
    {
        let s = quot(k, diff(k, x_l, x_l), h);
        assert(is_zero(s));
        assert(diff(k, one, s) == one);
        let s2 = prod(k, s, s);
        assert(is_zero(s2));
        assert(is_zero(prod(k, s2, s)));
        let right = prod(k, f_r, prod(k, s2, s));
        assert(is_zero(right));
        assert(is_zero(prod(k, a, s2)));
        let towards = prod(k, prod(k, a, s2), one);
        assert(is_zero(towards));
        assert(is_zero(prod(k, b, s)));
        let away = prod(k, prod(k, b, s), one);
        assert(is_zero(away));
        assert(is_zero(sum(k, right, towards)));
        assert(is_zero(sum(k, sum(k, right, towards), away)));
        assert(is_zero(prod(k, c, s)));
        assert(is_zero(prod(k, prod(k, c, s), one)));
        assert(sum(k, one, prod(k, prod(k, c, s), one)) == one);
    }
    {
        let t = diff(k, one, one);
        assert(is_zero(t));
        let t2 = prod(k, t, t);
        assert(is_zero(t2));
        let right = prod(k, f_r, prod(k, one, one));
        assert(right == f_r);
        let towards = prod(k, prod(k, a, one), t);
        assert(is_zero(towards));
        let away = prod(k, prod(k, b, one), t2);
        assert(is_zero(away));
        assert(is_zero(prod(k, t2, t)));
        let left = prod(k, f_l, prod(k, t2, t));
        assert(is_zero(left));
        assert(sum(k, right, towards) == f_r);
        assert(sum(k, f_r, away) == f_r);
        assert(sum(k, f_r, left) == f_r);
        assert(is_zero(prod(k, prod(k, c, one), t)));
        assert(sum(k, one, prod(k, prod(k, c, one), t)) == one);
    }
}

/// The rational cubic in full: with `s` the part of the way from the left anchor
/// and `t` the rest of it,
/// `f_r s^3 + (r f_r - h f'_r) s^2 t + (r f_l + h f'_l) s t^2 + f_l t^3` over
/// `1 + (r - 3) s t`.
pub proof fn law_cubic_is_delbourgo_gregory<K: Arith>(
    k: K,
    x: Double,
    x_l: Double,
    x_r: Double,
    f_l: Double,
    f_r: Double,
    fp_l: Double,
    fp_r: Double,
    r: Double,
)
    ensures
        ({
            let h = diff(k, x_r, x_l);
            let s = quot(k, diff(k, x, x_l), h);
            let t = diff(k, num(ONE), s);
            let a = prod(k, f_r, prod(k, prod(k, s, s), s));
            let b = prod(
                k,
                prod(k, diff(k, prod(k, r, f_r), prod(k, h, fp_r)), prod(k, s, s)),
                t,
            );
            let c = prod(
                k,
                prod(k, sum(k, prod(k, r, f_l), prod(k, h, fp_l)), s),
                prod(k, t, t),
            );
            let d = prod(k, f_l, prod(k, prod(k, t, t), t));
            let bottom = sum(k, num(ONE), prod(k, prod(k, diff(k, r, num(THREE)), s), t));
            cubic_of(k, x, x_l, x_r, f_l, f_r, fp_l, fp_r, r) == quot(
                k,
                sum(k, sum(k, sum(k, a, b), c), d),
                bottom,
            )
        }),
{
}

/// The control parameter for a second derivative: half the width times it plus
/// the rise of the slopes, over how far the slope at that anchor is from the
/// chord, on the side that keeps the sign.
pub proof fn law_control_matches_curvature<K: Arith>(
    k: K,
    x_l: Double,
    x_r: Double,
    f_l: Double,
    f_r: Double,
    fp_l: Double,
    fp_r: Double,
    fpp: Double,
)
    ensures
        ({
            let h = diff(k, x_r, x_l);
            let chord = quot(k, diff(k, f_r, f_l), h);
            let top = sum(k, prod(k, prod(k, num(HALF), h), fpp), diff(k, fp_r, fp_l));
            &&& control_left_of(k, x_l, x_r, f_l, f_r, fp_l, fp_r, fpp) == quot(
                k,
                top,
                diff(k, chord, fp_l),
            )
            &&& control_right_of(k, x_l, x_r, f_l, f_r, fp_l, fp_r, fpp) == quot(
                k,
                top,
                diff(k, fp_r, chord),
            )
        }),
{
}

/// The guesses of the centre are cubics of the volatility in the price, from
/// anchor to anchor, with the slopes that the price has there, and flat in the
/// second derivative at the inflection point.
pub proof fn law_centre_guesses_join_at_the_inflection<K: Arith>(
    k: K,
    x: Double,
    beta: Double,
    rb: RegionBoundaries,
)
    ensures
        ({
            let at_l = quot(k, num(ONE), b_prime_of(k, x, rb.sigma_l));
            let at_c = quot(k, num(ONE), rb.bp_c);
            let at_u = quot(k, num(ONE), b_prime_of(k, x, rb.sigma_u));
            let left = control_right_of(
                k,
                rb.b_l,
                rb.b_c,
                rb.sigma_l,
                rb.sigma_c,
                at_l,
                at_c,
                num(ZERO),
            );
            let right = control_left_of(
                k,
                rb.b_c,
                rb.b_u,
                rb.sigma_c,
                rb.sigma_u,
                at_c,
                at_u,
                num(ZERO),
            );
            &&& region_guess_of(k, Region::CentreLeft, x, beta, rb) == cubic_of(
                k,
                beta,
                rb.b_l,
                rb.b_c,
                rb.sigma_l,
                rb.sigma_c,
                at_l,
                at_c,
                left,
            )
            &&& region_guess_of(k, Region::CentreRight, x, beta, rb) == cubic_of(
                k,
                beta,
                rb.b_c,
                rb.b_u,
                rb.sigma_c,
                rb.sigma_u,
                at_c,
                at_u,
                right,
            )
        }),
{
}

/// The guess of the upper region: a cubic of `Phi(-sigma / 2)` in the price, from
/// `b_u` to the bound, where it is zero with slope `-1/2`; the volatility is minus
/// twice the abscissa of what the cubic gives.
pub proof fn law_upper_guess_runs_to_the_bound<K: Arith>(
    k: K,
    x: Double,
    beta: Double,
    rb: RegionBoundaries,
)
    ensures
        ({
            let sigma = rb.sigma_u;
            let h = quot(k, x, sigma);
            let f = phi_hart_of(k, prod(k, num(MINUS_HALF), sigma));
            let fp = prod(
                k,
                num(MINUS_HALF),
                exp_of(k, prod(k, prod(k, num(HALF), h), h)),
            );
            let cube = prod(k, prod(k, sigma, sigma), sigma);
            let factor = quot(
                k,
                prod(k, sqrt_of(k, num(HALF_PI)), prod(k, x, x)),
                cube,
            );
            let e = sum(k, prod(k, h, h), prod(k, prod(k, num(EIGHTH), sigma), sigma));
            let fpp = prod(k, factor, exp_of(k, e));
            let r = control_left_of(
                k,
                rb.b_u,
                rb.b_max,
                f,
                num(ZERO),
                fp,
                num(MINUS_HALF),
                fpp,
            );
            let y = cubic_of(k, beta, rb.b_u, rb.b_max, f, num(ZERO), fp, num(MINUS_HALF), r);
            region_guess_of(k, Region::Upper, x, beta, rb) == prod(
                k,
                num(MINUS_TWO),
                phi_inv_of(k, y),
            )
        }),
{
}

/// The transformed volatility of the lower region, and its slope in the price:
/// with `z = -|x| / (sqrt 3 sigma)`, `2 pi |x| / (3 sqrt 3)` times the cube of
/// `Phi(z)`, and `2 pi z^2 Phi(z)^2 exp(z^2 + sigma^2 / 8)`.
pub proof fn law_lower_transformation<K: Arith>(k: K, x: Double, sigma: Double)
    ensures
        ({
            let z = quot(k, flipped(unsigned(x)), prod(k, num(SQRT_THREE), sigma));
            let p = phi_hart_of(k, z);
            let factor = quot(k, prod(k, num(TWO_PI), unsigned(x)), num(THREE_SQRT_THREE));
            let z2 = prod(k, z, z);
            let e = sum(k, z2, prod(k, prod(k, num(EIGHTH), sigma), sigma));
            let nudge = prod(k, num(NUDGE), sigma);
            &&& f_l_of(k, x, sigma) == prod(k, prod(k, prod(k, factor, p), p), p)
            &&& fp_l_of(k, x, sigma) == prod(
                k,
                prod(k, prod(k, prod(k, num(TWO_PI), z2), p), p),
                exp_of(k, e),
            )
            &&& fpp_l_of(k, x, sigma) == quot(
                k,
                quot(
                    k,
                    diff(
                        k,
                        fp_l_of(k, x, sum(k, sigma, nudge)),
                        fp_l_of(k, x, diff(k, sigma, nudge)),
                    ),
                    prod(k, num(TWO), nudge),
                ),
                b_prime_of(k, x, sigma),
            )
        }),
{
}

/// The guess of the lower region: a cubic of the transformed volatility in the
/// price, from zero, where its slope is one, to `b_l`; the volatility is that
/// whose transform the cubic gives.
pub proof fn law_lower_guess_runs_from_zero<K: Arith>(
    k: K,
    x: Double,
    beta: Double,
    rb: RegionBoundaries,
)
    ensures
        ({
            let f = f_l_of(k, x, rb.sigma_l);
            let fp = fp_l_of(k, x, rb.sigma_l);
            let fpp = fpp_l_of(k, x, rb.sigma_l);
            let r = control_right_of(
                k,
                num(ZERO),
                rb.b_l,
                num(ZERO),
                f,
                num(ONE),
                fp,
                fpp,
            );
            let y = cubic_of(k, beta, num(ZERO), rb.b_l, num(ZERO), f, num(ONE), fp, r);
            let third = quot(
                k,
                ln_of(k, quot(k, y, prod(k, num(TWO_PI), unsigned(x)))),
                num(THREE),
            );
            let z = phi_inv_of(k, prod(k, exp_of(k, third), num(SQRT_THREE)));
            region_guess_of(k, Region::Lower, x, beta, rb) == unsigned(
                quot(k, unsigned(x), prod(k, num(SQRT_THREE), unsigned(z))),
            )
        }),
{
}

/// One refinement goes down by `3 g (2 g1^2 - g g2)` over
/// `6 g1^3 + g^2 g3 - 6 g g1 g2`, where `g1`, `g2` and `g3` are the derivatives
/// of the objective `g`.
pub proof fn law_refinement_is_third_order<K: Arith>(k: K, sigma: Double, o: Objective)
    ensures
        ({
            let top = prod(
                k,
                prod(k, num(THREE), o.g),
                diff(k, prod(k, prod(k, num(TWO), o.gp), o.gp), prod(k, o.g, o.gpp)),
            );
            let cube = prod(k, prod(k, prod(k, num(SIX), o.gp), o.gp), o.gp);
            let square = prod(k, prod(k, o.g, o.g), o.gppp);
            let mixed = prod(k, prod(k, prod(k, num(SIX), o.g), o.gp), o.gpp);
            householder_of(k, sigma, o) == diff(
                k,
                sigma,
                quot(k, top, step_denominator(diff(k, sum(k, cube, square), mixed))),
            )
        }),
{
}

/// A volatility at which the objective vanishes is not moved by a refinement.
pub proof fn law_refinement_rests_at_the_root<K: Arith>(k: K, sigma: Double, o: Objective)
    requires
        neutral(k),
        is_zero(o.g),
        sigma.finite() && !is_zero(sigma),
        diff(k, prod(k, prod(k, num(TWO), o.gp), o.gp), prod(k, o.g, o.gpp)).finite(),
    ensures
        householder_of(k, sigma, o) == sigma,
{
    let three = prod(k, num(THREE), o.g);
    assert(is_zero(three));
    let top = prod(
        k,
        three,
        diff(k, prod(k, prod(k, num(TWO), o.gp), o.gp), prod(k, o.g, o.gpp)),
    );
    assert(is_zero(top));
    let bottom = diff(
        k,
        sum(
            k,
            prod(k, prod(k, prod(k, num(SIX), o.gp), o.gp), o.gp),
            prod(k, prod(k, o.g, o.g), o.gppp),
        ),
        prod(k, prod(k, prod(k, num(SIX), o.g), o.gp), o.gpp),
    );
    law_guard_bounds_away_from_zero(bottom);
    lemma_units_zero(0);
    let d = step_denominator(bottom);
    assert(!is_zero(d) && !d.nan());
    assert(is_zero(quot(k, top, d)));
}

/// The objectives and their derivatives: in the centre the price less `beta`; in
/// the lower region `1 / ln b - 1 / ln beta`; in the upper region the logarithm
/// of the room that `beta` leaves to the bound, over the room that the price
/// leaves.
pub proof fn law_objectives_vanish_at_the_price<K: Arith>(
    k: K,
    x: Double,
    sigma: Double,
    beta: Double,
    bound: Double,
)
    ensures
        ({
            let b = b_of(k, x, sigma);
            let d1 = b_prime_of(k, x, sigma);
            let d2 = b_double_prime_of(k, x, sigma);
            let d3 = b_triple_prime_of(k, x, sigma);
            let low = objective_of(k, Branch::Lower, x, sigma, beta, bound);
            let mid = objective_of(k, Branch::Middle, x, sigma, beta, bound);
            let high = objective_of(k, Branch::Upper, x, sigma, beta, bound);
            let l = ln_of(k, b);
            let lp = quot(k, d1, b);
            let room = diff(k, bound, b);
            &&& mid.g == diff(k, b, beta)
            &&& mid.gp == d1 && mid.gpp == d2 && mid.gppp == d3
            &&& low.g == diff(k, quot(k, num(ONE), l), quot(k, num(ONE), ln_of(k, beta)))
            &&& low.gp == quot(k, flipped(lp), prod(k, l, l))
            &&& high.g == ln_of(k, quot(k, diff(k, bound, beta), room))
            &&& high.gp == quot(k, d1, room)
        }),
{
}

/// The higher derivatives of the two logarithmic objectives.
pub proof fn law_objective_derivatives<K: Arith>(
    k: K,
    x: Double,
    sigma: Double,
    beta: Double,
    bound: Double,
)
    ensures
        ({
            let b = b_of(k, x, sigma);
            let d1 = b_prime_of(k, x, sigma);
            let d2 = b_double_prime_of(k, x, sigma);
            let d3 = b_triple_prime_of(k, x, sigma);
            let low = objective_of(k, Branch::Lower, x, sigma, beta, bound);
            let high = objective_of(k, Branch::Upper, x, sigma, beta, bound);
            let l = ln_of(k, b);
            let lp = quot(k, d1, b);
            let lpp = diff(k, quot(k, d2, b), prod(k, lp, lp));
            let lppp = diff(
                k,
                diff(k, quot(k, d3, b), prod(k, prod(k, num(THREE), lp), lpp)),
                prod(k, prod(k, lp, lp), lp),
            );
            let l2 = prod(k, l, l);
            let six = prod(k, prod(k, prod(k, num(SIX), l), lp), lpp);
            let cubes = prod(k, prod(k, prod(k, num(SIX), lp), lp), lp);
            let room = diff(k, bound, b);
            let room2 = prod(k, room, room);
            &&& low.gpp == quot(
                k,
                diff(k, prod(k, prod(k, num(TWO), lp), lp), prod(k, l, lpp)),
                prod(k, l2, l),
            )
            &&& low.gppp == quot(
                k,
                diff(k, diff(k, six, prod(k, l2, lppp)), cubes),
                prod(k, l2, l2),
            )
            &&& high.gpp == sum(k, quot(k, d2, room), quot(k, prod(k, d1, d1), room2))
            &&& high.gppp == sum(
                k,
                sum(
                    k,
                    quot(k, d3, room),
                    quot(k, prod(k, prod(k, num(THREE), d1), d2), room2),
                ),
                quot(k, prod(k, prod(k, prod(k, num(TWO), d1), d1), d1), prod(k, room2, room)),
            )
        }),
{
}

/// What a price gets, from end to end: the guess of its region, refined twice on
/// the objective of its branch, exactly when the price is served; else a NaN. A
/// price is served below `b_l` if it is above zero, up to `b_u` in the centre,
/// and above `b_u` if it is below the bound.
pub proof fn law_answer_is_guess_refined_twice<K: Arith>(
    k: K,
    x: Double,
    beta: Double,
    rb: RegionBoundaries,
    r: Double,
)
    requires
        steady(k),
        rational_answer(k, x, beta, rb, r),
    ensures
        ({
            let lower = beta.at_most(rb.b_l);
            let left = !lower && beta.at_most(rb.b_c);
            let right = !lower && !left && beta.at_most(rb.b_u);
            let branch = if lower {
                Branch::Lower
            } else if left || right {
                Branch::Middle
            } else {
                Branch::Upper
            };
            let region = if lower {
                Region::Lower
            } else if left {
                Region::CentreLeft
            } else if right {
                Region::CentreRight
            } else {
                Region::Upper
            };
            let served = if lower {
                num(ZERO).below(beta)
            } else if left || right {
                rb.b_l.at_most(beta)
            } else {
                rb.b_u.below(beta) && beta.below(rb.b_max)
            };
            let at_served = if left || right {
                served && beta.at_most(rb.b_u)
            } else {
                served
            };
            let guess = region_guess_of(k, region, x, beta, rb);
            let once = householder_of(k, guess, objective_of(k, branch, x, guess, beta, rb.b_max));
            let twice = householder_of(k, once, objective_of(k, branch, x, once, beta, rb.b_max));
            r == if at_served {
                twice
            } else {
                num(NAN)
            }
        }),
{
}

/// The regions are numbered from the lower one up, and the two of the centre share
/// a branch.
pub proof fn law_regions_are_numbered_upwards(beta: Double, rb: RegionBoundaries)
    ensures
        ({
            let n = region_number(region_of(beta, rb));
            &&& beta.at_most(rb.b_l) ==> n == 0
            &&& !beta.at_most(rb.b_l) && beta.at_most(rb.b_c) ==> n == 1
            &&& !beta.at_most(rb.b_l) && !beta.at_most(rb.b_c) && beta.at_most(rb.b_u) ==> n == 2
            &&& !beta.at_most(rb.b_l) && !beta.at_most(rb.b_c) && !beta.at_most(rb.b_u) ==> n == 3
        }),
        branch_of(Region::Lower) is Lower,
        branch_of(Region::CentreLeft) is Middle,
        branch_of(Region::CentreRight) is Middle,
        branch_of(Region::Upper) is Upper,
{
}

/// What each branch returns on its own: the lower one takes prices above zero up
/// to `b_l`, the centre one those from `b_l` to `b_u`, both included, the upper one
/// those above `b_u` and below the bound; each refines its guess twice, and
/// returns a NaN outside its band.
pub proof fn law_branches_keep_to_their_bands<K: Arith>(
    k: K,
    x: Double,
    beta: Double,
    rb: RegionBoundaries,
)
    ensures
        ({
            let low = num(ZERO).below(beta) && beta.at_most(rb.b_l);
            let mid = rb.b_l.at_most(beta) && beta.at_most(rb.b_u);
            let high = rb.b_u.below(beta) && beta.below(rb.b_max);
            let from = if beta.at_most(rb.b_c) {
                region_guess_of(k, Region::CentreLeft, x, beta, rb)
            } else {
                region_guess_of(k, Region::CentreRight, x, beta, rb)
            };
            let least = region_guess_of(k, Region::Lower, x, beta, rb);
            let most = region_guess_of(k, Region::Upper, x, beta, rb);
            &&& branch_solved_of(k, Branch::Lower, x, beta, rb) == if low {
                solved_from(k, Branch::Lower, x, beta, rb, least)
            } else {
                num(NAN)
            }
            &&& branch_solved_of(k, Branch::Middle, x, beta, rb) == if mid {
                solved_from(k, Branch::Middle, x, beta, rb, from)
            } else {
                num(NAN)
            }
            &&& branch_solved_of(k, Branch::Upper, x, beta, rb) == if high {
                solved_from(k, Branch::Upper, x, beta, rb, most)
            } else {
                num(NAN)
            }
        }),
{
}

/// A guess is refined twice on the objective of its branch, at the bound of the
/// price.
pub proof fn law_two_refinements<K: Arith>(
    k: K,
    branch: Branch,
    x: Double,
    beta: Double,
    rb: RegionBoundaries,
    begin: Double,
)
    ensures
        ({
            let once = householder_of(
                k,
                begin,
                objective_of(k, branch, x, begin, beta, rb.b_max),
            );
            solved_from(k, branch, x, beta, rb, begin) == householder_of(
                k,
                once,
                objective_of(k, branch, x, once, beta, rb.b_max),
            )
        }),
{
}

} // verus!
