//! The normalized Black function and its derivatives.
//!
//! In the normalized form a price is divided by the geometric mean of forward
//! and strike: `x` is the logarithm of forward over strike and `sigma` the
//! total volatility. The price is evaluated through the scaled complementary
//! error function, whose argument is never negative.
use crate::arith::{diff, exp_of, prod, quot, sqrt_of, steady, sum, Arith};
use crate::constants::{
    HALF, INV_SQRT_TWO, INV_SQRT_TWO_PI, MINUS_HALF, MINUS_THREE, QUARTER, TWO,
};
use crate::double::{flipped, num, unsigned, Double};
use crate::norm::{erfcx, erfcx_of};
use vstd::prelude::*;

verus! {

/// `-x / (sigma * sqrt(2))`.
pub open spec fn alpha_of<K: Arith>(k: K, x: Double, sigma: Double) -> Double {
    quot(k, prod(k, flipped(x), num(INV_SQRT_TWO)), sigma)
}

/// `sigma / (2 * sqrt(2))`.
pub open spec fn beta_of<K: Arith>(k: K, sigma: Double) -> Double {
    prod(k, prod(k, num(HALF), sigma), num(INV_SQRT_TWO))
}

/// The normalized price. With `alpha` at least `beta` it is a difference of two
/// scaled error functions; otherwise one of them is reflected.
pub open spec fn b_of<K: Arith>(k: K, x: Double, sigma: Double) -> Double {
    let a = alpha_of(k, x, sigma);
    let b = beta_of(k, sigma);
    let squares = sum(k, prod(k, a, a), prod(k, b, b));
    let factor = prod(k, num(HALF), exp_of(k, flipped(squares)));
    let near = erfcx_of(k, unsigned(diff(k, a, b)));
    let far = erfcx_of(k, sum(k, a, b));
    if b.at_most(a) {
        prod(k, factor, diff(k, near, far))
    } else {
        let cross = prod(k, prod(k, num(TWO), a), b);
        diff(k, exp_of(k, flipped(cross)), prod(k, factor, sum(k, near, far)))
    }
}

/// The normalized price of a call at total volatility `sigma`.
pub fn b_normalized<K: Arith>(k: &K, x: Double, sigma: Double) -> (r: Double)
    ensures
        steady(*k) ==> r == b_of(*k, x, sigma),
{
    let a = k.over(k.times(x.neg(), num(INV_SQRT_TWO)), sigma);
    let b = k.times(k.times(num(HALF), sigma), num(INV_SQRT_TWO));
    let squares = k.plus(k.times(a, a), k.times(b, b));
    let factor = k.times(num(HALF), k.exp(squares.neg()));
    let near = erfcx(k, k.minus(a, b).abs());
    let far = erfcx(k, k.plus(a, b));
    if a.ge(b) {
        k.times(factor, k.minus(near, far))
    } else {
        let cross = k.times(k.times(num(TWO), a), b);
        k.minus(k.exp(cross.neg()), k.times(factor, k.plus(near, far)))
    }
}

/// The first derivative of the normalized price in `sigma`.
pub open spec fn b_prime_of<K: Arith>(k: K, x: Double, sigma: Double) -> Double {
    let h = quot(k, x, sigma);
    let j = prod(k, num(HALF), sigma);
    let e = prod(k, num(MINUS_HALF), sum(k, prod(k, h, h), prod(k, j, j)));
    prod(k, num(INV_SQRT_TWO_PI), exp_of(k, e))
}

/// The first derivative of the normalized price in `sigma`.
pub fn b_prime<K: Arith>(k: &K, x: Double, sigma: Double) -> (r: Double)
    ensures
        steady(*k) ==> r == b_prime_of(*k, x, sigma),
{
    let h = k.over(x, sigma);
    let j = k.times(num(HALF), sigma);
    let e = k.times(num(MINUS_HALF), k.plus(k.times(h, h), k.times(j, j)));
    k.times(num(INV_SQRT_TWO_PI), k.exp(e))
}

/// The bound of the normalized price.
pub open spec fn b_max_of<K: Arith>(k: K, x: Double) -> Double {
    exp_of(k, prod(k, num(HALF), x))
}

/// The bound of the normalized price: `exp(x / 2)`.
pub fn b_max<K: Arith>(k: &K, x: Double) -> (r: Double)
    ensures
        steady(*k) ==> r == b_max_of(*k, x),
{
    k.exp(k.times(num(HALF), x))
}

/// `sigma` cubed.
pub open spec fn cube_of<K: Arith>(k: K, sigma: Double) -> Double {
    prod(k, prod(k, sigma, sigma), sigma)
}

/// The logarithmic derivative of the first derivative.
pub open spec fn a_prime_of<K: Arith>(k: K, x: Double, sigma: Double) -> Double {
    diff(k, quot(k, prod(k, x, x), cube_of(k, sigma)), prod(k, num(QUARTER), sigma))
}

/// The derivative of the logarithmic derivative.
pub open spec fn a_double_prime_of<K: Arith>(k: K, x: Double, sigma: Double) -> Double {
    diff(
        k,
        quot(
            k,
            prod(k, num(MINUS_THREE), prod(k, x, x)),
            prod(k, cube_of(k, sigma), sigma),
        ),
        num(QUARTER),
    )
}

/// The logarithmic derivative of the first derivative.
fn a_prime<K: Arith>(k: &K, x: Double, sigma: Double) -> (r: Double)
    ensures
        steady(*k) ==> r == a_prime_of(*k, x, sigma),
{
    let cube = k.times(k.times(sigma, sigma), sigma);
    k.minus(k.over(k.times(x, x), cube), k.times(num(QUARTER), sigma))
}

/// The second derivative of the normalized price in `sigma`.
pub open spec fn b_double_prime_of<K: Arith>(k: K, x: Double, sigma: Double) -> Double {
    prod(k, b_prime_of(k, x, sigma), a_prime_of(k, x, sigma))
}

/// The second derivative of the normalized price in `sigma`.
pub fn b_double_prime<K: Arith>(k: &K, x: Double, sigma: Double) -> (r: Double)
    ensures
        steady(*k) ==> r == b_double_prime_of(*k, x, sigma),
{
    let slope = b_prime(k, x, sigma);
    k.times(slope, a_prime(k, x, sigma))
}

/// The third derivative of the normalized price in `sigma`.
pub open spec fn b_triple_prime_of<K: Arith>(k: K, x: Double, sigma: Double) -> Double {
    let a = a_prime_of(k, x, sigma);
    prod(
        k,
        b_prime_of(k, x, sigma),
        sum(k, prod(k, a, a), a_double_prime_of(k, x, sigma)),
    )
}

/// The third derivative of the normalized price in `sigma`.
pub fn b_triple_prime<K: Arith>(k: &K, x: Double, sigma: Double) -> (r: Double)
    ensures
        steady(*k) ==> r == b_triple_prime_of(*k, x, sigma),
{
    let slope = b_prime(k, x, sigma);
    let a = a_prime(k, x, sigma);
    let cube = k.times(k.times(sigma, sigma), sigma);
    let curve = k.minus(
        k.over(k.times(num(MINUS_THREE), k.times(x, x)), k.times(cube, sigma)),
        num(QUARTER),
    );
    k.times(slope, k.plus(k.times(a, a), curve))
}

/// The total volatility at which the normalized price turns from convex to
/// concave.
pub open spec fn sigma_c_of<K: Arith>(k: K, x: Double) -> Double {
    sqrt_of(k, prod(k, num(TWO), unsigned(x)))
}

/// The inflection point of the normalized price: `sqrt(2 * |x|)`.
pub fn sigma_c<K: Arith>(k: &K, x: Double) -> (r: Double)
    ensures
        steady(*k) ==> r == sigma_c_of(*k, x),
{
    k.sqrt(k.times(num(TWO), x.abs()))
}

/// The normalized price: with `a = -x / (sigma sqrt 2)` and `b = sigma / (2 sqrt 2)`,
/// half of `exp(-a^2 - b^2)` times the difference of the scaled error functions at
/// `|a - b|` and `a + b` where `a` is at least `b`; and elsewhere `exp(-2 a b)` less
/// half of that exponential times their sum.
pub proof fn law_normalized_price_in_two_arms<K: Arith>(k: K, x: Double, sigma: Double)
    ensures
        ({
            let a = quot(k, prod(k, flipped(x), num(INV_SQRT_TWO)), sigma);
            let b = prod(k, prod(k, num(HALF), sigma), num(INV_SQRT_TWO));
            let bell = exp_of(k, flipped(sum(k, prod(k, a, a), prod(k, b, b))));
            let near = erfcx_of(k, unsigned(diff(k, a, b)));
            let far = erfcx_of(k, sum(k, a, b));
            let cross = exp_of(k, flipped(prod(k, prod(k, num(TWO), a), b)));
            &&& b.at_most(a) ==> b_of(k, x, sigma) == prod(
                k,
                prod(k, num(HALF), bell),
                diff(k, near, far),
            )
            &&& !b.at_most(a) ==> b_of(k, x, sigma) == diff(
                k,
                cross,
                prod(k, prod(k, num(HALF), bell), sum(k, near, far)),
            )
        }),
{
}

/// The derivatives in `sigma`: the first is the density at
/// `(x / sigma)^2 + (sigma / 2)^2`; the second is the first times
/// `x^2 / sigma^3 - sigma / 4`; the third is the first times the square of that
/// plus `-3 x^2 / sigma^4 - 1 / 4`.
pub proof fn law_normalized_derivatives<K: Arith>(k: K, x: Double, sigma: Double)
    ensures
        ({
            let h = quot(k, x, sigma);
            let j = prod(k, num(HALF), sigma);
            let e = prod(k, num(MINUS_HALF), sum(k, prod(k, h, h), prod(k, j, j)));
            let cube = prod(k, prod(k, sigma, sigma), sigma);
            let square = prod(k, x, x);
            let slope = diff(k, quot(k, square, cube), prod(k, num(QUARTER), sigma));
            let curve = diff(
                k,
                quot(k, prod(k, num(MINUS_THREE), square), prod(k, cube, sigma)),
                num(QUARTER),
            );
            let first = b_prime_of(k, x, sigma);
            &&& first == prod(k, num(INV_SQRT_TWO_PI), exp_of(k, e))
            &&& b_double_prime_of(k, x, sigma) == prod(k, first, slope)
            &&& b_triple_prime_of(k, x, sigma) == prod(
                k,
                first,
                sum(k, prod(k, slope, slope), curve),
            )
        }),
{
}

/// The bound of the normalized price is `exp(x / 2)`, and it turns from convex to
/// concave at the root of twice the magnitude of `x`, on either side.
pub proof fn law_normalized_shape<K: Arith>(k: K, x: Double)
    ensures
        b_max_of(k, x) == exp_of(k, prod(k, num(HALF), x)),
        sigma_c_of(k, x) == sqrt_of(k, prod(k, num(TWO), unsigned(x))),
        sigma_c_of(k, flipped(x)) == sigma_c_of(k, x),
{
    assert(unsigned(flipped(x)) == unsigned(x));
}

} // verus!
