//! Rounded arithmetic, as a machine performs it.
//!
//! The library holds numbers by their encodings and leaves arithmetic on them
//! to a machine that the caller supplies. What is computed is then stated by
//! naming the operations: `sum(k, a, b)` is what the machine `k` makes of
//! `a + b`. A machine that always answers alike is [`steady`], and for those
//! the functions of the library state exactly which operations they perform,
//! and on what.
use crate::constants::ONE;
use crate::double::{num, Double};
use vstd::prelude::*;

verus! {

/// Arithmetic on numbers.
pub trait Arith {
    /// `a + b`.
    fn plus(&self, a: Double, b: Double) -> Double;

    /// `a - b`.
    fn minus(&self, a: Double, b: Double) -> Double;

    /// `a * b`.
    fn times(&self, a: Double, b: Double) -> Double;

    /// `a / b`.
    fn over(&self, a: Double, b: Double) -> Double;

    /// The square root of `a`.
    fn sqrt(&self, a: Double) -> Double;

    /// `e` to the power `a`.
    fn exp(&self, a: Double) -> Double;

    /// The natural logarithm of `a`.
    fn ln(&self, a: Double) -> Double;
}

/// What the machine makes of `a + b`.
pub open spec fn sum<K: Arith>(k: K, a: Double, b: Double) -> Double {
    choose|r: Double| call_ensures(K::plus, (&k, a, b), r)
}

/// What the machine makes of `a - b`.
pub open spec fn diff<K: Arith>(k: K, a: Double, b: Double) -> Double {
    choose|r: Double| call_ensures(K::minus, (&k, a, b), r)
}

/// What the machine makes of `a * b`.
pub open spec fn prod<K: Arith>(k: K, a: Double, b: Double) -> Double {
    choose|r: Double| call_ensures(K::times, (&k, a, b), r)
}

/// What the machine makes of `a / b`.
pub open spec fn quot<K: Arith>(k: K, a: Double, b: Double) -> Double {
    choose|r: Double| call_ensures(K::over, (&k, a, b), r)
}

/// What the machine makes of the square root of `a`.
pub open spec fn sqrt_of<K: Arith>(k: K, a: Double) -> Double {
    choose|r: Double| call_ensures(K::sqrt, (&k, a), r)
}

/// What the machine makes of `e` to the power `a`.
pub open spec fn exp_of<K: Arith>(k: K, a: Double) -> Double {
    choose|r: Double| call_ensures(K::exp, (&k, a), r)
}

/// What the machine makes of the natural logarithm of `a`.
pub open spec fn ln_of<K: Arith>(k: K, a: Double) -> Double {
    choose|r: Double| call_ensures(K::ln, (&k, a), r)
}

/// The machine always answers alike.
pub open spec fn steady<K: Arith>(k: K) -> bool {
    &&& forall|a: Double, b: Double, r: Double| #[trigger]
        call_ensures(K::plus, (&k, a, b), r) ==> r == sum(k, a, b)
    &&& forall|a: Double, b: Double, r: Double| #[trigger]
        call_ensures(K::minus, (&k, a, b), r) ==> r == diff(k, a, b)
    &&& forall|a: Double, b: Double, r: Double| #[trigger]
        call_ensures(K::times, (&k, a, b), r) ==> r == prod(k, a, b)
    &&& forall|a: Double, b: Double, r: Double| #[trigger]
        call_ensures(K::over, (&k, a, b), r) ==> r == quot(k, a, b)
    &&& forall|a: Double, r: Double| #[trigger]
        call_ensures(K::sqrt, (&k, a), r) ==> r == sqrt_of(k, a)
    &&& forall|a: Double, r: Double| #[trigger]
        call_ensures(K::exp, (&k, a), r) ==> r == exp_of(k, a)
    &&& forall|a: Double, r: Double| #[trigger]
        call_ensures(K::ln, (&k, a), r) ==> r == ln_of(k, a)
}

/// Taking away more from `x` never leaves more.
pub open spec fn subtraction_falls<K: Arith>(k: K, x: Double) -> bool {
    forall|a: Double, b: Double|
        a.at_most(b) ==> (#[trigger] diff(k, x, b)).at_most(#[trigger] diff(k, x, a))
}

/// Multiplying more by `x` never makes less.
pub open spec fn multiplication_rises<K: Arith>(k: K, x: Double) -> bool {
    forall|a: Double, b: Double|
        a.at_most(b) ==> (#[trigger] prod(k, a, x)).at_most(#[trigger] prod(k, b, x))
}

/// Either of the two zeros.
pub open spec fn is_zero(x: Double) -> bool {
    x.magnitude() == 0
}

/// Zero and one do nothing where they should do nothing: what is zero adds
/// nothing, takes away nothing, and makes zero of what it multiplies; and one
/// leaves what it multiplies or divides.
pub open spec fn neutral<K: Arith>(k: K) -> bool {
    &&& forall|a: Double| a.finite() ==> is_zero(#[trigger] diff(k, a, a))
    &&& forall|z: Double, a: Double|
        is_zero(z) && a.finite() ==> is_zero(#[trigger] prod(k, z, a))
    &&& forall|z: Double, a: Double|
        is_zero(z) && a.finite() ==> is_zero(#[trigger] prod(k, a, z))
    &&& forall|z: Double, a: Double|
        is_zero(z) && !is_zero(a) && !a.nan() ==> is_zero(#[trigger] quot(k, z, a))
    &&& forall|z: Double, a: Double|
        is_zero(z) && is_zero(a) ==> is_zero(#[trigger] sum(k, z, a))
    &&& forall|z: Double, a: Double|
        is_zero(z) && a.finite() && !is_zero(a) ==> #[trigger] sum(k, z, a) == a
    &&& forall|z: Double, a: Double|
        is_zero(z) && a.finite() && !is_zero(a) ==> #[trigger] sum(k, a, z) == a
    &&& forall|z: Double, a: Double|
        is_zero(z) && a.finite() && !is_zero(a) ==> #[trigger] diff(k, a, z) == a
    &&& forall|a: Double| a.finite() ==> #[trigger] prod(k, num(ONE), a) == a
    &&& forall|a: Double| a.finite() ==> #[trigger] prod(k, a, num(ONE)) == a
    &&& forall|a: Double| a.finite() ==> #[trigger] quot(k, a, num(ONE)) == a
}

} // verus!
