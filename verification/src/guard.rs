//! Guards on denominators and arguments.
//!
//! A step divides by a derivative that may vanish. The guards replace a small
//! denominator by a floor of its sign, so that the quotient stays finite.
use crate::constants::{SMALL, TINY, ZERO};
use crate::double::{
    flipped, larger, law_order_is_encoding_order, lemma_units_zero, num, unsigned, Double, INFINITE,
    SIGN,
};
use vstd::prelude::*;

verus! {

/// The magnitude raised to the floor, with a sign.
pub open spec fn guarded(x: Double, floor: Double, minus: bool) -> Double {
    let magnitude = larger(unsigned(x), floor);
    if minus {
        flipped(magnitude)
    } else {
        magnitude
    }
}

/// The denominator of a step: its magnitude raised to `TINY`, with its own sign
/// bit.
pub open spec fn step_denominator(x: Double) -> Double {
    guarded(x, num(TINY), x.negative())
}

/// The denominator of a correction factor: its magnitude raised to `SMALL`,
/// negative where it is below zero.
pub open spec fn correction_denominator(x: Double) -> Double {
    guarded(x, num(SMALL), x.below(num(ZERO)))
}

/// The denominator of a step.
pub fn guard_step(x: Double) -> (r: Double)
    ensures
        r == step_denominator(x),
{
    let magnitude = x.abs().max(num(TINY));
    if x.is_sign_negative() {
        magnitude.neg()
    } else {
        magnitude
    }
}

/// The denominator of a correction factor.
pub fn guard_correction(x: Double) -> (r: Double)
    ensures
        r == correction_denominator(x),
{
    let magnitude = x.abs().max(num(SMALL));
    if x.lt(num(ZERO)) {
        magnitude.neg()
    } else {
        magnitude
    }
}

/// Not zero, and no closer to zero than the floor.
pub open spec fn bounded_away(r: Double, floor: Double) -> bool {
    !r.nan() && floor.at_most(unsigned(r)) && r.value() != 0
}

/// A guarded denominator is a number at least as far from zero as its floor,
/// whatever is guarded; one that is far enough already is not changed.
pub proof fn law_guard_bounds_away_from_zero(x: Double)
    ensures
        bounded_away(step_denominator(x), (num(TINY))),
        bounded_away(correction_denominator(x), (num(SMALL))),
        !x.nan() && num(TINY).at_most(unsigned(x)) ==> step_denominator(x) == x,
        !x.nan() && num(SMALL).at_most(unsigned(x)) ==> correction_denominator(x) == x,
{
    let tiny = num(TINY);
    let small = num(SMALL);
    let zero = num(ZERO);
    lemma_guarded(x, tiny, x.negative());
    lemma_guarded(x, small, x.below(zero));
    law_order_is_encoding_order(x, zero);
    law_order_is_encoding_order(small, unsigned(x));
    law_order_is_encoding_order(tiny, unsigned(x));
}

/// A guarded number keeps away from zero.
proof fn lemma_guarded(x: Double, floor: Double, minus: bool)
    requires
        0 < floor.bits < INFINITE,
    ensures
        bounded_away(guarded(x, floor, minus), floor),
{
    lemma_units_zero(0);
    let zero = num(ZERO);
    let m = larger(unsigned(x), floor);
    let g = guarded(x, floor, minus);
    law_order_is_encoding_order(zero, floor);
    law_order_is_encoding_order(zero, m);
    law_order_is_encoding_order(zero, g);
    law_order_is_encoding_order(unsigned(x), floor);
    assert(m.bits < SIGN);
    assert(unsigned(g) == m);
}

/// A denominator that is too small is replaced by its floor, on its own side of
/// zero: by the sign bit for a step, by the order for a correction, so that
/// there either zero counts as positive.
pub proof fn law_guard_keeps_the_side(x: Double)
    ensures
        unsigned(x).below(num(TINY)) && x.bits < SIGN ==> step_denominator(x) == num(TINY),
        unsigned(x).below(num(TINY)) && x.bits >= SIGN ==> step_denominator(x) == flipped(
            num(TINY),
        ),
        unsigned(x).below(num(SMALL)) && !x.below(num(ZERO)) ==> correction_denominator(x) == num(
            SMALL,
        ),
        unsigned(x).below(num(SMALL)) && x.below(num(ZERO)) ==> correction_denominator(x)
            == flipped(num(SMALL)),
{
}

} // verus!
