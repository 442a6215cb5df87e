//! Neighbouring numbers: the next one up, the next one down, and their spacing.
use crate::double::{
    exact, gap, law_exact_is_unique, law_order_is_encoding_order, lemma_units_step, num, units, Double,
    HIDDEN, INFINITE, SIGN,
};
use vstd::arithmetic::power2::{
    lemma2_to64, lemma2_to64_rest, lemma_pow2_adds, lemma_pow2_pos, lemma_pow2_strictly_increases,
    pow2,
};
use vstd::prelude::*;

verus! {

/// The smallest positive number with a hidden bit, `2^-1022`.
pub const MIN_POSITIVE: u64 = 0x0010_0000_0000_0000;

/// The largest finite number.
pub const MAX_FINITE: u64 = 0x7FEF_FFFF_FFFF_FFFF;

/// The encoding one step towards positive infinity: a step away from zero on
/// the positive side (and on both zeros), a step towards it on the negative.
pub open spec fn up(x: Double) -> int {
    if x.negative() && x.magnitude() > 0 {
        x.bits - 1
    } else {
        x.bits + 1
    }
}

/// The encoding one step towards negative infinity. From either zero it is
/// the smallest negative number.
pub open spec fn down(x: Double) -> int {
    if x.magnitude() == 0 {
        SIGN + 1
    } else if x.negative() {
        x.bits + 1
    } else {
        x.bits - 1
    }
}

/// The next number up. A NaN and positive infinity are returned as they are;
/// negative zero, which counts as a zero going up, steps to the number below
/// it.
pub fn next_up(x: Double) -> (r: Double)
    ensures
        x.nan() || x.bits == INFINITE ==> r == x,
        !x.nan() && x.bits != INFINITE ==> r.bits == up(x),
{
    if x.is_nan() || x.bits == INFINITE {
        return x;
    }
    if x.bits > SIGN {
        Double { bits: x.bits - 1 }
    } else {
        Double { bits: x.bits + 1 }
    }
}

/// The next number down. A NaN and negative infinity are returned as they are.
pub fn next_down(x: Double) -> (r: Double)
    ensures
        x.nan() || x.bits == SIGN + INFINITE ==> r == x,
        !x.nan() && x.bits != SIGN + INFINITE ==> r.bits == down(x),
{
    if x.is_nan() || x.bits == SIGN + INFINITE {
        return x;
    }
    if x.bits == 0 || x.bits == SIGN {
        Double { bits: SIGN + 1 }
    } else if x.bits > SIGN {
        Double { bits: x.bits + 1 }
    } else {
        Double { bits: x.bits - 1 }
    }
}

/// Nothing lies between a number and the next one up. Negative zero is left
/// out: its step goes down.
pub proof fn law_next_up_is_adjacent(x: Double, r: Double, y: Double)
    requires
        !x.nan(),
        x.bits != INFINITE,
        x.bits != SIGN,
        r.bits == up(x),
    ensures
        !r.nan(),
        x.below(r),
        x.below(y) ==> r.at_most(y),
{
    law_order_is_encoding_order(x, r);
    law_order_is_encoding_order(x, y);
    law_order_is_encoding_order(r, y);
}

/// Nothing lies between a number and the next one down.
pub proof fn law_next_down_is_adjacent(x: Double, r: Double, y: Double)
    requires
        !x.nan(),
        x.bits != SIGN + INFINITE,
        r.bits == down(x),
    ensures
        !r.nan(),
        r.below(x),
        y.below(x) ==> y.at_most(r),
{
    law_order_is_encoding_order(r, x);
    law_order_is_encoding_order(y, x);
    law_order_is_encoding_order(y, r);
}

/// A step up undoes a step down, as a number.
pub proof fn law_up_undoes_down(x: Double, d: Double, u: Double)
    requires
        !x.nan(),
        x.bits != SIGN + INFINITE,
        d.bits == down(x),
        u.bits == up(d),
    ensures
        u.value() == x.value(),
{
    law_order_is_encoding_order(u, x);
}

/// A step down undoes a step up, as a number. Negative zero is left out: its
/// step up goes down.
pub proof fn law_down_undoes_up(x: Double, u: Double, d: Double)
    requires
        !x.nan(),
        x.bits != INFINITE,
        x.bits != SIGN,
        u.bits == up(x),
        d.bits == down(u),
    ensures
        d.value() == x.value(),
{
    law_order_is_encoding_order(d, x);
}

/// The distance from `x` to the next number up, in multiples of `2^-1074`.
pub open spec fn spacing(x: Double) -> int {
    let r = Double { bits: up(x) as u64 };
    if r.value() < x.value() {
        x.value() - r.value()
    } else {
        r.value() - x.value()
    }
}

/// A distance, raised to that of the smallest positive number with a hidden
/// bit, `2^52` multiples.
pub open spec fn floored(d: int) -> int {
    if d < HIDDEN {
        HIDDEN as int
    } else {
        d
    }
}

/// The spacing of the numbers at `x`, but no less than the smallest positive
/// number with a hidden bit.
pub open spec fn ulp_of(x: Double) -> Double {
    if x.nan() || x.bits == INFINITE {
        num(MIN_POSITIVE)
    } else if x.bits == MAX_FINITE || x.bits == SIGN + INFINITE {
        num(INFINITE)
    } else {
        exact(floored(spacing(x)))
    }
}

/// The spacing of the numbers at `x`, but no less than the smallest positive
/// number with a hidden bit. Where the spacing is not a number (at a NaN and at
/// positive infinity) that floor is the answer; next to an infinity the
/// spacing is infinite.
pub fn ulp_at(x: Double) -> (r: Double)
    ensures
        r == ulp_of(x),
        x.finite() && x.bits != MAX_FINITE ==> r.finite() && r.value() == floored(spacing(x)),
{
    if x.is_nan() || x.bits == INFINITE {
        return num(MIN_POSITIVE);
    }
    if x.bits == MAX_FINITE || x.bits == SIGN + INFINITE {
        return num(INFINITE);
    }
    // The magnitude below the step: going up from a negative number, the step
    // ends there.
    let m: u64 = if x.bits > SIGN {
        x.bits - SIGN - 1
    } else if x.bits == SIGN {
        0
    } else {
        x.bits
    };
    let e: u64 = m / HIDDEN;
    let power: u64 = if e > 53 { e - 52 } else { 1 };
    proof {
        lemma_units_step(m as int);
        lemma_ulp(e as int, power as int);
        assert((e * HIDDEN) / HIDDEN as int == e) by (nonlinear_arith)
            requires
                HIDDEN == 0x0010_0000_0000_0000u64,
        ;
        assert(gap(m as int) == gap(e * HIDDEN));
        assert(spacing(x) == gap(m as int));
        assert(power * HIDDEN < INFINITE) by (nonlinear_arith)
            requires
                power <= 2046,
                HIDDEN == 0x0010_0000_0000_0000u64,
                INFINITE == 0x7FF0_0000_0000_0000u64,
        ;
    }
    let r = num(power * HIDDEN);
    proof {
        law_exact_is_unique(r);
    }
    r
}

/// The number whose exponent field is `power` and whose fraction is zero is
/// the larger of the spacing at exponent field `e` and `2^52`.
proof fn lemma_ulp(e: int, power: int)
    requires
        0 <= e,
        e > 53 ==> power == e - 52,
        e <= 53 ==> power == 1,
    ensures
        units(power * HIDDEN) == floored(gap(e * HIDDEN)),
{
    reveal(units);
    let h = HIDDEN as int;
    lemma2_to64();
    lemma2_to64_rest();
    assert(pow2(52) == h);
    assert((power * h) / h == power && (power * h) % h == 0) by (nonlinear_arith)
        requires
            h == 0x0010_0000_0000_0000,
    ;
    assert((e * h) / h == e) by (nonlinear_arith)
        requires
            h == 0x0010_0000_0000_0000,
    ;
    if e > 53 {
        lemma_pow2_adds(52, (e - 53) as nat);
        lemma_pow2_pos((e - 53) as nat);
        assert(h * pow2((e - 53) as nat) >= h) by (nonlinear_arith)
            requires
                h > 0,
                pow2((e - 53) as nat) >= 1,
        ;
        assert((h + 0) * pow2((power - 1) as nat) == pow2((e - 1) as nat));
    } else if e > 0 {
        if e - 1 < 52 {
            lemma_pow2_strictly_increases((e - 1) as nat, 52);
        }
    }
}

} // verus!
