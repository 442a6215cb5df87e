//! Binary64 numbers held by their bit patterns.
//!
//! Comparing, selecting and clamping floating-point numbers, and taking their
//! signs, needs no rounding. [`Double`] holds such a number by its IEEE 754
//! encoding, and [`Double::value`] says which number it is, as an exact integer
//! multiple of the smallest positive number `2^-1074`.
use vstd::arithmetic::power2::{
    lemma2_to64, lemma2_to64_rest, lemma_pow2_adds, lemma_pow2_pos, lemma_pow2_unfold, pow2,
};
use vstd::prelude::*;

verus! {

/// Weight of the sign bit.
pub const SIGN: u64 = 0x8000_0000_0000_0000;

/// Encoding of positive infinity; every larger magnitude is a NaN.
pub const INFINITE: u64 = 0x7FF0_0000_0000_0000;

/// `2^52`: weight of the hidden bit, and of one step of the exponent field.
pub const HIDDEN: u64 = 0x0010_0000_0000_0000;

/// The canonical NaN.
pub const NAN: u64 = 0x7FF8_0000_0000_0000;

/// A binary64 number, by its encoding.
#[derive(Clone, Copy, Debug, PartialEq, Eq, Structural)]
pub struct Double {
    pub bits: u64,
}

/// The number with the given encoding.
#[verifier::allow_in_spec]
pub fn num(bits: u64) -> (r: Double)
    returns
        (Double { bits }),
{
    Double { bits }
}

/// The number without its sign.
pub open spec fn unsigned(x: Double) -> Double {
    Double { bits: x.magnitude() as u64 }
}

/// The number with the other sign.
pub open spec fn flipped(x: Double) -> Double {
    if x.negative() {
        Double { bits: (x.bits - SIGN) as u64 }
    } else {
        Double { bits: (x.bits + SIGN) as u64 }
    }
}

/// The number with magnitude encoding `m`, as a multiple of `2^-1074`.
///
/// With a zero exponent field the fraction counts such multiples directly;
/// otherwise the hidden bit is added and each exponent step doubles. Infinity
/// gets the value that its encoding would have as a finite number, which is
/// above every finite one.
#[verifier::opaque]
pub open spec fn units(m: int) -> int {
    let e = m / (HIDDEN as int);
    let f = m % (HIDDEN as int);
    if e == 0 {
        f
    } else {
        (HIDDEN + f) * pow2((e - 1) as nat)
    }
}

impl Double {
    /// The sign bit is set.
    pub open spec fn negative(self) -> bool {
        self.bits >= SIGN
    }

    /// The encoding without its sign bit.
    pub open spec fn magnitude(self) -> int {
        if self.bits >= SIGN {
            self.bits - SIGN
        } else {
            self.bits as int
        }
    }

    /// Not a number.
    pub open spec fn nan(self) -> bool {
        self.magnitude() > INFINITE
    }

    /// Neither infinite nor a NaN.
    pub open spec fn finite(self) -> bool {
        self.magnitude() < INFINITE
    }

    /// The number, as a multiple of `2^-1074`; of no meaning for a NaN.
    pub open spec fn value(self) -> int {
        if self.negative() {
            -units(self.magnitude())
        } else {
            units(self.magnitude())
        }
    }

    /// `self < other`, which no NaN takes part in.
    pub open spec fn below(self, other: Double) -> bool {
        !self.nan() && !other.nan() && self.value() < other.value()
    }

    /// `self <= other`, which no NaN takes part in.
    pub open spec fn at_most(self, other: Double) -> bool {
        !self.nan() && !other.nan() && self.value() <= other.value()
    }

    /// The signed magnitude, whose order is that of the values.
    pub open spec fn key_int(self) -> int {
        if self.negative() {
            -self.magnitude()
        } else {
            self.magnitude()
        }
    }
}

/// The step from one magnitude to the next.
pub open spec fn gap(m: int) -> int {
    let e = m / (HIDDEN as int);
    if e == 0 {
        1
    } else {
        pow2((e - 1) as nat) as int
    }
}

/// One step of the magnitude adds one gap to the number.
pub proof fn lemma_units_step(m: int)
    requires
        0 <= m,
    ensures
        units(m + 1) == units(m) + gap(m),
        gap(m) > 0,
{
    reveal(units);
    let h = HIDDEN as int;
    let e = m / h;
    let f = m % h;
    assert(m == h * e + f && 0 <= f < h && 0 <= e) by (nonlinear_arith)
        requires
            h == 0x0010_0000_0000_0000,
            0 <= m,
            e == m / h,
            f == m % h,
    ;
    if e > 0 {
        lemma_pow2_pos((e - 1) as nat);
    }
    if f + 1 < h {
        assert((m + 1) / h == e && (m + 1) % h == f + 1) by (nonlinear_arith)
            requires
                h == 0x0010_0000_0000_0000,
                m + 1 == h * e + (f + 1),
                0 <= f + 1 < h,
        ;
        if e > 0 {
            let p = pow2((e - 1) as nat) as int;
            assert((h + (f + 1)) * p == (h + f) * p + p) by (nonlinear_arith);
        }
    } else {
        assert((m + 1) / h == e + 1 && (m + 1) % h == 0) by (nonlinear_arith)
            requires
                h == 0x0010_0000_0000_0000,
                m + 1 == h * (e + 1),
                0 <= e,
        ;
        if e > 0 {
            let p = pow2((e - 1) as nat) as int;
            let q = pow2(e as nat) as int;
            lemma_pow2_unfold(e as nat);
            assert(q == 2 * p);
            assert((h + 0) * q == (h + f) * p + p) by (nonlinear_arith)
                requires
                    q == 2 * p,
                    f + 1 == h,
            ;
        } else {
            lemma2_to64();
            assert(pow2(0) == 1);
        }
    }
}

/// A larger magnitude is a larger number.
proof fn lemma_units_increase(a: int, b: int)
    requires
        0 <= a < b,
    ensures
        units(a) < units(b),
    decreases b - a,
{
    lemma_units_step(b - 1);
    if a < b - 1 {
        lemma_units_increase(a, b - 1);
    }
}

/// Magnitudes count up from zero.
pub proof fn lemma_units_zero(m: int)
    requires
        0 <= m,
    ensures
        units(m) >= 0,
        units(m) == 0 <==> m == 0,
{
    reveal(units);
    assert(units(0) == 0);
    if m > 0 {
        lemma_units_increase(0, m);
    }
}

/// The order of the values is the order of the signed magnitudes, and two
/// numbers have one value exactly when their signed magnitudes agree (so the
/// two zeros are one number).
pub proof fn law_order_is_encoding_order(a: Double, b: Double)
    ensures
        a.value() < b.value() <==> a.key_int() < b.key_int(),
        a.value() == b.value() <==> a.key_int() == b.key_int(),
{
    let ma = a.magnitude();
    let mb = b.magnitude();
    lemma_units_zero(ma);
    lemma_units_zero(mb);
    if ma < mb {
        lemma_units_increase(ma, mb);
    } else if mb < ma {
        lemma_units_increase(mb, ma);
    }
}

/// The larger of two numbers; of a number and a NaN, the number.
pub open spec fn larger(a: Double, b: Double) -> Double {
    if a.nan() {
        b
    } else if b.nan() {
        a
    } else if a.value() < b.value() {
        b
    } else {
        a
    }
}

/// The smaller of two numbers; of a number and a NaN, the number.
pub open spec fn smaller(a: Double, b: Double) -> Double {
    if a.nan() {
        b
    } else if b.nan() {
        a
    } else if b.value() < a.value() {
        b
    } else {
        a
    }
}

/// `x` raised to `lo` and then lowered to `hi`.
pub open spec fn clamped(x: Double, lo: Double, hi: Double) -> Double {
    smaller(larger(x, lo), hi)
}

/// Clamping to a bracket lands in the bracket, whatever is clamped: a NaN goes
/// to the lower end, and what lies inside already is not moved.
pub proof fn law_clamp_lands_in_bracket(x: Double, lo: Double, hi: Double)
    requires
        lo.at_most(hi),
    ensures
        lo.at_most(clamped(x, lo, hi)),
        clamped(x, lo, hi).at_most(hi),
        x.nan() ==> clamped(x, lo, hi) == lo,
        lo.at_most(x) && x.at_most(hi) ==> clamped(x, lo, hi) == x,
{
}

impl Double {
    /// The encoding without its sign bit.
    fn magnitude_bits(self) -> (m: u64)
        ensures
            m == self.magnitude(),
    {
        if self.bits >= SIGN {
            self.bits - SIGN
        } else {
            self.bits
        }
    }

    /// The signed magnitude.
    fn key(self) -> (k: i64)
        ensures
            k == self.key_int(),
    {
        let m: u64 = self.magnitude_bits();
        if self.bits >= SIGN {
            -(m as i64)
        } else {
            m as i64
        }
    }

    /// Whether this is a NaN.
    pub fn is_nan(self) -> (r: bool)
        ensures
            r == self.nan(),
    {
        self.magnitude_bits() > INFINITE
    }

    /// Whether this is neither infinite nor a NaN.
    pub fn is_finite(self) -> (r: bool)
        ensures
            r == self.finite(),
    {
        self.magnitude_bits() < INFINITE
    }

    /// Whether the sign bit is set, on a zero or a NaN too.
    pub fn is_sign_negative(self) -> (r: bool)
        ensures
            r == self.negative(),
    {
        self.bits >= SIGN
    }

    /// `self < other`.
    pub fn lt(self, other: Double) -> (r: bool)
        ensures
            r == self.below(other),
    {
        proof {
            law_order_is_encoding_order(self, other);
        }
        !self.is_nan() && !other.is_nan() && self.key() < other.key()
    }

    /// `self <= other`.
    pub fn le(self, other: Double) -> (r: bool)
        ensures
            r == self.at_most(other),
    {
        proof {
            law_order_is_encoding_order(self, other);
        }
        !self.is_nan() && !other.is_nan() && self.key() <= other.key()
    }

    /// `self > other`.
    pub fn gt(self, other: Double) -> (r: bool)
        ensures
            r == other.below(self),
    {
        other.lt(self)
    }

    /// `self >= other`.
    pub fn ge(self, other: Double) -> (r: bool)
        ensures
            r == other.at_most(self),
    {
        other.le(self)
    }

    /// The number without its sign.
    pub fn abs(self) -> (r: Double)
        ensures
            r == unsigned(self),
            r.nan() == self.nan(),
            r.value() == if self.value() < 0 { -self.value() } else { self.value() },
    {
        proof {
            lemma_units_zero(self.magnitude());
        }
        Double { bits: self.magnitude_bits() }
    }

    /// The number with the opposite sign.
    pub fn neg(self) -> (r: Double)
        ensures
            r == flipped(self),
            r.magnitude() == self.magnitude(),
            r.negative() == !self.negative(),
            r.value() == -self.value(),
    {
        if self.bits >= SIGN {
            Double { bits: self.bits - SIGN }
        } else {
            Double { bits: self.bits + SIGN }
        }
    }

    /// The larger of two numbers; of a number and a NaN, the number.
    pub fn max(self, other: Double) -> (r: Double)
        ensures
            r == larger(self, other),
    {
        if self.is_nan() {
            other
        } else if other.is_nan() {
            self
        } else if self.lt(other) {
            other
        } else {
            self
        }
    }

    /// The smaller of two numbers; of a number and a NaN, the number.
    pub fn min(self, other: Double) -> (r: Double)
        ensures
            r == smaller(self, other),
    {
        if self.is_nan() {
            other
        } else if other.is_nan() {
            self
        } else if other.lt(self) {
            other
        } else {
            self
        }
    }

    /// The number raised to `lo` and then lowered to `hi`.
    pub fn clamp(self, lo: Double, hi: Double) -> (r: Double)
        ensures
            r == clamped(self, lo, hi),
    {
        self.max(lo).min(hi)
    }
}

/// The number that is zero or more and has the given value.
pub open spec fn exact(value: int) -> Double {
    choose|r: Double| #![trigger r.value()] r.bits < INFINITE && r.value() == value
}

/// A finite number without a sign is the one with its value.
pub proof fn law_exact_is_unique(x: Double)
    requires
        x.bits < INFINITE,
    ensures
        exact(x.value()) == x,
{
    let r = exact(x.value());
    assert(r.bits < INFINITE && r.value() == x.value());
    law_order_is_encoding_order(r, x);
}

/// The number with value `k * 2^(e - 1)`, in multiples of `2^-1074`.
pub fn binary(k: u64, e: u64) -> (r: Double)
    requires
        k < 0x0020_0000_0000_0000,
        53 <= e <= 1075,
    ensures
        r.bits < INFINITE,
        r.value() == k * pow2((e - 1) as nat),
{
    proof {
        lemma2_to64();
        lemma2_to64_rest();
    }
    if k == 0 {
        proof {
            reveal(units);
            assert(units(0) == 0);
        }
        return num(0);
    }
    let mut m: u64 = k;
    let mut d: u64 = e;
    while m < HIDDEN
        invariant
            0 < k < 0x0020_0000_0000_0000,
            53 <= e <= 1075,
            k <= m < 0x0020_0000_0000_0000,
            e - 52 <= d <= e,
            m >= pow2((e - d) as nat),
            m * pow2((d - 1) as nat) == k * pow2((e - 1) as nat),
            pow2(52) == 0x0010_0000_0000_0000,
        decreases d,
    {
        proof {
            if d == e - 52 {
                assert(pow2(52) <= m);
            }
            lemma_pow2_unfold((d - 1) as nat);
            lemma_pow2_unfold((e - d + 1) as nat);
            let p = pow2((d - 2) as nat) as int;
            assert((2 * m) * p == m * (2 * p)) by (nonlinear_arith);
        }
        m = 2 * m;
        d = d - 1;
    }
    let f: u64 = m - HIDDEN;
    assert(d * HIDDEN <= 1075 * HIDDEN);
    let bits: u64 = d * HIDDEN + f;
    proof {
        reveal(units);
        assert(bits as int / (HIDDEN as int) == d && bits as int % (HIDDEN as int) == f);
        assert(units(bits as int) == (HIDDEN + f) * pow2((d - 1) as nat));
    }
    num(bits)
}

/// The number `n`.
pub open spec fn count_of(n: int) -> Double {
    exact(n * pow2(1074))
}

/// The number `n`.
pub fn from_count(n: u64) -> (r: Double)
    requires
        n < 0x0020_0000_0000_0000,
    ensures
        r == count_of(n as int),
        r.bits < INFINITE,
        r.value() == n * pow2(1074),
{
    let r = binary(n, 1075);
    proof {
        law_exact_is_unique(r);
    }
    r
}

/// Neither infinite nor a NaN, by the encoding: below the sign bit, the encoding
/// does not reach that of infinity.
pub open spec fn encodes_finite(x: Double) -> bool {
    x.bits % 0x8000_0000_0000_0000 < 0x7FF0_0000_0000_0000
}

/// Above zero and finite, by the encoding.
pub open spec fn encodes_positive(x: Double) -> bool {
    0 < x.bits < 0x7FF0_0000_0000_0000
}

/// What is finite, what is a NaN, and what is above zero show in the encoding.
pub proof fn law_encoding_tells_kinds(x: Double)
    ensures
        x.finite() <==> encodes_finite(x),
        x.nan() <==> x.bits % 0x8000_0000_0000_0000 > 0x7FF0_0000_0000_0000,
        x.finite() && num(0).below(x) <==> encodes_positive(x),
        x.finite() && num(0x8000_0000_0000_0000).below(x) <==> encodes_positive(x),
{
    law_order_is_encoding_order(num(0), x);
    law_order_is_encoding_order(num(0x8000_0000_0000_0000), x);
}

/// The number lies within half a step of `n / d`.
pub open spec fn rounds(x: Double, n: int, d: int) -> bool {
    let step = gap(x.magnitude()) * d;
    -step <= 2 * (x.value() * d - n * pow2(1074)) <= step
}

/// The number is `n / d`.
pub open spec fn equals(x: Double, n: int, d: int) -> bool {
    x.value() * d == n * pow2(1074)
}

/// A number with exponent field `e` and significand `m`, held against `n / d`
/// after both are multiplied by `p`, a power of two.
pub proof fn lemma_rounds(x: Double, e: nat, m: int, p: int, n: int, d: int)
    requires
        x.bits < INFINITE,
        1 <= e <= 1075,
        x.bits as int / (HIDDEN as int) == e,
        HIDDEN + x.bits as int % (HIDDEN as int) == m,
        p == pow2((1075 - e) as nat),
        -d <= 2 * (m * d - n * p) <= d,
    ensures
        rounds(x, n, d),
        m * d == n * p ==> equals(x, n, d),
{
    reveal(units);
    let s = pow2((e - 1) as nat) as int;
    lemma_pow2_pos((e - 1) as nat);
    lemma_pow2_adds((e - 1) as nat, (1075 - e) as nat);
    assert(pow2(1074) == s * p);
    assert(x.value() == m * s);
    assert(gap(x.magnitude()) == s);
    let off = m * d - n * p;
    assert((m * s) * d - n * (s * p) == s * off) by (nonlinear_arith)
        requires
            off == m * d - n * p,
    ;
    assert(-(s * d) <= 2 * (s * off) <= s * d) by (nonlinear_arith)
        requires
            s > 0,
            -d <= 2 * off <= d,
    ;
    assert(off == 0 ==> s * off == 0) by (nonlinear_arith);
}

/// The powers of two beyond those of one word, from those of one word.
pub proof fn lemma_pow2_two_words(j: nat)
    ensures
        pow2(64 + j) == 0x1_0000_0000_0000_0000 * pow2(j),
{
    lemma2_to64();
    lemma_pow2_adds(64, j);
}

/// Of two numbers the larger is one of them and below neither, the smaller is one
/// of them and above neither; a NaN gives way to the other.
pub proof fn law_extremes(a: Double, b: Double)
    ensures
        larger(a, b) == a || larger(a, b) == b,
        smaller(a, b) == a || smaller(a, b) == b,
        !a.nan() && !b.nan() ==> {
            &&& a.at_most(larger(a, b)) && b.at_most(larger(a, b))
            &&& smaller(a, b).at_most(a) && smaller(a, b).at_most(b)
        },
        a.nan() ==> larger(a, b) == b && smaller(a, b) == b,
        b.nan() && !a.nan() ==> larger(a, b) == a && smaller(a, b) == a,
{
}

/// What lies outside a bracket is clamped to the end that it is beyond.
pub proof fn law_clamp_goes_to_the_nearer_end(x: Double, lo: Double, hi: Double)
    requires
        lo.at_most(hi),
    ensures
        x.below(lo) ==> clamped(x, lo, hi) == lo,
        hi.below(x) ==> clamped(x, lo, hi) == hi,
{
}

/// Taking the sign off and turning it over move no number but by its sign.
pub proof fn law_signs_and_values(x: Double)
    ensures
        unsigned(x).bits == x.bits % 0x8000_0000_0000_0000,
        flipped(x).bits % 0x8000_0000_0000_0000 == x.bits % 0x8000_0000_0000_0000,
        flipped(x).bits >= 0x8000_0000_0000_0000 <==> x.bits < 0x8000_0000_0000_0000,
        flipped(x).value() == -x.value(),
        unsigned(x).value() == if x.value() < 0 {
            -x.value()
        } else {
            x.value()
        },
        flipped(flipped(x)) == x,
{
    lemma_units_zero(x.magnitude());
}

} // verus!
