//! Double-precision scores, held by their bit patterns.
//!
//! The market reads scores only by comparing them: is a lift finite, does its
//! lower bound reach the promotion gate, which of two deltas is larger. All of that is
//! decided on the bits, so a score never has to be computed with here.
use vstd::arithmetic::power2::{lemma_pow2_pos, lemma_pow2_unfold, pow2};
use vstd::prelude::*;

verus! {

/// The sign bit of a double.
pub const SIGN_BIT: u64 = 0x8000_0000_0000_0000;

/// The bits of positive infinity; every larger magnitude is a NaN.
pub const INFINITY_BITS: u64 = 0x7ff0_0000_0000_0000;

/// Two to the fifty-second: one more than the largest fraction field.
pub const FRACTION_RANGE: u64 = 0x0010_0000_0000_0000;

/// An IEEE-754 double-precision number, held as its bit pattern.
#[derive(Clone, Copy, Debug)]
pub struct Binary64 {
    pub bits: u64,
}

impl Binary64 {
    /// The bits below the sign bit.
    pub open spec fn magnitude(self) -> int {
        if self.bits >= SIGN_BIT {
            self.bits - SIGN_BIT
        } else {
            self.bits as int
        }
    }

    /// Neither infinite nor a NaN.
    pub open spec fn finite(self) -> bool {
        self.magnitude() < INFINITY_BITS
    }

    /// Not a number.
    pub open spec fn nan(self) -> bool {
        self.magnitude() > INFINITY_BITS
    }

    /// The signed magnitude. Numbers that are not NaN are ordered as their signed
    /// magnitudes are; the two zeros share one.
    pub open spec fn key(self) -> int {
        if self.bits >= SIGN_BIT {
            -self.magnitude()
        } else {
            self.magnitude()
        }
    }

    /// `self <= other` as numbers; false when either is a NaN.
    pub open spec fn le_spec(self, other: Binary64) -> bool {
        !self.nan() && !other.nan() && self.key() <= other.key()
    }

    /// `self < other` as numbers; false when either is a NaN.
    pub open spec fn lt_spec(self, other: Binary64) -> bool {
        !self.nan() && !other.nan() && self.key() < other.key()
    }

    /// Greater than zero; an infinity counts, a NaN does not.
    pub open spec fn positive(self) -> bool {
        !self.nan() && self.key() > 0
    }

    /// The number that the bits denote, times two to the power 1074 (which makes
    /// every finite double an integer).
    pub open spec fn scaled(self) -> int {
        if self.bits >= SIGN_BIT {
            -scaled_magnitude(self.magnitude())
        } else {
            scaled_magnitude(self.magnitude())
        }
    }

    /// Whether the number is finite.
    pub fn is_finite(self) -> (r: bool)
        ensures
            r == self.finite(),
    {
        if self.bits >= SIGN_BIT {
            self.bits - SIGN_BIT < INFINITY_BITS
        } else {
            self.bits < INFINITY_BITS
        }
    }

    /// Whether the bits are a NaN.
    pub fn is_nan(self) -> (r: bool)
        ensures
            r == self.nan(),
    {
        if self.bits >= SIGN_BIT {
            self.bits - SIGN_BIT > INFINITY_BITS
        } else {
            self.bits > INFINITY_BITS
        }
    }

    fn signed(self) -> (k: i128)
        ensures
            k == self.key(),
    {
        if self.bits >= SIGN_BIT {
            -((self.bits - SIGN_BIT) as i128)
        } else {
            self.bits as i128
        }
    }

    /// Whether `self` is less than or equal to `other`; false on a NaN.
    pub fn at_most(self, other: Binary64) -> (r: bool)
        ensures
            r == self.le_spec(other),
    {
        !self.is_nan() && !other.is_nan() && self.signed() <= other.signed()
    }

    /// Whether `self` is less than `other`; false on a NaN.
    pub fn less_than(self, other: Binary64) -> (r: bool)
        ensures
            r == self.lt_spec(other),
    {
        !self.is_nan() && !other.is_nan() && self.signed() < other.signed()
    }

    /// Whether `self` is greater than zero; false on a NaN.
    pub fn is_positive(self) -> (r: bool)
        ensures
            r == self.positive(),
    {
        !self.is_nan() && self.signed() > 0
    }

    /// Whether `self` stands at or above `other` by signed magnitude. On numbers
    /// that are not NaN this is `self >= other`.
    pub fn key_at_least(self, other: Binary64) -> (r: bool)
        ensures
            r == (self.key() >= other.key()),
    {
        self.signed() >= other.signed()
    }

    /// Whether the signed magnitudes agree.
    pub fn key_equals(self, other: Binary64) -> (r: bool)
        ensures
            r == (self.key() == other.key()),
    {
        self.signed() == other.signed()
    }
}

/// Equality of numbers: a NaN equals nothing, the two zeros are equal.
impl PartialEq for Binary64 {
    fn eq(&self, other: &Self) -> (r: bool) {
        !self.is_nan() && !other.is_nan() && self.key_equals(*other)
    }
}

impl vstd::std_specs::cmp::PartialEqSpecImpl for Binary64 {
    open spec fn obeys_eq_spec() -> bool {
        true
    }

    open spec fn eq_spec(&self, other: &Self) -> bool {
        !self.nan() && !other.nan() && self.key() == other.key()
    }
}

/// The value of a finite magnitude, times two to the power 1074: the exponent
/// field shifts the significand, whose leading bit is implicit except in
/// subnormal numbers.
pub open spec fn scaled_magnitude(m: int) -> int {
    let exponent = m / (FRACTION_RANGE as int);
    let fraction = m % (FRACTION_RANGE as int);
    if exponent <= 0 {
        fraction
    } else {
        (FRACTION_RANGE + fraction) * pow2((exponent - 1) as nat)
    }
}

proof fn lemma_scaled_step(m: int)
    requires
        m >= 0,
    ensures
        scaled_magnitude(m) < scaled_magnitude(m + 1),
{
    let range = FRACTION_RANGE as int;
    let e = m / range;
    let f = m % range;
    assert(m == e * range + f && 0 <= f < range && 0 <= e) by (nonlinear_arith)
        requires
            m >= 0,
            range == 0x0010_0000_0000_0000,
            e == m / range,
            f == m % range,
    ;
    if f + 1 < range {
        assert((m + 1) / range == e && (m + 1) % range == f + 1) by (nonlinear_arith)
            requires
                m + 1 == e * range + (f + 1),
                0 <= f + 1 < range,
        ;
        if e > 0 {
            let p = pow2((e - 1) as nat) as int;
            lemma_pow2_pos((e - 1) as nat);
            assert((range + f) * p < (range + (f + 1)) * p) by (nonlinear_arith)
                requires
                    p > 0,
            ;
        }
    } else {
        assert((m + 1) / range == e + 1 && (m + 1) % range == 0) by (nonlinear_arith)
            requires
                m + 1 == (e + 1) * range,
                range > 0,
        ;
        lemma_pow2_pos(e as nat);
        if e > 0 {
            let p = pow2((e - 1) as nat) as int;
            lemma_pow2_pos((e - 1) as nat);
            lemma_pow2_unfold(e as nat);
            assert((range + f) * p < (range + 0) * (2 * p)) by (nonlinear_arith)
                requires
                    p > 0,
                    f == range - 1,
                    range > 0,
            ;
        } else {
            assert(pow2(0) == 1) by {
                vstd::arithmetic::power2::lemma2_to64();
            }
        }
    }
}

proof fn lemma_scaled_increases(a: int, b: int)
    requires
        0 <= a <= b,
    ensures
        scaled_magnitude(a) <= scaled_magnitude(b),
        a < b ==> scaled_magnitude(a) < scaled_magnitude(b),
    decreases b - a,
{
    if a < b {
        lemma_scaled_increases(a, b - 1);
        lemma_scaled_step(b - 1);
    }
}

/// Comparing bit patterns compares the numbers that they denote: on finite
/// doubles the order of the signed magnitudes is the order of the values.
pub proof fn key_order_is_value_order(a: Binary64, b: Binary64)
    requires
        a.finite(),
        b.finite(),
    ensures
        a.le_spec(b) <==> a.scaled() <= b.scaled(),
        a.lt_spec(b) <==> a.scaled() < b.scaled(),
        a.positive() <==> a.scaled() > 0,
{
    let (ma, mb) = (a.magnitude(), b.magnitude());
    assert(scaled_magnitude(0) == 0);
    lemma_scaled_increases(0, ma);
    lemma_scaled_increases(0, mb);
    if ma <= mb {
        lemma_scaled_increases(ma, mb);
    } else {
        lemma_scaled_increases(mb, ma);
    }
}

/// The bits of a number are its sign and its magnitude; an infinity is the largest
/// magnitude that is a number, and every larger one is none.
pub proof fn bits_tell_what_is_a_number(a: Binary64)
    ensures
        a.nan() <==> a.bits % 0x8000_0000_0000_0000 > 0x7ff0_0000_0000_0000,
        a.finite() <==> a.bits % 0x8000_0000_0000_0000 < 0x7ff0_0000_0000_0000,
{
}

/// What `==` says of two of them.
pub open spec fn same(a: Binary64, b: Binary64) -> bool {
    vstd::std_specs::cmp::PartialEqSpec::eq_spec(&a, &b)
}

/// A number that is none stands in no order to anything and equals nothing, not even
/// itself, and it is not positive.
pub proof fn what_is_no_number_compares_with_nothing(a: Binary64, b: Binary64)
    requires
        a.nan(),
    ensures
        !a.le_spec(b) && !b.le_spec(a) && !a.lt_spec(b) && !b.lt_spec(a),
        !same(a, b) && !same(b, a),
        !a.positive(),
        !a.finite(),
{
}

/// Of two numbers either one is less or they are equal, and exactly one of these holds;
/// positive is what stands above zero, and the two zeros are one.
pub proof fn numbers_are_ordered(a: Binary64, b: Binary64)
    requires
        !a.nan(),
        !b.nan(),
    ensures
        a.lt_spec(b) || same(a, b) || b.lt_spec(a),
        a.lt_spec(b) ==> !same(a, b) && !b.lt_spec(a),
        a.le_spec(b) <==> a.lt_spec(b) || same(a, b),
        a.positive() <==> (Binary64 { bits: 0 }).lt_spec(a),
        same(Binary64 { bits: 0 }, Binary64 { bits: 0x8000_0000_0000_0000 }),
{
}

/// The infinities stand beyond every finite number.
pub proof fn infinities_stand_beyond_every_finite_number(a: Binary64)
    requires
        a.finite(),
    ensures
        a.lt_spec(Binary64 { bits: 0x7ff0_0000_0000_0000 }),
        (Binary64 { bits: 0xfff0_0000_0000_0000 }).lt_spec(a),
{
}

/// What finite bits denote: below two to the fifty-second, as many of the smallest step;
/// the sign bit turns the sign; and the same fraction under the next exponent is twice
/// the number.
pub proof fn bits_denote_sign_fraction_and_exponent(a: Binary64)
    requires
        a.bits < 0x7fe0_0000_0000_0000,
    ensures
        a.bits < 0x0020_0000_0000_0000 ==> a.scaled() == a.bits,
        a.bits >= 0x0010_0000_0000_0000 ==> (Binary64 {
            bits: (a.bits + 0x0010_0000_0000_0000) as u64,
        }).scaled() == 2 * a.scaled(),
        (Binary64 { bits: (a.bits + 0x8000_0000_0000_0000) as u64 }).scaled() == -a.scaled(),
{
    let range = 0x0010_0000_0000_0000int;
    let m = a.bits as int;
    let e = m / range;
    let f = m % range;
    assert(pow2(0) == 1) by {
        vstd::arithmetic::power2::lemma2_to64();
    }
    if e == 1 {
        assert((range + f) * pow2(0) == range + f) by (nonlinear_arith)
            requires
                pow2(0) == 1,
        ;
    }
    if e >= 1 {
        lemma_pow2_unfold(e as nat);
        assert((m + range) / range == e + 1 && (m + range) % range == f) by (nonlinear_arith)
            requires
                range == 0x0010_0000_0000_0000,
                e == m / range,
                f == m % range,
        ;
        let p = pow2((e - 1) as nat) as int;
        assert((range + f) * (2 * p) == 2 * ((range + f) * p)) by (nonlinear_arith);
    }
}

/// What the comparisons answer: on finite numbers they compare the numbers, and what is
/// not a number is neither less than, at most nor above anything.
pub proof fn comparisons_compare_the_numbers(
    a: Binary64,
    b: Binary64,
    less: bool,
    at_most: bool,
    positive: bool,
    finite: bool,
    nan: bool,
)
    requires
        call_ensures(Binary64::less_than, (a, b), less),
        call_ensures(Binary64::at_most, (a, b), at_most),
        call_ensures(Binary64::is_positive, (a,), positive),
        call_ensures(Binary64::is_finite, (a,), finite),
        call_ensures(Binary64::is_nan, (a,), nan),
    ensures
        finite <==> a.bits % 0x8000_0000_0000_0000 < 0x7ff0_0000_0000_0000,
        nan <==> a.bits % 0x8000_0000_0000_0000 > 0x7ff0_0000_0000_0000,
        nan ==> !less && !at_most,
        a.finite() && b.finite() ==> {
            &&& less <==> a.scaled() < b.scaled()
            &&& at_most <==> a.scaled() <= b.scaled()
            &&& positive <==> a.scaled() > 0
        },
{
    bits_tell_what_is_a_number(a);
    if a.finite() && b.finite() {
        key_order_is_value_order(a, b);
    }
}

} // verus!
