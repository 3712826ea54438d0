//! Saturating arithmetic on wei and micro-units.
use vstd::prelude::*;

verus! {

/// `v`, or the nearest wei amount to it.
pub open spec fn wei_cap(v: int) -> int {
    if v > u128::MAX {
        u128::MAX as int
    } else {
        v
    }
}

/// `v`, or the nearest micro-unit count to it.
pub open spec fn micros_cap(v: int) -> int {
    if v > i64::MAX {
        i64::MAX as int
    } else if v < i64::MIN {
        i64::MIN as int
    } else {
        v
    }
}

/// The lesser of two numbers.
pub open spec fn lesser(a: int, b: int) -> int {
    if a <= b {
        a
    } else {
        b
    }
}

/// The greater of two numbers.
pub open spec fn greater(a: int, b: int) -> int {
    if a >= b {
        a
    } else {
        b
    }
}

/// `a * b`, capped at the largest wei amount.
pub fn times_capped(a: u128, b: u128) -> (r: u128)
    ensures
        r == wei_cap(a * b),
{
    match a.checked_mul(b) {
        Some(p) => p,
        None => u128::MAX,
    }
}

/// `a + b`, capped at the largest wei amount.
pub fn plus_capped(a: u128, b: u128) -> (r: u128)
    ensures
        r == wei_cap(a + b),
{
    match a.checked_add(b) {
        Some(p) => p,
        None => u128::MAX,
    }
}

/// `a - b`, capped at the ends of the micro-unit range.
pub fn minus_capped(a: i64, b: i64) -> (r: i64)
    ensures
        r == micros_cap(a - b),
{
    let d: i128 = a as i128 - b as i128;
    if d > i64::MAX as i128 {
        i64::MAX
    } else if d < i64::MIN as i128 {
        i64::MIN
    } else {
        d as i64
    }
}

/// The lesser of two wei amounts.
pub fn lesser_of(a: u128, b: u128) -> (r: u128)
    ensures
        r == lesser(a as int, b as int),
{
    if a <= b {
        a
    } else {
        b
    }
}

/// An amount that can be held is kept as it is; one beyond the range becomes the end of
/// the range that it is beyond.
pub proof fn caps_change_only_what_does_not_fit(v: int)
    ensures
        v <= 340_282_366_920_938_463_463_374_607_431_768_211_455 ==> wei_cap(v) == v,
        v > 340_282_366_920_938_463_463_374_607_431_768_211_455 ==> wei_cap(v)
            == 340_282_366_920_938_463_463_374_607_431_768_211_455,
        -9_223_372_036_854_775_808 <= v <= 9_223_372_036_854_775_807 ==> micros_cap(v) == v,
        v > 9_223_372_036_854_775_807 ==> micros_cap(v) == 9_223_372_036_854_775_807,
        v < -9_223_372_036_854_775_808 ==> micros_cap(v) == -9_223_372_036_854_775_808,
{
}

/// The lesser and the greater of two numbers are those numbers, in order.
pub proof fn lesser_and_greater_are_the_two(a: int, b: int)
    ensures
        lesser(a, b) <= a && lesser(a, b) <= b,
        greater(a, b) >= a && greater(a, b) >= b,
        lesser(a, b) == a || lesser(a, b) == b,
        greater(a, b) == a || greater(a, b) == b,
        lesser(a, b) + greater(a, b) == a + b,
{
}

/// The capped operations give the exact result wherever it can be held, and the end of
/// the range that it is beyond where it cannot.
pub proof fn operations_are_exact_where_they_fit(
    a: u128,
    b: u128,
    x: i64,
    y: i64,
    product: u128,
    sum: u128,
    least: u128,
    difference: i64,
)
    requires
        call_ensures(times_capped, (a, b), product),
        call_ensures(plus_capped, (a, b), sum),
        call_ensures(lesser_of, (a, b), least),
        call_ensures(minus_capped, (x, y), difference),
    ensures
        a * b <= u128::MAX ==> product == a * b,
        a * b > u128::MAX ==> product == u128::MAX,
        a + b <= u128::MAX ==> sum == a + b,
        a + b > u128::MAX ==> sum == u128::MAX,
        least <= a && least <= b && (least == a || least == b),
        i64::MIN <= x - y <= i64::MAX ==> difference == x - y,
        x - y > i64::MAX ==> difference == i64::MAX,
        x - y < i64::MIN ==> difference == i64::MIN,
{
}

} // verus!
