//! Fixed-point arithmetic helpers.
//!
//! Every quantity in the library is an `i64` counting units of
//! `1 / 100000`: five decimal places of precision. The helpers here round
//! exact rational values onto that grid and compare values at a coarser
//! number of decimals.

use vstd::prelude::*;

verus! {

/// Fixed-point units per whole number: five decimal places.
pub const SCALE: i64 = 100000;

/// Rounds the exact rational `p / q` to the nearest integer, halves away
/// from zero. Meaningful for `q > 0`.
pub open spec fn rounded_div(p: int, q: int) -> int {
    if p >= 0 {
        (2 * p + q) / (2 * q)
    } else {
        -((2 * (-p) + q) / (2 * q))
    }
}

/// The fixed-point unit that one of `decimal_places` decimals spans:
/// `10 ^ (5 - decimal_places)` for at most five decimals.
pub open spec fn tolerance_unit(decimal_places: int) -> int {
    if decimal_places <= 0 {
        100000
    } else if decimal_places == 1 {
        10000
    } else if decimal_places == 2 {
        1000
    } else if decimal_places == 3 {
        100
    } else if decimal_places == 4 {
        10
    } else {
        1
    }
}

/// A fixed-point value quantized to steps of `unit`, with every negative
/// step clamped to zero: the comparisons built on this treat every
/// non-positive value as the zero step, a deliberate one-sidedness that
/// the predicates downstream rely on.
pub open spec fn quantized(v: int, unit: int) -> int {
    let r = rounded_div(v, unit);
    if r < 0 {
        0
    } else {
        r
    }
}

/// Approximate equality at `decimal_places` decimals: both values land on
/// the same quantized step (negative steps clamped to zero).
pub open spec fn spec_approx_equal(a: int, b: int, decimal_places: int) -> bool {
    quantized(a, tolerance_unit(decimal_places)) == quantized(b, tolerance_unit(decimal_places))
}

/// A fixed-point value rounded to `decimal_places` decimals, with a result
/// whose magnitude is at most one step flushed to zero.
pub open spec fn spec_round_decimals(v: int, decimal_places: int) -> int {
    let unit = tolerance_unit(decimal_places);
    let r = rounded_div(v, unit) * unit;
    if -unit <= r && r <= unit {
        0
    } else {
        r
    }
}

/// `value` mapped linearly from the range `[source_min, source_max]` onto
/// `[target_min, target_max]`.
pub open spec fn spec_transform_range(
    value: int,
    source_min: int,
    source_max: int,
    target_min: int,
    target_max: int,
) -> int {
    ((value - source_min) * (target_max - target_min)) / (source_max - source_min) + target_min
}

/// Rounds the exact rational `p / q` to the nearest integer, halves away
/// from zero.
pub fn round_div(p: i64, q: i64) -> (r: i64)
    requires
        q > 0,
    ensures
        r == rounded_div(p as int, q as int),
        p >= 0 ==> 0 <= r <= p,
        p < 0 ==> p <= r <= 0,
{
    let q2: u128 = q as u128;
    if p >= 0 {
        proof {
            lemma_round_div_magnitude(p as int, q as int);
        }
        let t: u128 = (2 * (p as u128) + q2) / (2 * q2);
        t as i64
    } else {
        proof {
            lemma_round_div_magnitude(p as int, q as int);
        }
        let m: u128 = (-(p as i128)) as u128;
        let t: u128 = (2 * m + q2) / (2 * q2);
        (-(t as i128)) as i64
    }
}

/// The rounded quotient never exceeds the numerator in magnitude.
pub proof fn lemma_round_div_magnitude(p: int, q: int)
    requires
        q > 0,
    ensures
        p >= 0 ==> 0 <= rounded_div(p, q) <= p,
        p < 0 ==> p <= rounded_div(p, q) <= 0,
{
    if p >= 0 {
        assert(0 <= (2 * p + q) / (2 * q) <= p) by (nonlinear_arith)
            requires
                p >= 0,
                q > 0,
        ;
    } else {
        assert(0 <= (2 * (-p) + q) / (2 * q) <= -p) by (nonlinear_arith)
            requires
                p < 0,
                q > 0,
        ;
    }
}

/// A rounded quotient of a numerator at most `k` units is at most `k`.
pub proof fn lemma_rounded_div_le(p: int, q: int, k: int)
    requires
        q > 0,
        0 <= p <= k * q,
    ensures
        rounded_div(p, q) <= k,
{
    assert((2 * p + q) / (2 * q) <= k) by (nonlinear_arith)
        requires
            q > 0,
            0 <= p <= k * q,
    ;
}

/// A rounded quotient of a numerator of at least `k` units is at least
/// `k`.
pub proof fn lemma_rounded_div_ge(p: int, q: int, k: int)
    requires
        q > 0,
        0 <= k,
        k * q <= p,
    ensures
        rounded_div(p, q) >= k,
{
    assert((2 * p + q) / (2 * q) >= k) by (nonlinear_arith)
        requires
            q > 0,
            0 <= k,
            k * q <= p,
    ;
}

/// A rounded quotient of a rational between two integers lies between
/// them.
pub proof fn lemma_rounded_div_between(p: int, q: int, lo: int, hi: int)
    requires
        q > 0,
        lo * q <= p <= hi * q,
    ensures
        lo <= rounded_div(p, q) <= hi,
{
    if p >= 0 {
        assert(lo <= (2 * p + q) / (2 * q) <= hi) by (nonlinear_arith)
            requires
                q > 0,
                p >= 0,
                lo * q <= p <= hi * q,
        ;
    } else {
        assert(lo <= -((2 * (-p) + q) / (2 * q)) <= hi) by (nonlinear_arith)
            requires
                q > 0,
                p < 0,
                lo * q <= p <= hi * q,
        ;
    }
}

/// Rounding a quotient is monotone in the numerator.
pub proof fn lemma_rounded_div_monotone(p1: int, p2: int, q: int)
    requires
        q > 0,
        p1 <= p2,
    ensures
        rounded_div(p1, q) <= rounded_div(p2, q),
{
    if p1 >= 0 {
        assert((2 * p1 + q) / (2 * q) <= (2 * p2 + q) / (2 * q)) by (nonlinear_arith)
            requires
                q > 0,
                0 <= p1 <= p2,
        ;
    } else if p2 >= 0 {
        assert(0 <= (2 * p2 + q) / (2 * q) && 0 <= (2 * (-p1) + q) / (2 * q)) by (nonlinear_arith)
            requires
                q > 0,
                p1 < 0 <= p2,
        ;
    } else {
        assert((2 * (-p2) + q) / (2 * q) <= (2 * (-p1) + q) / (2 * q)) by (nonlinear_arith)
            requires
                q > 0,
                p1 <= p2 < 0,
        ;
    }
}

/// The quantized step of `v` at a resolution of `unit`, negatives clamped
/// to zero.
fn quantize(v: i64, unit: i64) -> (r: i64)
    requires
        unit > 0,
    ensures
        r == quantized(v as int, unit as int),
{
    let step: i64 = round_div(v, unit);
    if step < 0 {
        0
    } else {
        step
    }
}

/// The fixed-point unit spanned by one of `decimal_places` decimals.
fn unit_for(decimal_places: u32) -> (u: i64)
    ensures
        u == tolerance_unit(decimal_places as int),
        0 < u <= 100000,
{
    if decimal_places == 0 {
        100000
    } else if decimal_places == 1 {
        10000
    } else if decimal_places == 2 {
        1000
    } else if decimal_places == 3 {
        100
    } else if decimal_places == 4 {
        10
    } else {
        1
    }
}

/// Checks whether two fixed-point values agree when both are rounded to
/// `decimal_places` decimals. Values below zero are clamped to the zero
/// step first, so any two non-positive values compare equal.
pub fn approx_equal(a: i64, b: i64, decimal_places: u32) -> (r: bool)
    ensures
        r == spec_approx_equal(a as int, b as int, decimal_places as int),
{
    let unit: i64 = unit_for(decimal_places);
    quantize(a, unit) == quantize(b, unit)
}

/// Rounds a fixed-point value to `decimal_places` decimals, flushing a
/// result of at most one step to zero.
pub fn round_decimals(v: i64, decimal_places: u32) -> (r: i64)
    requires
        -1000000000000000000 <= v <= 1000000000000000000,
    ensures
        r == spec_round_decimals(v as int, decimal_places as int),
{
    let unit: i64 = unit_for(decimal_places);
    let step: i64 = round_div(v, unit);
    proof {
        lemma_round_scaled_close(v as int, unit as int);
    }
    let scaled: i64 = step * unit;
    if -unit <= scaled && scaled <= unit {
        0
    } else {
        scaled
    }
}

/// Rounding to a unit and scaling back moves a value by less than one
/// unit.
proof fn lemma_round_scaled_close(v: int, unit: int)
    requires
        0 < unit,
    ensures
        v >= 0 ==> v - unit < rounded_div(v, unit) * unit <= v + unit,
        v < 0 ==> v - unit <= rounded_div(v, unit) * unit < v + unit,
{
    if v >= 0 {
        assert(v - unit < ((2 * v + unit) / (2 * unit)) * unit <= v + unit) by (nonlinear_arith)
            requires
                v >= 0,
                unit > 0,
        ;
    } else {
        assert((-v) - unit < ((2 * (-v) + unit) / (2 * unit)) * unit <= (-v) + unit)
            by (nonlinear_arith)
            requires
                v < 0,
                unit > 0,
        ;
        assert(rounded_div(v, unit) * unit == -(((2 * (-v) + unit) / (2 * unit)) * unit))
            by (nonlinear_arith)
            requires
                v < 0,
                unit > 0,
        ;
    }
}

/// Transforms a value from a source range to a target range.
pub fn transform_range(
    value: i64,
    source_min: i64,
    source_max: i64,
    target_min: i64,
    target_max: i64,
) -> (r: i64)
    requires
        source_min < source_max,
        source_min <= value <= source_max,
        target_min <= target_max,
        -1000000000000000 <= source_min,
        source_max <= 1000000000000000,
        -1000000000000000 <= target_min,
        target_max <= 1000000000000000,
    ensures
        r == spec_transform_range(
            value as int,
            source_min as int,
            source_max as int,
            target_min as int,
            target_max as int,
        ),
        target_min <= r <= target_max,
{
    proof {
        assert((value - source_min) * (target_max - target_min) <= 2000000000000000
            * 2000000000000000) by (nonlinear_arith)
            requires
                0 <= value - source_min <= 2000000000000000,
                0 <= target_max - target_min <= 2000000000000000,
        ;
    }
    let num: u128 = ((value as i128 - source_min as i128) as u128) * ((target_max as i128
        - target_min as i128) as u128);
    let den: u128 = (source_max as i128 - source_min as i128) as u128;
    let quot: u128 = num / den;
    proof {
        lemma_transform_range_bounds(
            value as int,
            source_min as int,
            source_max as int,
            target_min as int,
            target_max as int,
        );
    }
    (quot as i128 + target_min as i128) as i64
}

/// With the value inside the source range, the scaled offset divided by
/// the source span stays inside the target span.
proof fn lemma_transform_range_bounds(
    value: int,
    source_min: int,
    source_max: int,
    target_min: int,
    target_max: int,
)
    requires
        source_min < source_max,
        source_min <= value <= source_max,
        target_min <= target_max,
    ensures
        0 <= ((value - source_min) * (target_max - target_min)) / (source_max - source_min)
            <= target_max - target_min,
{
    assert(0 <= ((value - source_min) * (target_max - target_min)) / (source_max - source_min)
        <= target_max - target_min) by (nonlinear_arith)
        requires
            source_min < source_max,
            source_min <= value <= source_max,
            target_min <= target_max,
    ;
}

} // verus!
