//! Bounded arithmetic, stated over mathematical integers.

use vstd::prelude::*;

verus! {

/// The smaller of two integers.
pub open spec fn lesser(a: int, b: int) -> int {
    if a <= b {
        a
    } else {
        b
    }
}

/// The larger of two integers.
pub open spec fn greater(a: int, b: int) -> int {
    if a >= b {
        a
    } else {
        b
    }
}

/// `value` moved into `low..=high`; `low` wins when the range is empty.
pub open spec fn bounded(value: int, low: int, high: int) -> int {
    greater(low, lesser(value, high))
}

/// The closest signed coordinate.
pub open spec fn coordinate(value: int) -> int {
    bounded(value, i32::MIN as int, i32::MAX as int)
}

/// The closest unsigned dimension.
pub open spec fn dimension(value: int) -> int {
    bounded(value, 0, u32::MAX as int)
}

/// A dimension that is never empty.
pub open spec fn non_empty(value: int) -> int {
    greater(value, 1)
}

/// The distance between two integers.
pub open spec fn distance_between(a: int, b: int) -> int {
    greater(a - b, b - a)
}

/// Half of an integer, rounded toward zero.
pub open spec fn half(value: int) -> int {
    if value >= 0 {
        value / 2
    } else {
        -((-value) / 2)
    }
}

pub(crate) fn min_i64(a: i64, b: i64) -> (r: i64)
    ensures
        r == lesser(a as int, b as int),
{
    if a <= b {
        a
    } else {
        b
    }
}

pub(crate) fn max_i64(a: i64, b: i64) -> (r: i64)
    ensures
        r == greater(a as int, b as int),
{
    if a >= b {
        a
    } else {
        b
    }
}

pub(crate) fn min_u32(a: u32, b: u32) -> (r: u32)
    ensures
        r == lesser(a as int, b as int),
{
    if a <= b {
        a
    } else {
        b
    }
}

pub(crate) fn max_u32(a: u32, b: u32) -> (r: u32)
    ensures
        r == greater(a as int, b as int),
{
    if a >= b {
        a
    } else {
        b
    }
}

pub(crate) fn bounded_u32(value: u32, low: u32, high: u32) -> (r: u32)
    ensures
        r == bounded(value as int, low as int, high as int),
{
    max_u32(low, min_u32(value, high))
}

pub(crate) fn abs_diff(a: i64, b: i64) -> (r: u64)
    requires
        -0x4000_0000_0000_0000 < a < 0x4000_0000_0000_0000,
        -0x4000_0000_0000_0000 < b < 0x4000_0000_0000_0000,
    ensures
        r == distance_between(a as int, b as int),
{
    if a >= b {
        (a - b) as u64
    } else {
        (b - a) as u64
    }
}

/// Divides by two, rounding toward zero.
pub(crate) fn half_i64(value: i64) -> (r: i64)
    requires
        value > i64::MIN,
    ensures
        r == half(value as int),
{
    if value >= 0 {
        value / 2
    } else {
        -((-value) / 2)
    }
}

/// Saturates a wide value to a signed coordinate.
pub(crate) fn clamp_i64_to_i32(value: i64) -> (r: i32)
    ensures
        r == coordinate(value as int),
{
    if value < i32::MIN as i64 {
        i32::MIN
    } else if value > i32::MAX as i64 {
        i32::MAX
    } else {
        value as i32
    }
}

/// Advances a coordinate, saturating at the largest one.
pub(crate) fn add_coordinate(start: i32, amount: u32) -> (r: i32)
    ensures
        r == coordinate(start + amount),
{
    clamp_i64_to_i32(start as i64 + amount as i64)
}

/// Moves a coordinate back, saturating at the smallest one.
pub(crate) fn subtract_coordinate(start: i32, amount: u32) -> (r: i32)
    ensures
        r == coordinate(start - amount),
{
    clamp_i64_to_i32(start as i64 - amount as i64)
}

/// Moves a coordinate by a signed amount.
pub(crate) fn add_signed_coordinate(start: i32, amount: i64) -> (r: i32)
    requires
        -0x4000_0000_0000_0000 < amount < 0x4000_0000_0000_0000,
    ensures
        r == coordinate(start + amount),
{
    clamp_i64_to_i32(start as i64 + amount)
}

/// The signed difference of two positions as a coordinate.
pub(crate) fn signed_difference(left: i64, right: i64) -> (r: i32)
    requires
        -0x2000_0000_0000_0000 < left < 0x2000_0000_0000_0000,
        -0x2000_0000_0000_0000 < right < 0x2000_0000_0000_0000,
    ensures
        r == coordinate(left - right),
{
    clamp_i64_to_i32(left - right)
}

/// The first position after a span.
pub(crate) fn axis_end(start: i32, length: u32) -> (r: i64)
    ensures
        r == start + length,
{
    start as i64 + length as i64
}

/// The last coordinate a span occupies; an empty span occupies its start.
pub open spec fn last_coordinate(start: int, length: int) -> int {
    coordinate(start + greater(length - 1, 0))
}

pub(crate) fn coordinate_end(start: i32, length: u32) -> (r: i32)
    ensures
        r == last_coordinate(start as int, length as int),
{
    add_coordinate(start, length.saturating_sub(1))
}

/// Whether two inclusive spans share a coordinate, the first being non-empty.
pub open spec fn spans_meet(
    first_start: int,
    first_end: int,
    second_start: int,
    second_end: int,
) -> bool {
    first_start <= first_end && first_start <= second_end && first_end >= second_start
}

pub(crate) fn spans_overlap(
    first_start: i32,
    first_end: i32,
    second_start: i32,
    second_end: i32,
) -> (r: bool)
    ensures
        r == spans_meet(
            first_start as int,
            first_end as int,
            second_start as int,
            second_end as int,
        ),
{
    first_start <= first_end && first_start <= second_end && first_end >= second_start
}

/// The non-empty dimension between two positions.
pub open spec fn span(start: int, end: int) -> int {
    bounded(end - start, 1, u32::MAX as int)
}

pub(crate) fn span_dimension(start: i64, end: i64) -> (r: u32)
    requires
        -0x2000_0000_0000_0000 < start < 0x2000_0000_0000_0000,
        -0x2000_0000_0000_0000 < end < 0x2000_0000_0000_0000,
    ensures
        r == span(start as int, end as int),
{
    let length: i64 = end - start;
    if length < 1 {
        1
    } else if length > u32::MAX as i64 {
        u32::MAX
    } else {
        length as u32
    }
}

} // verus!
