//! Arithmetic on 32-bit sequence numbers, which wrap around.
//!
//! Sequence numbers live on a circle of 2^32 points. The distance from one to
//! another is measured forward around the circle, and one precedes another
//! when that forward distance is less than half the circle.

use vstd::prelude::*;

verus! {

/// Half of the sequence space: forward distances below it count as "ahead".
pub const HALF_SPACE: u32 = 0x8000_0000;

/// The number of steps forward from `from` to `to`, between 0 and 2^32 - 1.
pub open spec fn seq_diff(to: u32, from: u32) -> int {
    if to >= from {
        to - from
    } else {
        to - from + 0x1_0000_0000
    }
}

/// The sequence number `n` steps forward from `a`, for `n` from 0 to 2^32 - 1.
pub open spec fn seq_add(a: u32, n: int) -> u32 {
    if a + n < 0x1_0000_0000 {
        (a + n) as u32
    } else {
        (a + n - 0x1_0000_0000) as u32
    }
}

/// `a` is `b` or precedes it: `b` lies less than half the circle ahead of `a`.
pub open spec fn seq_le(a: u32, b: u32) -> bool {
    seq_diff(b, a) < HALF_SPACE
}

/// `a` precedes `b`: `b` lies ahead of `a`, by less than half the circle.
pub open spec fn seq_lt(a: u32, b: u32) -> bool {
    a != b && seq_le(a, b)
}

/// The later of two sequence numbers; `a` where neither precedes the other.
pub open spec fn seq_max(a: u32, b: u32) -> u32 {
    if seq_lt(a, b) {
        b
    } else {
        a
    }
}

/// The number of steps forward from `from` to `to`.
pub fn diff(to: u32, from: u32) -> (r: u32)
    ensures
        r == seq_diff(to, from),
{
    to.wrapping_sub(from)
}

/// The sequence number `n` steps forward from `a`.
pub fn advance(a: u32, n: u32) -> (r: u32)
    ensures
        r == seq_add(a, n as int),
{
    a.wrapping_add(n)
}

/// Whether `a` is `b` or precedes it.
pub fn le(a: u32, b: u32) -> (r: bool)
    ensures
        r == seq_le(a, b),
{
    diff(b, a) < HALF_SPACE
}

/// Whether `a` precedes `b`.
pub fn lt(a: u32, b: u32) -> (r: bool)
    ensures
        r == seq_lt(a, b),
{
    a != b && le(a, b)
}

/// The later of two sequence numbers.
pub fn later(a: u32, b: u32) -> (r: u32)
    ensures
        r == seq_max(a, b),
{
    if lt(a, b) {
        b
    } else {
        a
    }
}

} // verus!
