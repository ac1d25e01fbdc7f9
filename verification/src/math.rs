//! Small integer helpers: grid coordinates and rounding to multiples.

use vstd::prelude::*;
use vstd::arithmetic::div_mod::lemma_fundamental_div_mod;
use vstd::arithmetic::div_mod::lemma_fundamental_div_mod_converse;

verus! {

/// A point or an extent on the integer grid.
#[derive(Debug, Clone, Copy, PartialEq, Eq, Hash, Structural)]
pub struct Vec2i {
    pub x: i32,
    pub y: i32,
}

impl Vec2i {
    pub fn new(x: i32, y: i32) -> (v: Vec2i)
        ensures
            v == (Vec2i { x, y }),
    {
        Vec2i { x, y }
    }

    pub fn zero() -> (v: Vec2i)
        ensures
            v == (Vec2i { x: 0, y: 0 }),
    {
        Vec2i { x: 0, y: 0 }
    }
}

/// The largest multiple of `target` that is not above `value`.
pub open spec fn spec_floor_to_multiple(value: int, target: int) -> int {
    value - value % target
}

/// The smallest multiple of `target` that is not below `value`.
pub open spec fn spec_ceil_to_multiple(value: int, target: int) -> int {
    if value % target == 0 {
        value
    } else {
        value - value % target + target
    }
}

/// Taking the remainder away leaves a multiple, and so does adding the divisor to that.
pub proof fn lemma_multiple_below(value: int, target: int)
    requires
        target > 0,
    ensures
        (value - value % target) % target == 0,
        (value - value % target + target) % target == 0,
        0 <= value % target < target,
{
    let q = value / target;
    lemma_fundamental_div_mod(value, target);
    assert(value - value % target == q * target + 0) by (nonlinear_arith)
        requires
            value == target * q + value % target,
    ;
    lemma_fundamental_div_mod_converse(value - value % target, target, q, 0);
    assert(value - value % target + target == (q + 1) * target + 0) by (nonlinear_arith)
        requires
            value == target * q + value % target,
    ;
    lemma_fundamental_div_mod_converse(value - value % target + target, target, q + 1, 0);
}

/// The remainder of `value` by `target` that lies in `0..target`, for values of either sign.
pub fn euclidean_remainder(value: i64, target: i64) -> (r: i64)
    requires
        target > 0,
        value > i64::MIN,
    ensures
        r == value as int % target as int,
        0 <= r < target,
{
    if value >= 0 {
        value % target
    } else {
        let negated: i64 = -value;
        let m: i64 = negated % target;
        proof {
            let d = target as int;
            let q = (negated as int) / d;
            lemma_fundamental_div_mod(negated as int, d);
            if m == 0 {
                assert(value as int == (-q) * d + 0) by (nonlinear_arith)
                    requires
                        negated == d * q + 0,
                        value == -negated,
                ;
                lemma_fundamental_div_mod_converse(value as int, d, -q, 0);
            } else {
                assert(value as int == (-q - 1) * d + (d - m)) by (nonlinear_arith)
                    requires
                        negated == d * q + m,
                        value == -negated,
                ;
                lemma_fundamental_div_mod_converse(value as int, d, -q - 1, d - m);
            }
        }
        if m == 0 {
            0
        } else {
            target - m
        }
    }
}

/// Whether `value` is a multiple of `target`.
pub fn is_multiple_of(value: i64, target: i64) -> (b: bool)
    requires
        target > 0,
        value > i64::MIN,
    ensures
        b == (value as int % target as int == 0),
{
    euclidean_remainder(value, target) == 0
}

/// The smallest even number that is not below `value`.
pub fn make_even_upwards(value: i32) -> (r: i32)
    requires
        value < i32::MAX,
    ensures
        r as int % 2 == 0,
        value <= r <= value + 1,
{
    if euclidean_remainder(value as i64, 2) == 0 {
        value
    } else {
        value + 1
    }
}

/// Where a block of length `inner` starts when it is centred in one of length `outer`
/// that is at least as long.
pub fn block_centered_in_block(inner: i32, outer: i32) -> (offset: i32)
    requires
        0 <= inner <= outer,
    ensures
        offset == (outer - inner) / 2,
        0 <= offset,
        offset + inner <= outer,
{
    (outer - inner) / 2
}

} // verus!
