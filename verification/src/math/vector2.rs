//! Positions in the game world, and the vertical level that a position is on.
//!
//! A coordinate is an IEEE 754 single-precision number. It is held as its
//! bit pattern, and what the server needs of it is computed from the bits
//! with integers: the sign is the highest bit, the exponent the next eight,
//! the fraction the low twenty-three.

use vstd::prelude::*;

verus! {

/// A position. Each coordinate is held as the bit pattern of an IEEE 754
/// single-precision number, which is also what travels on the wire.
#[derive(Debug, Clone, Copy, PartialEq, Eq, Structural)]
pub struct Vector2 {
    pub x: u32,
    pub y: u32,
}

/// The height of one screen, in the units of a position. One level is one
/// screen.
pub const Y_LEVEL_HEIGHT: u32 = 360;

/// Two players are near each other when their levels differ by no more than
/// this.
pub const NEARBY_LEVELS: u32 = 3;

/// 2 to the power of `n`.
pub open spec fn two_pow(n: nat) -> nat
    decreases n,
{
    if n == 0 {
        1
    } else {
        2 * two_pow((n - 1) as nat)
    }
}

/// Whether the number is negative (the sign bit is set).
pub open spec fn float_is_negative(bits: u32) -> bool {
    bits >= 0x8000_0000
}

/// The biased exponent of the number.
pub open spec fn float_exponent(bits: u32) -> nat {
    ((bits / 0x80_0000) % 256) as nat
}

/// The fraction bits of the number.
pub open spec fn float_fraction(bits: u32) -> nat {
    (bits % 0x80_0000) as nat
}

/// Whether the bits are no number at all.
pub open spec fn float_is_nan(bits: u32) -> bool {
    float_exponent(bits) == 255 && float_fraction(bits) != 0
}

/// The magnitude of the number, rounded to the nearest integer, halves away
/// from zero. A normal number is `(2^23 + fraction) * 2^(exponent - 150)`;
/// zero and the subnormal numbers round to 0. Of an infinity this is some
/// number above every 32-bit integer.
pub open spec fn rounded_magnitude(bits: u32) -> nat {
    let e = float_exponent(bits);
    let significand = 0x80_0000 + float_fraction(bits);
    if e == 0 {
        0
    } else if e < 150 {
        (significand + two_pow((149 - e) as nat)) / two_pow((150 - e) as nat)
    } else {
        significand * two_pow((e - 150) as nat)
    }
}

/// The number rounded to the nearest integer and negated, as a signed 32-bit
/// integer: a value beyond the range of the type is the nearest bound, and
/// what is no number is 0.
pub open spec fn negated_round(bits: u32) -> int {
    let magnitude = rounded_magnitude(bits);
    if float_is_nan(bits) {
        0
    } else if float_is_negative(bits) {
        if magnitude > i32::MAX {
            i32::MAX as int
        } else {
            magnitude as int
        }
    } else {
        if magnitude > 0x8000_0000 {
            i32::MIN as int
        } else {
            -(magnitude as int)
        }
    }
}

/// The level of a vertical coordinate: `floor(-round(y) / 360)`. Up is
/// negative in the game, so a higher place has a higher level.
pub open spec fn y_level(y: u32) -> int {
    negated_round(y) / (Y_LEVEL_HEIGHT as int)
}

/// Whether two vertical coordinates are within `NEARBY_LEVELS` levels of
/// each other.
pub open spec fn levels_nearby(y1: u32, y2: u32) -> bool {
    -(NEARBY_LEVELS as int) <= y_level(y1) - y_level(y2) <= NEARBY_LEVELS as int
}

/// A higher power of 2 is not smaller.
pub proof fn lemma_two_pow_monotonic(a: nat, b: nat)
    requires
        a <= b,
    ensures
        two_pow(a) <= two_pow(b),
        two_pow(a) >= 1,
    decreases b,
{
    if a < b {
        lemma_two_pow_monotonic(a, (b - 1) as nat);
    } else {
        lemma_two_pow_positive(a);
    }
}

/// Every power of 2 is at least 1.
pub proof fn lemma_two_pow_positive(a: nat)
    ensures
        two_pow(a) >= 1,
    decreases a,
{
    if a > 0 {
        lemma_two_pow_positive((a - 1) as nat);
    }
}

/// The powers of 2 at the borders of the format.
pub proof fn lemma_two_pow_values()
    ensures
        two_pow(0) == 1,
        two_pow(7) == 0x80,
        two_pow(8) == 0x100,
        two_pow(23) == 0x80_0000,
        two_pow(24) == 0x100_0000,
        two_pow(31) == 0x8000_0000,
{
    reveal_with_fuel(two_pow, 32);
}

/// Nearness does not depend on which of the two is asked.
pub proof fn lemma_levels_nearby_symmetric(y1: u32, y2: u32)
    ensures
        levels_nearby(y1, y2) == levels_nearby(y2, y1),
{
}

/// The level of every coordinate fits in a 32-bit integer.
pub proof fn lemma_y_level_range(y: u32)
    ensures
        i32::MIN <= negated_round(y) <= i32::MAX,
        -5965233 <= y_level(y) <= 5965232,
{
}

/// 2 to the power of `n`, for the exponents that a 64-bit integer holds.
fn pow2(n: u32) -> (power: u64)
    requires
        n <= 32,
    ensures
        power == two_pow(n as nat),
        power <= 0x1_0000_0000,
{
    let mut power: u64 = 1;
    let mut i: u32 = 0;
    proof {
        lemma_two_pow_monotonic(0, 32);
        reveal_with_fuel(two_pow, 33);
    }
    while i < n
        invariant
            i <= n <= 32,
            power == two_pow(i as nat),
            two_pow(32) == 0x1_0000_0000,
        decreases n - i,
    {
        proof {
            lemma_two_pow_monotonic((i + 1) as nat, 32);
        }
        power = power * 2;
        i = i + 1;
    }
    proof {
        lemma_two_pow_monotonic(n as nat, 32);
    }
    power
}

/// The magnitude of the number, rounded, or `2^31` where it is that or more.
fn rounded_magnitude_capped(bits: u32) -> (magnitude: u64)
    ensures
        magnitude <= 0x8000_0000,
        rounded_magnitude(bits) >= 0x8000_0000 ==> magnitude == 0x8000_0000,
        rounded_magnitude(bits) < 0x8000_0000 ==> magnitude == rounded_magnitude(bits),
{
    let e: u32 = (bits / 0x80_0000) % 256;
    let significand: u64 = 0x80_0000 + (bits % 0x80_0000) as u64;
    proof {
        lemma_two_pow_values();
    }
    if e == 0 {
        0
    } else if e < 126 {
        proof {
            lemma_two_pow_monotonic(24, (149 - e) as nat);
            let half = two_pow((149 - e) as nat) as int;
            let sum = significand as int + half;
            assert(two_pow((150 - e) as nat) == 2 * half);
            assert(sum / (2 * half) == 0) by (nonlinear_arith)
                requires
                    0 <= sum < 2 * half,
            ;
        }
        0
    } else if e < 150 {
        let half: u64 = pow2(149 - e);
        proof {
            assert(two_pow((150 - e) as nat) == 2 * half);
            lemma_two_pow_positive((149 - e) as nat);
            lemma_two_pow_monotonic((149 - e) as nat, 23);
            let sum = significand as int + half as int;
            let full = 2 * half as int;
            assert(sum / full <= sum) by (nonlinear_arith)
                requires
                    0 <= sum,
                    full >= 1,
            ;
        }
        (significand + half) / (2 * half)
    } else if e < 158 {
        let scale: u64 = pow2(e - 150);
        proof {
            lemma_two_pow_monotonic((e - 150) as nat, 7);
            assert(significand * scale <= 0x100_0000 * 0x80) by (nonlinear_arith)
                requires
                    significand < 0x100_0000,
                    scale <= 0x80,
            ;
        }
        significand * scale
    } else {
        proof {
            lemma_two_pow_monotonic(8, (e - 150) as nat);
            let scale = two_pow((e - 150) as nat);
            assert(significand * scale >= 0x80_0000 * 0x100) by (nonlinear_arith)
                requires
                    significand >= 0x80_0000,
                    scale >= 0x100,
            ;
        }
        0x8000_0000
    }
}

/// The level of a vertical coordinate: `floor(-round(y) / 360)`, where the
/// rounded and negated coordinate is taken as a signed 32-bit integer.
pub fn get_y_level(y: u32) -> (level: i32)
    ensures
        level == y_level(y),
{
    let e: u32 = (y / 0x80_0000) % 256;
    let fraction: u32 = y % 0x80_0000;
    if e == 255 && fraction != 0 {
        return 0;
    }
    let magnitude: u64 = rounded_magnitude_capped(y);
    if y >= 0x8000_0000 {
        // A negative coordinate: the negated value is not negative.
        let value: u64 = if magnitude > 0x7fff_ffff {
            0x7fff_ffff
        } else {
            magnitude
        };
        (value / (Y_LEVEL_HEIGHT as u64)) as i32
    } else {
        // The negated value is `-magnitude`, and the level is rounded down.
        let levels: u64 = (magnitude + (Y_LEVEL_HEIGHT as u64 - 1)) / (Y_LEVEL_HEIGHT as u64);
        assert(-(magnitude as int) / 360 == -(levels as int));
        -(levels as i32)
    }
}

impl Vector2 {
    /// The level that the position is on.
    pub fn y_level(&self) -> (level: i32)
        ensures
            level == y_level(self.y),
    {
        get_y_level(self.y)
    }
}

} // verus!
