//! Velocities of moving bodies.
//!
//! The steering code around this library works in IEEE-754 single precision.
//! The library itself never computes with such numbers: it carries each
//! velocity component as the 32-bit pattern of its encoding and reads from it
//! only which way the body moves, which is integer work on that pattern.

use vstd::prelude::*;
use vstd::arithmetic::power2::{lemma2_to64, pow2};
use vstd::bits::{lemma_u64_shl_is_mul, lemma_u64_shr_is_div};

verus! {

/// The pattern of positive zero.
pub const ZERO_BITS: u32 = 0;

/// The pattern of minus one, the speed at which the world scrolls.
pub const AMBIENT_SCROLL_BITS: u32 = 0xBF80_0000;

/// The lowest pattern with the sign bit set (negative zero).
pub const SIGN_BIT: u32 = 0x8000_0000;

/// The pattern of positive infinity; with the sign bit cleared, every
/// pattern above it encodes no number.
pub const INFINITY_BITS: u32 = 0x7F80_0000;

/// The lowest bit of the exponent field. Below it lies the fraction, and
/// with the sign bit cleared the pattern divided by it is the exponent.
pub const EXPONENT_UNIT: u32 = 0x0080_0000;

/// The exponent field of the numbers from one up to two.
pub const EXPONENT_OF_ONE: u32 = 127;

/// The exponent field from which on the fraction holds no fractional
/// digit: the significand, counted in units of its lowest bit, is the
/// number itself.
pub const EXPONENT_OF_WHOLE: u32 = 150;

/// The exponent field from which on the magnitude is at least two to the
/// power of 31.
pub const EXPONENT_OF_OVERFLOW: u32 = 158;

/// One component of a velocity, in pixels per tick, as the bit pattern of
/// its single-precision encoding.
#[derive(Clone, Copy, Debug, PartialEq, Eq, Structural)]
pub struct Velocity {
    pub bits: u32,
}

impl Velocity {
    /// The pattern with its sign bit cleared: the encoding of the magnitude.
    pub open spec fn magnitude_bits(self) -> int {
        if self.bits >= SIGN_BIT {
            self.bits - SIGN_BIT
        } else {
            self.bits as int
        }
    }

    /// The pattern encodes no number.
    pub open spec fn is_nan(self) -> bool {
        self.magnitude_bits() > INFINITY_BITS
    }

    /// The direction of motion: `-1` where the sign bit is set, `1` where it
    /// is clear, so that either zero counts as moving the way its sign
    /// points; `0` for a pattern that encodes no number.
    pub open spec fn direction(self) -> int {
        if self.is_nan() {
            0
        } else if self.bits >= SIGN_BIT {
            -1
        } else {
            1
        }
    }

    /// The direction of motion relative to the scrolling world, that is the
    /// direction of this velocity less the ambient scroll velocity: `-1`
    /// where the component is below minus one, `1` where it is minus one or
    /// above (a body that keeps pace with the scroll counts as moving with
    /// it), `0` for a pattern that encodes no number.
    ///
    /// Negative numbers are ordered by their magnitude patterns, so the
    /// components below minus one are the patterns above that of minus one.
    pub open spec fn direction_against_scroll(self) -> int {
        if self.is_nan() {
            0
        } else if self.bits > AMBIENT_SCROLL_BITS {
            -1
        } else {
            1
        }
    }

    /// The exponent field of the pattern.
    pub open spec fn exponent(self) -> int {
        self.magnitude_bits() / (EXPONENT_UNIT as int)
    }

    /// The significand of a normal number, in units of its lowest bit:
    /// the fraction field with the implied leading bit in front.
    pub open spec fn significand(self) -> int {
        EXPONENT_UNIT + self.magnitude_bits() % (EXPONENT_UNIT as int)
    }

    /// The whole part of the magnitude, and two to the power of 31 for
    /// every magnitude that reaches it. The magnitude of a normal number
    /// is its significand times two to the power of its exponent field
    /// less 150.
    pub open spec fn whole_magnitude(self) -> int {
        let e = self.exponent();
        if e < EXPONENT_OF_ONE {
            0
        } else if e >= EXPONENT_OF_OVERFLOW {
            0x8000_0000
        } else if e >= EXPONENT_OF_WHOLE {
            self.significand() * pow2((e - EXPONENT_OF_WHOLE) as nat)
        } else {
            self.significand() / (pow2((EXPONENT_OF_WHOLE - e) as nat) as int)
        }
    }

    /// The number of whole pixels that a body with this velocity moves in
    /// a tick: the velocity rounded towards zero and held within the range
    /// of `i32`, and zero for a pattern that encodes no number.
    pub open spec fn whole_pixels(self) -> int {
        if self.is_nan() {
            0
        } else if self.bits >= SIGN_BIT {
            -self.whole_magnitude()
        } else if self.whole_magnitude() > i32::MAX {
            i32::MAX as int
        } else {
            self.whole_magnitude()
        }
    }

    /// A body at rest along the axis.
    pub open spec fn zero() -> Velocity {
        Velocity { bits: ZERO_BITS }
    }

    /// A body that keeps pace with the scrolling world.
    pub open spec fn ambient_scroll() -> Velocity {
        Velocity { bits: AMBIENT_SCROLL_BITS }
    }

    /// Wraps the bit pattern of a single-precision number.
    pub fn from_bits(bits: u32) -> (v: Velocity)
        ensures
            v.bits == bits,
    {
        Velocity { bits }
    }

    /// The bit pattern, to be decoded by the caller.
    pub fn to_bits(&self) -> (bits: u32)
        ensures
            bits == self.bits,
    {
        self.bits
    }

    /// The velocity of a body at rest.
    pub fn at_rest() -> (v: Velocity)
        ensures
            v == Velocity::zero(),
            v.direction() == 1,
    {
        Velocity { bits: ZERO_BITS }
    }

    /// The velocity of the scrolling world.
    pub fn scrolling() -> (v: Velocity)
        ensures
            v == Velocity::ambient_scroll(),
            v.direction() == -1,
            v.direction_against_scroll() == 1,
    {
        Velocity { bits: AMBIENT_SCROLL_BITS }
    }

    /// Computes [`Velocity::direction`].
    pub fn signum(&self) -> (s: i32)
        ensures
            s == self.direction(),
    {
        let magnitude: u32 = if self.bits >= SIGN_BIT {
            self.bits - SIGN_BIT
        } else {
            self.bits
        };
        if magnitude > INFINITY_BITS {
            0
        } else if self.bits >= SIGN_BIT {
            -1
        } else {
            1
        }
    }

    /// Computes [`Velocity::whole_pixels`].
    pub fn truncate(&self) -> (pixels: i32)
        ensures
            pixels == self.whole_pixels(),
    {
        let magnitude: u32 = if self.bits >= SIGN_BIT {
            self.bits - SIGN_BIT
        } else {
            self.bits
        };
        if magnitude > INFINITY_BITS {
            return 0;
        }
        let e: u32 = magnitude / EXPONENT_UNIT;
        let m: u64 = (EXPONENT_UNIT + magnitude % EXPONENT_UNIT) as u64;
        let whole: u64 = if e < EXPONENT_OF_ONE {
            0
        } else if e >= EXPONENT_OF_OVERFLOW {
            0x8000_0000
        } else if e >= EXPONENT_OF_WHOLE {
            let shift: u64 = (e - EXPONENT_OF_WHOLE) as u64;
            proof {
                lemma2_to64();
                assert(m * pow2(shift as nat) < 0x8000_0000) by (nonlinear_arith)
                    requires
                        0 <= m < 0x100_0000,
                        0 < pow2(shift as nat) <= 128,
                ;
                lemma_u64_shl_is_mul(m, shift);
            }
            m << shift
        } else {
            let shift: u64 = (EXPONENT_OF_WHOLE - e) as u64;
            proof {
                lemma2_to64();
                lemma_u64_shr_is_div(m, shift);
                assert(m as nat / pow2(shift as nat) <= m) by (nonlinear_arith)
                    requires
                        pow2(shift as nat) >= 1,
                ;
            }
            m >> shift
        };
        if self.bits >= SIGN_BIT {
            -(whole as i64) as i32
        } else if whole > i32::MAX as u64 {
            i32::MAX
        } else {
            whole as i32
        }
    }

    /// Computes [`Velocity::direction_against_scroll`].
    pub fn signum_against_scroll(&self) -> (s: i32)
        ensures
            s == self.direction_against_scroll(),
    {
        let magnitude: u32 = if self.bits >= SIGN_BIT {
            self.bits - SIGN_BIT
        } else {
            self.bits
        };
        if magnitude > INFINITY_BITS {
            0
        } else if self.bits > AMBIENT_SCROLL_BITS {
            -1
        } else {
            1
        }
    }
}

} // verus!
