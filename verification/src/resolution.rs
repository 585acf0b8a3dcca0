//! How large a page may be to be rendered.
//!
//! A page is rendered at a scale that keeps the number of pixels about the
//! same whatever its shape. A page that is very long in one direction would
//! still become very long in pixels, so each side has a ceiling.
//!
//! Lengths are single-precision numbers of points. They are held here as
//! their bits, and what the bits stand for is spelled out in integers.
use vstd::arithmetic::power2::{
    lemma2_to64, lemma_pow2_adds, lemma_pow2_pos, lemma_pow2_strictly_increases, pow2,
};
use vstd::prelude::*;

verus! {

/// The number of pixels along each side that a square page is rendered to.
/// A page of another shape gets the scale at which it has as many pixels.
pub const DESIRED_RESOLUTION: u32 = 1000;

/// The longest side, in points, that a page may have.
pub const MAX_SIZE: u32 = 1000;

/// The bits of the single-precision number 1000.
pub const MAX_SIZE_BITS: u32 = 0x447a_0000;

/// The bits of positive infinity in single precision.
pub const INFINITY_BITS: u32 = 0x7f80_0000;

/// One of the two directions of a page.
#[derive(Debug, Clone, Copy, PartialEq, Eq, Structural)]
pub enum Axis {
    /// Across the page.
    X,
    /// Down the page.
    Y,
}

/// A length in points: the bits of an IEEE 754 single-precision number.
#[derive(Debug, Clone, Copy, PartialEq, Eq, Structural)]
pub struct Points {
    /// The sign, the exponent and the fraction, from the highest bit down.
    pub bits: u32,
}

/// The size of a page.
#[derive(Debug, Clone, Copy, PartialEq, Eq, Structural)]
pub struct Size {
    /// The length of the side across.
    pub x: Points,
    /// The length of the side down.
    pub y: Points,
}

/// A page has a side that is longer than [`MAX_SIZE`] points.
#[derive(Debug, Clone, Copy, PartialEq, Eq, Structural)]
pub struct TooBig {
    /// The length of the side.
    pub size: Points,
    /// The direction of the side.
    pub axis: Axis,
}

impl Points {
    /// The sign bit is set.
    pub open spec fn negative(self) -> bool {
        self.bits >= 0x8000_0000
    }

    /// The eight bits of the exponent.
    pub open spec fn exponent(self) -> int {
        (self.bits as int / 0x80_0000) % 0x100
    }

    /// The twenty-three bits of the fraction.
    pub open spec fn fraction(self) -> int {
        self.bits as int % 0x80_0000
    }

    /// The bits stand for no number.
    pub open spec fn is_nan(self) -> bool {
        self.exponent() == 0xff && self.fraction() != 0
    }

    /// The bits stand for an infinity.
    pub open spec fn is_infinite(self) -> bool {
        self.exponent() == 0xff && self.fraction() == 0
    }

    /// The absolute value of a finite length, in units of 2^-149 points,
    /// the smallest step of the format.
    pub open spec fn magnitude(self) -> int {
        if self.exponent() == 0 {
            self.fraction()
        } else {
            (0x80_0000 + self.fraction()) * pow2((self.exponent() - 1) as nat)
        }
    }

    /// The length is greater than `limit` points. What is no number is
    /// greater than nothing.
    pub open spec fn exceeds(self, limit: nat) -> bool {
        &&& !self.negative()
        &&& !self.is_nan()
        &&& (self.is_infinite() || self.magnitude() > limit * pow2(149))
    }

    /// Among the bits that are not negative, the lengths greater than 1000
    /// points are those from the bits after 1000's up to infinity's.
    pub proof fn lemma_exceeds_max(self)
        ensures
            self.exceeds(MAX_SIZE as nat) <==> MAX_SIZE_BITS < self.bits <= INFINITY_BITS,
    {
        let e = self.exponent();
        let f = self.fraction();
        let unit = pow2(135);
        lemma2_to64();
        lemma_pow2_pos(135);
        lemma_pow2_adds(14, 135);
        assert(MAX_SIZE as nat * pow2(149) == 16_384_000 * unit) by (nonlinear_arith)
            requires
                pow2(149) == 16_384 * unit,
        ;
        if !self.negative() && 1 <= e <= 0xfe {
            let scale = pow2((e - 1) as nat);
            if e >= 137 {
                if e > 137 {
                    lemma_pow2_strictly_increases(136, (e - 1) as nat);
                }
                lemma_pow2_adds(1, 135);
                assert((0x80_0000 + f) * scale > 16_384_000 * unit) by (nonlinear_arith)
                    requires
                        scale >= 2 * unit,
                        unit > 0,
                        f >= 0,
                ;
            } else if e == 136 {
                assert((0x80_0000 + f) * unit > 16_384_000 * unit <==> f > 0x7a_0000)
                    by (nonlinear_arith)
                    requires
                        unit > 0,
                ;
            } else {
                if e < 135 {
                    lemma_pow2_strictly_increases((e - 1) as nat, 134);
                }
                lemma_pow2_adds(1, 134);
                lemma_pow2_pos((e - 1) as nat);
                assert((0x80_0000 + f) * scale <= 16_384_000 * unit) by (nonlinear_arith)
                    requires
                        0 < scale,
                        2 * scale <= unit,
                        0 <= f < 0x80_0000,
                ;
            }
        }
    }

    /// Tells whether the length is greater than [`MAX_SIZE`] points.
    pub fn exceeds_max(self) -> (over: bool)
        ensures
            over == self.exceeds(MAX_SIZE as nat),
    {
        proof {
            self.lemma_exceeds_max();
        }
        MAX_SIZE_BITS < self.bits && self.bits <= INFINITY_BITS
    }
}

/// The side for which a page of size `size` is refused: the side across if
/// it is too long, whatever the side down is, and else the side down if
/// that is too long.
pub open spec fn too_big(size: Size) -> Option<TooBig> {
    if size.x.exceeds(MAX_SIZE as nat) {
        Some(TooBig { size: size.x, axis: Axis::X })
    } else if size.y.exceeds(MAX_SIZE as nat) {
        Some(TooBig { size: size.y, axis: Axis::Y })
    } else {
        None
    }
}

/// Holds the size of a page against the ceiling of [`MAX_SIZE`] points for
/// each side, the side across first.
pub fn check_size(size: Size) -> (result: Result<(), TooBig>)
    ensures
        match result {
            Ok(_) => too_big(size) is None,
            Err(refused) => too_big(size) == Some(refused),
        },
{
    if size.x.exceeds_max() {
        Err(TooBig { size: size.x, axis: Axis::X })
    } else if size.y.exceeds_max() {
        Err(TooBig { size: size.y, axis: Axis::Y })
    } else {
        Ok(())
    }
}

} // verus!
