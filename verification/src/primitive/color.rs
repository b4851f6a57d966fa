//! Colours.
use vstd::prelude::*;
use crate::primitive::interval::Interval;
use crate::primitive::scalar::Scalar;

verus! {

/// The greatest intensity that is written out: 0.999.
pub const INTENSITY_END: u64 = 0x3fef_f7ce_d916_872b;

/// A colour by its red, green and blue parts; 0 is dark and 1 is full.
#[derive(Clone, Copy, Debug)]
pub struct Color {
    pub r: Scalar,
    pub g: Scalar,
    pub b: Scalar,
}

impl Color {
    /// The colour whose parts have the given bit patterns.
    pub open spec fn of_bits(r: u64, g: u64, b: u64) -> Color {
        Color { r: Scalar { bits: r }, g: Scalar { bits: g }, b: Scalar { bits: b } }
    }

    /// The colour whose three parts are zero.
    pub open spec fn is_black(self) -> bool {
        self.r.bits == 0 && self.g.bits == 0 && self.b.bits == 0
    }

    /// The intensities that are written out: from 0 to 0.999.
    pub open spec fn intensity() -> Interval {
        Interval { start: Scalar { bits: 0 }, end: Scalar { bits: INTENSITY_END } }
    }

    /// The byte for one part of a colour after gamma correction: the part
    /// held between 0 and 0.999, times 256, with the fraction dropped.
    pub open spec fn byte_of(part: Scalar) -> int {
        Self::intensity().clamped(part).as_natural(8, 255)
    }

    pub fn new(r: Scalar, g: Scalar, b: Scalar) -> (c: Color)
        ensures
            c.r == r,
            c.g == g,
            c.b == b,
    {
        Color { r, g, b }
    }

    pub fn from_bits(r: u64, g: u64, b: u64) -> (c: Color)
        ensures
            c == Self::of_bits(r, g, b),
    {
        Color { r: Scalar::from_bits(r), g: Scalar::from_bits(g), b: Scalar::from_bits(b) }
    }

    /// Black.
    pub fn black() -> (c: Color)
        ensures
            c.is_black(),
    {
        Color { r: Scalar::zero(), g: Scalar::zero(), b: Scalar::zero() }
    }

    /// White.
    pub fn white() -> (c: Color)
        ensures
            c.r.bits == 0x3ff0_0000_0000_0000,
            c.g.bits == 0x3ff0_0000_0000_0000,
            c.b.bits == 0x3ff0_0000_0000_0000,
    {
        Color { r: Scalar::one(), g: Scalar::one(), b: Scalar::one() }
    }

    /// The three bytes that are written out for a colour. The colour is
    /// taken as it is after gamma correction: the square root of each part
    /// of the colour in linear light.
    pub fn to_bytes(&self) -> (bytes: (u8, u8, u8))
        ensures
            bytes.0 == Self::byte_of(self.r),
            bytes.1 == Self::byte_of(self.g),
            bytes.2 == Self::byte_of(self.b),
    {
        let intensity = Interval::new(Scalar::zero(), Scalar::from_bits(INTENSITY_END));
        (
            intensity.clamp(self.r).to_byte(),
            intensity.clamp(self.g).to_byte(),
            intensity.clamp(self.b).to_byte(),
        )
    }
}

} // verus!
