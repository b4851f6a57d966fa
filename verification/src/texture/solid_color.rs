//! One colour everywhere.
use vstd::prelude::*;
use crate::primitive::color::Color;
use crate::primitive::point3::Point3;
use crate::primitive::scalar::Scalar;

verus! {

#[derive(Clone, Copy, Debug)]
pub struct SolidColor {
    pub albedo: Color,
}

impl SolidColor {
    pub fn new(albedo: Color) -> (t: SolidColor)
        ensures
            t.albedo == albedo,
    {
        SolidColor { albedo }
    }

    /// The colour, whatever the texture coordinates and the point.
    pub fn value(&self, u: Scalar, v: Scalar, p: &Point3) -> (c: Color)
        ensures
            c == self.albedo,
    {
        self.albedo
    }
}

} // verus!
