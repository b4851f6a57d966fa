//! Mirrors, polished or brushed.
use vstd::prelude::*;
use crate::hittable::HitRecord;
use crate::primitive::color::Color;
use crate::primitive::ray::Ray;
use crate::primitive::scalar::Scalar;
use crate::primitive::vec3::Vec3;

verus! {

/// A surface that reflects, and blurs the reflection by `fuzz`.
#[derive(Clone, Copy, Debug)]
pub struct Metal {
    pub albedo: Color,
    /// Never above one.
    pub fuzz: Scalar,
}

impl Metal {
    /// A fuzz as a metal keeps it: lowered to one where it is above.
    pub open spec fn kept_fuzz(fuzz: Scalar) -> Scalar {
        fuzz.lesser(Scalar { bits: 0x3ff0_0000_0000_0000 })
    }

    pub fn new(albedo: Color, fuzz: Scalar) -> (m: Metal)
        ensures
            m.albedo == albedo,
            m.fuzz == Self::kept_fuzz(fuzz),
    {
        Metal { albedo, fuzz: fuzz.min(&Scalar::one()) }
    }

    /// Scatters a ray off the surface. `reflected` is the mirror image of
    /// the incoming direction, made a unit vector, plus `fuzz` times a random
    /// unit vector; `facing` is its dot product with the normal at the hit.
    /// The ray goes on in exactly that direction, and counts as scattered
    /// only if the direction points away from the surface.
    pub fn scatter(
        &self,
        r_in: &Ray,
        hit_record: &HitRecord,
        reflected: Vec3,
        facing: Scalar,
        attenuation: &mut Color,
        scattered: &mut Ray,
    ) -> (did_scatter: bool)
        ensures
            did_scatter == (Scalar { bits: 0 }).less(facing),
            final(scattered).origin == hit_record.p,
            final(scattered).direction == reflected,
            final(scattered).time == r_in.time,
            *final(attenuation) == self.albedo,
    {
        *scattered = Ray::new(hit_record.p, reflected, r_in.time());
        *attenuation = self.albedo;
        facing.gt(&Scalar::zero())
    }
}

} // verus!
