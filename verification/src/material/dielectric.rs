//! Glass and other clear matter.
use vstd::prelude::*;
use crate::hittable::HitRecord;
use crate::primitive::color::Color;
use crate::primitive::ray::Ray;
use crate::primitive::scalar::Scalar;
use crate::primitive::vec3::Vec3;

verus! {

/// A clear material, by its refractive index over that of what surrounds it.
#[derive(Clone, Copy, Debug)]
pub struct Dielectric {
    pub refraction_index: Scalar,
}

impl Dielectric {
    /// The ratio of the refractive indices on the way in or out: the inverse
    /// of the index for a ray that enters, the index for one that leaves.
    pub open spec fn ratio(self, front_face: bool, inverse_index: Scalar) -> Scalar {
        if front_face {
            inverse_index
        } else {
            self.refraction_index
        }
    }

    /// Whether Snell's law has no solution, so that a ray cannot be
    /// refracted. `bend` is the ratio of the indices times the sine of the
    /// angle of incidence; it must not be above one.
    pub open spec fn beyond_critical(bend: Scalar) -> bool {
        (Scalar { bits: 0x3ff0_0000_0000_0000 }).less(bend)
    }

    /// Whether a ray is reflected rather than refracted: it is where it
    /// cannot be refracted, and else where the reflectance of the surface
    /// exceeds the number drawn.
    pub open spec fn reflected(bend: Scalar, reflectance: Scalar, draw: Scalar) -> bool {
        Self::beyond_critical(bend) || draw.less(reflectance)
    }

    /// The direction in which a ray goes on: the mirrored one where it is
    /// reflected, the refracted one where it is not.
    pub open spec fn chosen(
        bend: Scalar,
        reflectance: Scalar,
        draw: Scalar,
        mirrored: Vec3,
        refracted: Vec3,
    ) -> Vec3 {
        if Self::reflected(bend, reflectance, draw) {
            mirrored
        } else {
            refracted
        }
    }

    pub fn new(refraction_index: Scalar) -> (m: Dielectric)
        ensures
            m.refraction_index == refraction_index,
    {
        Dielectric { refraction_index }
    }

    /// The ratio of the refractive indices for a hit. `inverse_index` is one
    /// over the material's index.
    pub fn refraction_ratio(&self, hit_record: &HitRecord, inverse_index: Scalar) -> (r: Scalar)
        ensures
            r == self.ratio(hit_record.front_face, inverse_index),
    {
        if hit_record.front_face {
            inverse_index
        } else {
            self.refraction_index
        }
    }

    /// The cosine of the angle of incidence, from the dot product of the
    /// reversed unit direction and the normal: never above one.
    pub fn cos_theta(dot: Scalar) -> (c: Scalar)
        ensures
            c == dot.lesser(Scalar { bits: 0x3ff0_0000_0000_0000 }),
    {
        dot.min(&Scalar::one())
    }

    /// Whether the ray cannot be refracted. Where it cannot, no number need
    /// be drawn to decide that it is reflected.
    pub fn cannot_refract(bend: Scalar) -> (r: bool)
        ensures
            r == Self::beyond_critical(bend),
    {
        bend.gt(&Scalar::one())
    }

    /// Whether the ray is reflected; else it is refracted.
    pub fn reflects(bend: Scalar, reflectance: Scalar, draw: Scalar) -> (r: bool)
        ensures
            r == Self::reflected(bend, reflectance, draw),
    {
        Self::cannot_refract(bend) || reflectance.gt(&draw)
    }

    /// The direction in which the ray goes on, of the two that it could
    /// take.
    pub fn direction(
        bend: Scalar,
        reflectance: Scalar,
        draw: Scalar,
        mirrored: Vec3,
        refracted: Vec3,
    ) -> (d: Vec3)
        ensures
            d == Self::chosen(bend, reflectance, draw, mirrored, refracted),
    {
        if Self::reflects(bend, reflectance, draw) {
            mirrored
        } else {
            refracted
        }
    }

    /// Scatters a ray. `bend` is the ratio of the indices times the sine of
    /// the angle of incidence, `reflectance` that of the surface at this
    /// angle, `draw` a number drawn between 0 and 1, and `mirrored` and
    /// `refracted` the two directions that the ray could take. Clear matter
    /// absorbs nothing and scatters every ray: the ray goes on from the point
    /// that was hit, mirrored where it is reflected and refracted where it is
    /// not.
    pub fn scatter(
        &self,
        r_in: &Ray,
        hit_record: &HitRecord,
        bend: Scalar,
        reflectance: Scalar,
        draw: Scalar,
        mirrored: Vec3,
        refracted: Vec3,
        attenuation: &mut Color,
        scattered: &mut Ray,
    ) -> (did_scatter: bool)
        ensures
            did_scatter,
            final(scattered).origin == hit_record.p,
            final(scattered).direction == Self::chosen(bend, reflectance, draw, mirrored, refracted),
            final(scattered).time == r_in.time,
            final(attenuation).r.bits == 0x3ff0_0000_0000_0000,
            final(attenuation).g.bits == 0x3ff0_0000_0000_0000,
            final(attenuation).b.bits == 0x3ff0_0000_0000_0000,
    {
        *attenuation = Color::white();
        let direction = Self::direction(bend, reflectance, draw, mirrored, refracted);
        *scattered = Ray::new(hit_record.p, direction, r_in.time());
        true
    }
}

/// Beyond the critical angle the ray is reflected, whatever number is drawn
/// and whatever the reflectance: it goes on in the mirrored direction.
pub proof fn lemma_total_internal_reflection(
    bend: Scalar,
    reflectance: Scalar,
    draw: Scalar,
    mirrored: Vec3,
    refracted: Vec3,
)
    requires
        (Scalar { bits: 0x3ff0_0000_0000_0000 }).less(bend),
    ensures
        Dielectric::reflected(bend, reflectance, draw),
        Dielectric::chosen(bend, reflectance, draw, mirrored, refracted) == mirrored,
{
}

} // verus!
