//! Matte surfaces.
use vstd::prelude::*;
use crate::hittable::HitRecord;
use crate::primitive::color::Color;
use crate::primitive::ray::Ray;
use crate::primitive::vec3::Vec3;
use crate::texture::solid_color::SolidColor;
use crate::texture::Texture;

verus! {

/// A surface that scatters light evenly and takes its colour from a texture.
#[derive(Clone, Copy, Debug)]
pub struct Lambertian {
    /// The texture, by its place in the scene's table.
    pub texture: usize,
}

impl Lambertian {
    /// The direction in which a matte surface sends a ray on: the one
    /// proposed, or the normal where the proposal is too short to be one.
    pub open spec fn direction(rec: HitRecord, proposed: Vec3) -> Vec3 {
        if proposed.is_near_zero() {
            rec.normal
        } else {
            proposed
        }
    }

    /// A matte surface of one colour. The colour joins the table of textures
    /// as a solid texture, which the material then names.
    pub fn new(albedo: Color, textures: &mut Vec<Texture>) -> (m: Lambertian)
        ensures
            final(textures)@ == old(textures)@.push(Texture::Solid(SolidColor { albedo })),
            m.texture == old(textures)@.len(),
    {
        let texture = textures.len();
        textures.push(Texture::Solid(SolidColor::new(albedo)));
        Lambertian { texture }
    }

    /// A matte surface with the texture at place `texture` of the table.
    pub fn from(texture: usize) -> (m: Lambertian)
        ensures
            m.texture == texture,
    {
        Lambertian { texture }
    }

    /// Scatters a ray off the surface. `proposed` is the normal at the hit
    /// plus a random vector of unit length, `texel` the colour of the
    /// material's texture at the hit. A matte surface scatters every ray: it
    /// sends it on from the point that was hit.
    pub fn scatter(
        &self,
        r_in: &Ray,
        hit_record: &HitRecord,
        proposed: Vec3,
        texel: Color,
        attenuation: &mut Color,
        scattered: &mut Ray,
    ) -> (did_scatter: bool)
        ensures
            did_scatter,
            final(scattered).origin == hit_record.p,
            final(scattered).direction == Self::direction(*hit_record, proposed),
            final(scattered).time == r_in.time,
            *final(attenuation) == texel,
    {
        let mut scatter_direction = proposed;
        if scatter_direction.near_zero() {
            scatter_direction = hit_record.normal;
        }
        *scattered = Ray::new(hit_record.p, scatter_direction, r_in.time());
        *attenuation = texel;
        true
    }
}

} // verus!
