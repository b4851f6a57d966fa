//! How surfaces send light on.
use vstd::prelude::*;
use crate::material::dielectric::Dielectric;
use crate::material::lambertian::Lambertian;
use crate::material::metal::Metal;

pub mod dielectric;
pub mod lambertian;
pub mod metal;

verus! {

/// The kinds of material. Materials lie in a table of the scene, and the
/// objects that share one name it by its place there.
#[derive(Clone, Copy, Debug)]
pub enum Material {
    Lambertian(Lambertian),
    Metal(Metal),
    Dielectric(Dielectric),
}

impl Material {
    /// Whether the texture that the material names lies in a table of
    /// `count` textures.
    pub open spec fn refers_below(self, count: int) -> bool {
        match self {
            Material::Lambertian(l) => l.texture < count,
            _ => true,
        }
    }
}

} // verus!
