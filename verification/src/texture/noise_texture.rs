//! A marbled texture driven by noise.
use vstd::prelude::*;
use crate::primitive::scalar::Scalar;
use crate::primitive::vec3::Vec3;
use crate::texture::perlin::Perlin;

verus! {

#[derive(Debug)]
pub struct NoiseTexture {
    pub noise: Perlin,
    /// The frequency of the pattern grows with the scale.
    pub scale: Scalar,
}

impl NoiseTexture {
    /// A texture over fresh noise. `randvec` holds the gradients of the
    /// noise: 256 vectors drawn at random.
    pub fn new(scale: Scalar, randvec: Vec<Vec3>) -> (t: NoiseTexture)
        requires
            randvec@.len() == 256,
        ensures
            t.scale == scale,
            t.noise.randvec == randvec,
            t.noise.wf(),
    {
        NoiseTexture { noise: Perlin::new(randvec), scale }
    }
}

} // verus!
