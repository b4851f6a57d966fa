//! Colour as a function of where a surface was hit.
use vstd::prelude::*;
use crate::texture::checker_texture::CheckerTexture;
use crate::texture::image_texture::ImageTexture;
use crate::texture::noise_texture::NoiseTexture;
use crate::texture::solid_color::SolidColor;

pub mod checker_texture;
pub mod image_texture;
pub mod noise_texture;
pub mod perlin;
pub mod solid_color;

verus! {

/// The kinds of texture. Textures lie in a table of the scene, and a texture
/// or a material that uses another names it by its place there.
#[derive(Debug)]
pub enum Texture {
    Solid(SolidColor),
    Checker(CheckerTexture),
    Noise(NoiseTexture),
    Image(ImageTexture),
}

impl Texture {
    /// Whether the textures that this one names all lie before `at` in the
    /// table, so that following them ends.
    pub open spec fn refers_below(self, at: int) -> bool {
        match self {
            Texture::Checker(c) => c.even < at && c.odd < at,
            _ => true,
        }
    }
}

} // verus!
