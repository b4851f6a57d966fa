//! Scenes ready to be rendered.
use vstd::prelude::*;
use crate::camera::CameraOptions;
use crate::hittable::hittable_list::HittableList;
use crate::hittable::Hittable;
use crate::material::Material;
use crate::texture::Texture;

pub mod bouncing_spheres;
pub mod checkered_spheres;
pub mod earth;
pub mod perlin_spheres;

verus! {

/// 16 / 9, the aspect ratio of the pictures.
pub const WIDE: u64 = 0x3ffc_71c7_1c71_c71c;

pub const ONE: u64 = 0x3ff0_0000_0000_0000;

pub const TWO: u64 = 0x4000_0000_0000_0000;

pub const THREE: u64 = 0x4008_0000_0000_0000;

pub const FOUR: u64 = 0x4010_0000_0000_0000;

pub const TEN: u64 = 0x4024_0000_0000_0000;

pub const TWELVE: u64 = 0x4028_0000_0000_0000;

pub const THIRTEEN: u64 = 0x402a_0000_0000_0000;

pub const TWENTY: u64 = 0x4034_0000_0000_0000;

pub const THOUSAND: u64 = 0x408f_4000_0000_0000;

/// What the sign bit adds to a pattern: `MINUS + TEN` is minus ten.
pub const MINUS: u64 = 0x8000_0000_0000_0000;

/// A world, the tables of materials and textures that its objects name, and
/// the camera to look at it with.
#[derive(Debug)]
pub struct Scene {
    pub textures: Vec<Texture>,
    pub materials: Vec<Material>,
    pub world: HittableList,
    pub camera: CameraOptions,
}

impl Scene {
    /// Every name is the place of something in its table, textures name only
    /// textures before them, and the world's box is the box around its
    /// objects.
    pub open spec fn wf(self) -> bool {
        &&& forall|i: int|
            0 <= i < self.textures@.len() ==> (#[trigger] self.textures@[i]).refers_below(i)
        &&& forall|i: int|
            0 <= i < self.materials@.len() ==> (#[trigger] self.materials@[i]).refers_below(
                self.textures@.len() as int,
            )
        &&& forall|i: int|
            0 <= i < self.world.objects@.len() ==> (#[trigger] self.world.objects@[i]
                matches Hittable::Sphere(s) ==> s.material < self.materials@.len())
        &&& self.world.wf()
    }
}

} // verus!
