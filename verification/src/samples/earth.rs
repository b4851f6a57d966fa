//! A globe.
use vstd::prelude::*;
use crate::camera::CameraOptions;
use crate::hittable::hittable_list::HittableList;
use crate::hittable::sphere::Sphere;
use crate::hittable::Hittable;
use crate::material::lambertian::Lambertian;
use crate::material::Material;
use crate::primitive::interval::Interval;
use crate::primitive::scalar::Scalar;
use crate::primitive::vec3::Vec3;
use crate::samples::{Scene, MINUS, ONE, TEN, TWELVE, TWENTY, TWO, WIDE};
use crate::texture::image_texture::ImageTexture;
use crate::texture::Texture;

verus! {

/// The camera of the scene: a wide picture 400 pixels across, 100 samples a
/// pixel and 50 bounces, from (0, 0, 12) towards the origin through 20
/// degrees, all in focus.
pub open spec fn camera() -> CameraOptions {
    CameraOptions {
        aspect_ratio: Scalar { bits: WIDE },
        image_width: 400,
        samples_per_pixel: 100,
        max_depth: 50,
        vfov: Scalar { bits: TWENTY },
        lookfrom: Vec3::of_bits(0, 0, TWELVE),
        lookat: Vec3::of_bits(0, 0, 0),
        vup: Vec3::of_bits(0, ONE, 0),
        defocus_angle: Scalar { bits: 0 },
        focus_dist: Scalar { bits: TEN },
        time_range: Interval { start: Scalar { bits: 0 }, end: Scalar { bits: ONE } },
    }
}

/// The globe: a sphere of radius two at the origin.
pub open spec fn globe() -> Sphere {
    Sphere::at_rest(
        Vec3::of_bits(0, 0, 0),
        Scalar { bits: TWO },
        0,
        Vec3::of_bits((MINUS + TWO) as u64, (MINUS + TWO) as u64, (MINUS + TWO) as u64),
        Vec3::of_bits(TWO, TWO, TWO),
    )
}

/// A globe that wears the picture `map`, made linear where that can be done.
pub fn earth(map: image::DynamicImage) -> (scene: Scene)
    ensures
        scene.wf(),
        scene.textures@.len() == 1,
        scene.textures@[0] matches Texture::Image(t) && (if ImageTexture::can_linearise(map) {
            ImageTexture::is_linear_form(map, t.image)
        } else {
            t.image == map
        }),
        scene.materials@ == seq![Material::Lambertian(Lambertian { texture: 0 })],
        scene.world.objects@ == seq![Hittable::Sphere(globe())],
        scene.camera == camera(),
{
    let mut textures: Vec<Texture> = Vec::new();
    let mut materials: Vec<Material> = Vec::new();
    textures.push(Texture::Image(ImageTexture::new(map)));
    materials.push(Material::Lambertian(Lambertian::from(0)));

    let globe = Sphere::new(
        Vec3::from_bits(0, 0, 0),
        Scalar::from_bits(TWO),
        0,
        Vec3::from_bits(MINUS + TWO, MINUS + TWO, MINUS + TWO),
        Vec3::from_bits(TWO, TWO, TWO),
    );

    let camera = CameraOptions {
        aspect_ratio: Scalar::from_bits(WIDE),
        image_width: 400,
        samples_per_pixel: 100,
        max_depth: 50,
        vfov: Scalar::from_bits(TWENTY),
        lookfrom: Vec3::from_bits(0, 0, TWELVE),
        lookat: Vec3::zero(),
        vup: Vec3::from_bits(0, ONE, 0),
        defocus_angle: Scalar::from_bits(0),
        focus_dist: Scalar::from_bits(TEN),
        time_range: Interval::new(Scalar::from_bits(0), Scalar::from_bits(ONE)),
    };

    let mut world = HittableList::new();
    world.add(Hittable::Sphere(globe));
    proof {
        assert(materials@ =~= seq![Material::Lambertian(Lambertian { texture: 0 })]);
        assert(world.objects@ =~= seq![Hittable::Sphere(self::globe())]);
    }
    Scene { textures, materials, world, camera }
}

} // verus!
