//! A marbled sphere on marbled ground.
use vstd::prelude::*;
use crate::camera::CameraOptions;
use crate::hittable::hittable_list::HittableList;
use crate::hittable::sphere::Sphere;
use crate::hittable::Hittable;
use crate::material::lambertian::Lambertian;
use crate::material::Material;
use crate::primitive::interval::Interval;
use crate::primitive::scalar::Scalar;
use crate::primitive::vec3::Vec3;
use crate::samples::{Scene, FOUR, MINUS, ONE, TEN, THIRTEEN, THOUSAND, THREE, TWENTY, TWO, WIDE};
use crate::texture::noise_texture::NoiseTexture;
use crate::texture::Texture;

verus! {

/// Two thousand.
pub const TWO_THOUSAND: u64 = 0x409f_4000_0000_0000;

/// The camera of the scene: a wide picture 400 pixels across, 100 samples a
/// pixel and 50 bounces, from (13, 2, 3) towards the origin through 20
/// degrees, all in focus.
pub open spec fn camera() -> CameraOptions {
    CameraOptions {
        aspect_ratio: Scalar { bits: WIDE },
        image_width: 400,
        samples_per_pixel: 100,
        max_depth: 50,
        vfov: Scalar { bits: TWENTY },
        lookfrom: Vec3::of_bits(THIRTEEN, TWO, THREE),
        lookat: Vec3::of_bits(0, 0, 0),
        vup: Vec3::of_bits(0, ONE, 0),
        defocus_angle: Scalar { bits: 0 },
        focus_dist: Scalar { bits: TEN },
        time_range: Interval { start: Scalar { bits: 0 }, end: Scalar { bits: ONE } },
    }
}

/// The ground: a sphere of radius one thousand that touches the origin from
/// below.
pub open spec fn ground() -> Sphere {
    Sphere::at_rest(
        Vec3::of_bits(0, (MINUS + THOUSAND) as u64, 0),
        Scalar { bits: THOUSAND },
        0,
        Vec3::of_bits(
            (MINUS + THOUSAND) as u64,
            (MINUS + TWO_THOUSAND) as u64,
            (MINUS + THOUSAND) as u64,
        ),
        Vec3::of_bits(THOUSAND, 0, THOUSAND),
    )
}

/// The sphere of radius two that lies on the ground.
pub open spec fn ball() -> Sphere {
    Sphere::at_rest(
        Vec3::of_bits(0, TWO, 0),
        Scalar { bits: TWO },
        0,
        Vec3::of_bits((MINUS + TWO) as u64, 0, (MINUS + TWO) as u64),
        Vec3::of_bits(TWO, FOUR, TWO),
    )
}

/// A sphere on the ground, both matte under one marbled texture of scale
/// four. `randvec` holds the gradients of the noise: 256 vectors drawn at
/// random.
pub fn perlin_spheres(randvec: Vec<Vec3>) -> (scene: Scene)
    requires
        randvec@.len() == 256,
    ensures
        scene.wf(),
        scene.textures@.len() == 1,
        scene.textures@[0] matches Texture::Noise(t) && t.scale.bits == FOUR && t.noise.randvec
            == randvec && t.noise.wf(),
        scene.materials@ == seq![Material::Lambertian(Lambertian { texture: 0 })],
        scene.world.objects@ == seq![Hittable::Sphere(ground()), Hittable::Sphere(ball())],
        scene.camera == camera(),
{
    let mut world = HittableList::new();
    let mut textures: Vec<Texture> = Vec::new();
    let mut materials: Vec<Material> = Vec::new();

    textures.push(Texture::Noise(NoiseTexture::new(Scalar::from_bits(FOUR), randvec)));
    materials.push(Material::Lambertian(Lambertian::from(0)));

    let floor_sphere = Sphere::new(
        Vec3::from_bits(0, MINUS + THOUSAND, 0),
        Scalar::from_bits(THOUSAND),
        0,
        Vec3::from_bits(MINUS + THOUSAND, MINUS + TWO_THOUSAND, MINUS + THOUSAND),
        Vec3::from_bits(THOUSAND, 0, THOUSAND),
    );
    let sphere = Sphere::new(
        Vec3::from_bits(0, TWO, 0),
        Scalar::from_bits(TWO),
        0,
        Vec3::from_bits(MINUS + TWO, 0, MINUS + TWO),
        Vec3::from_bits(TWO, FOUR, TWO),
    );

    world.add(Hittable::Sphere(floor_sphere));
    world.add(Hittable::Sphere(sphere));

    let camera = CameraOptions {
        aspect_ratio: Scalar::from_bits(WIDE),
        image_width: 400,
        samples_per_pixel: 100,
        max_depth: 50,
        vfov: Scalar::from_bits(TWENTY),
        lookfrom: Vec3::from_bits(THIRTEEN, TWO, THREE),
        lookat: Vec3::from_bits(0, 0, 0),
        vup: Vec3::from_bits(0, ONE, 0),
        defocus_angle: Scalar::from_bits(0),
        focus_dist: Scalar::from_bits(TEN),
        time_range: Interval::new(Scalar::from_bits(0), Scalar::from_bits(ONE)),
    };
    proof {
        assert(materials@ =~= seq![Material::Lambertian(Lambertian { texture: 0 })]);
        assert(world.objects@ =~= seq![Hittable::Sphere(ground()), Hittable::Sphere(ball())]);
    }
    Scene { textures, materials, world, camera }
}

} // verus!
