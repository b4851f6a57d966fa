//! Two large spheres with a checkerboard on them.
use vstd::prelude::*;
use crate::camera::CameraOptions;
use crate::hittable::hittable_list::HittableList;
use crate::hittable::sphere::Sphere;
use crate::hittable::Hittable;
use crate::material::lambertian::Lambertian;
use crate::material::Material;
use crate::primitive::color::Color;
use crate::primitive::interval::Interval;
use crate::primitive::scalar::Scalar;
use crate::primitive::vec3::Vec3;
use crate::samples::{Scene, MINUS, ONE, TEN, THIRTEEN, THREE, TWENTY, TWO, WIDE};
use crate::texture::checker_texture::CheckerTexture;
use crate::texture::solid_color::SolidColor;
use crate::texture::Texture;

verus! {

/// The dark colour of the board: 0.2, 0.3, 0.1.
pub open spec fn dark() -> Color {
    Color::of_bits(0x3fc9_9999_9999_999a, 0x3fd3_3333_3333_3333, 0x3fb9_9999_9999_999a)
}

/// The light colour of the board: 0.9, 0.9, 0.9.
pub open spec fn light() -> Color {
    Color::of_bits(0x3fec_cccc_cccc_cccd, 0x3fec_cccc_cccc_cccd, 0x3fec_cccc_cccc_cccd)
}

/// One over 0.32, the edge of a square of the board: 3.125.
pub const INV_EDGE: u64 = 0x4009_0000_0000_0000;

/// The camera of the scene: a wide picture 400 pixels across, 100 samples a
/// pixel and 50 bounces, from (13, 2, 3) towards the origin through 20
/// degrees, all in focus.
pub open spec fn camera() -> CameraOptions {
    CameraOptions {
        aspect_ratio: Scalar { bits: WIDE },
        image_width: 400,
        samples_per_pixel: 100,
        max_depth: 50,
        vfov: Scalar { bits: TWENTY },
        lookfrom: Vec3::of_bits(THIRTEEN, TWO, THREE),
        lookat: Vec3::of_bits(0, 0, 0),
        vup: Vec3::of_bits(0, ONE, 0),
        defocus_angle: Scalar { bits: 0 },
        focus_dist: Scalar { bits: TEN },
        time_range: Interval { start: Scalar { bits: 0 }, end: Scalar { bits: ONE } },
    }
}

/// The sphere of radius ten below the origin.
pub open spec fn lower() -> Sphere {
    Sphere::at_rest(
        Vec3::of_bits(0, (MINUS + TEN) as u64, 0),
        Scalar { bits: TEN },
        0,
        Vec3::of_bits((MINUS + TEN) as u64, (MINUS + TWENTY) as u64, (MINUS + TEN) as u64),
        Vec3::of_bits(TEN, 0, TEN),
    )
}

/// The sphere of radius ten above the origin.
pub open spec fn upper() -> Sphere {
    Sphere::at_rest(
        Vec3::of_bits(0, TEN, 0),
        Scalar { bits: TEN },
        1,
        Vec3::of_bits((MINUS + TEN) as u64, 0, (MINUS + TEN) as u64),
        Vec3::of_bits(TEN, TWENTY, TEN),
    )
}

/// Two spheres of radius ten that touch at the origin, each matte under one
/// and the same checkerboard.
pub fn checkered_spheres() -> (scene: Scene)
    ensures
        scene.wf(),
        scene.textures@ == seq![
            Texture::Solid(SolidColor { albedo: dark() }),
            Texture::Solid(SolidColor { albedo: light() }),
            Texture::Checker(CheckerTexture { inv_scale: Scalar { bits: INV_EDGE }, even: 0, odd: 1 }),
        ],
        scene.materials@ == seq![
            Material::Lambertian(Lambertian { texture: 2 }),
            Material::Lambertian(Lambertian { texture: 2 }),
        ],
        scene.world.objects@ == seq![Hittable::Sphere(lower()), Hittable::Sphere(upper())],
        scene.camera == camera(),
{
    let mut world = HittableList::new();
    let mut textures: Vec<Texture> = Vec::new();
    let mut materials: Vec<Material> = Vec::new();

    textures.push(
        Texture::Solid(
            SolidColor::new(
                Color::from_bits(0x3fc9_9999_9999_999a, 0x3fd3_3333_3333_3333, 0x3fb9_9999_9999_999a),
            ),
        ),
    );
    textures.push(
        Texture::Solid(
            SolidColor::new(
                Color::from_bits(0x3fec_cccc_cccc_cccd, 0x3fec_cccc_cccc_cccd, 0x3fec_cccc_cccc_cccd),
            ),
        ),
    );
    textures.push(Texture::Checker(CheckerTexture::new(Scalar::from_bits(INV_EDGE), 0, 1)));
    let checker: usize = 2;

    materials.push(Material::Lambertian(Lambertian::from(checker)));
    world.add(
        Hittable::Sphere(
            Sphere::new(
                Vec3::from_bits(0, MINUS + TEN, 0),
                Scalar::from_bits(TEN),
                0,
                Vec3::from_bits(MINUS + TEN, MINUS + TWENTY, MINUS + TEN),
                Vec3::from_bits(TEN, 0, TEN),
            ),
        ),
    );
    materials.push(Material::Lambertian(Lambertian::from(checker)));
    world.add(
        Hittable::Sphere(
            Sphere::new(
                Vec3::from_bits(0, TEN, 0),
                Scalar::from_bits(TEN),
                1,
                Vec3::from_bits(MINUS + TEN, 0, MINUS + TEN),
                Vec3::from_bits(TEN, TWENTY, TEN),
            ),
        ),
    );

    let camera = CameraOptions {
        aspect_ratio: Scalar::from_bits(WIDE),
        image_width: 400,
        samples_per_pixel: 100,
        max_depth: 50,
        vfov: Scalar::from_bits(TWENTY),
        lookfrom: Vec3::from_bits(THIRTEEN, TWO, THREE),
        lookat: Vec3::from_bits(0, 0, 0),
        vup: Vec3::from_bits(0, ONE, 0),
        defocus_angle: Scalar::from_bits(0),
        focus_dist: Scalar::from_bits(TEN),
        time_range: Interval::new(Scalar::from_bits(0), Scalar::from_bits(ONE)),
    };
    proof {
        assert(textures@ =~= seq![
            Texture::Solid(SolidColor { albedo: dark() }),
            Texture::Solid(SolidColor { albedo: light() }),
            Texture::Checker(CheckerTexture { inv_scale: Scalar { bits: INV_EDGE }, even: 0, odd: 1 }),
        ]);
        assert(materials@ =~= seq![
            Material::Lambertian(Lambertian { texture: 2 }),
            Material::Lambertian(Lambertian { texture: 2 }),
        ]);
        assert(world.objects@ =~= seq![Hittable::Sphere(lower()), Hittable::Sphere(upper())]);
    }
    Scene { textures, materials, world, camera }
}

} // verus!
