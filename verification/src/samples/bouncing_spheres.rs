//! Many small spheres between three large ones, some of them moving.
use vstd::prelude::*;
use crate::camera::CameraOptions;
use crate::hittable::hittable_list::HittableList;
use crate::hittable::sphere::Sphere;
use crate::hittable::Hittable;
use crate::material::dielectric::Dielectric;
use crate::material::lambertian::Lambertian;
use crate::material::metal::Metal;
use crate::material::Material;
use crate::primitive::color::Color;
use crate::primitive::interval::Interval;
use crate::primitive::point3::Point3;
use crate::primitive::scalar::Scalar;
use crate::primitive::vec3::Vec3;
use crate::samples::{Scene, FOUR, MINUS, ONE, TEN, THIRTEEN, THOUSAND, THREE, TWENTY, TWO, WIDE};
use crate::texture::checker_texture::CheckerTexture;
use crate::texture::solid_color::SolidColor;
use crate::texture::Texture;

verus! {

/// Below this a small sphere is matte: 0.8.
pub const MATTE_BELOW: u64 = 0x3fe9_9999_9999_999a;

/// Below this, and not matte, a small sphere is of metal: 0.95.
pub const METAL_BELOW: u64 = 0x3fee_6666_6666_6666;

/// A small sphere must lie farther than this from the point (4, 0.2, 0):
/// 0.9.
pub const CLEARANCE: u64 = 0x3fec_cccc_cccc_cccd;

/// The radius of a small sphere: 0.2.
pub const SMALL: u64 = 0x3fc9_9999_9999_999a;

/// The refractive index of glass: 1.5.
pub const GLASS: u64 = 0x3ff8_0000_0000_0000;

/// The angle of the lens: 0.6 degrees.
pub const LENS: u64 = 0x3fe3_3333_3333_3333;

pub const TWO_THOUSAND: u64 = 0x409f_4000_0000_0000;

pub const FIVE: u64 = 0x4014_0000_0000_0000;

/// What a small sphere is made of.
#[derive(Clone, Copy, Debug)]
pub enum Kind {
    Matte,
    Metal,
    Glass,
}

/// What was drawn for one small sphere.
#[derive(Clone, Copy, Debug)]
pub struct Spot {
    /// The number that decides the material.
    pub choice: Scalar,
    pub center: Point3,
    /// The distance of the centre from the point (4, 0.2, 0).
    pub distance: Scalar,
    /// The colour of a matte or a metal sphere.
    pub albedo: Color,
    /// The fuzz of a metal sphere.
    pub fuzz: Scalar,
    /// The velocity of a matte sphere; the others rest.
    pub velocity: Vec3,
    /// The corners of the box around the sphere at time 0.
    pub corner0: Point3,
    pub corner1: Point3,
    /// The corners of the box around the sphere at time 1.
    pub corner2: Point3,
    pub corner3: Point3,
}

/// The tables of a scene as sequences.
pub struct Stock {
    pub textures: Seq<Texture>,
    pub materials: Seq<Material>,
    pub objects: Seq<Hittable>,
}

/// The material that a number drawn between 0 and 1 decides on: matte below
/// 0.8, metal from there up to 0.95, glass otherwise.
pub open spec fn kind_for(choice: Scalar) -> Kind {
    if choice.less(Scalar { bits: MATTE_BELOW }) {
        Kind::Matte
    } else if choice.less(Scalar { bits: METAL_BELOW }) {
        Kind::Metal
    } else {
        Kind::Glass
    }
}

/// Whether a small sphere at the given distance from the point (4, 0.2, 0)
/// keeps clear of the large sphere there.
pub open spec fn is_clear(distance: Scalar) -> bool {
    (Scalar { bits: CLEARANCE }).less(distance)
}

/// The tables after the small sphere of a spot has joined them, if it keeps
/// clear: its material comes last among the materials, a matte one with its
/// colour as a new last texture, and only a matte sphere moves.
pub open spec fn placed(stock: Stock, spot: Spot) -> Stock {
    if !is_clear(spot.distance) {
        stock
    } else {
        let name = stock.materials.len() as usize;
        match kind_for(spot.choice) {
            Kind::Matte => Stock {
                textures: stock.textures.push(Texture::Solid(SolidColor { albedo: spot.albedo })),
                materials: stock.materials.push(
                    Material::Lambertian(Lambertian { texture: stock.textures.len() as usize }),
                ),
                objects: stock.objects.push(
                    Hittable::Sphere(
                        Sphere::in_motion(
                            spot.center,
                            Scalar { bits: SMALL },
                            name,
                            spot.velocity,
                            spot.corner0,
                            spot.corner1,
                            spot.corner2,
                            spot.corner3,
                        ),
                    ),
                ),
            },
            Kind::Metal => Stock {
                textures: stock.textures,
                materials: stock.materials.push(
                    Material::Metal(
                        Metal { albedo: spot.albedo, fuzz: Metal::kept_fuzz(spot.fuzz) },
                    ),
                ),
                objects: stock.objects.push(
                    Hittable::Sphere(
                        Sphere::in_motion(
                            spot.center,
                            Scalar { bits: SMALL },
                            name,
                            Vec3::of_bits(0, 0, 0),
                            spot.corner0,
                            spot.corner1,
                            spot.corner2,
                            spot.corner3,
                        ),
                    ),
                ),
            },
            Kind::Glass => Stock {
                textures: stock.textures,
                materials: stock.materials.push(
                    Material::Dielectric(Dielectric { refraction_index: Scalar { bits: GLASS } }),
                ),
                objects: stock.objects.push(
                    Hittable::Sphere(
                        Sphere::in_motion(
                            spot.center,
                            Scalar { bits: SMALL },
                            name,
                            Vec3::of_bits(0, 0, 0),
                            spot.corner0,
                            spot.corner1,
                            spot.corner2,
                            spot.corner3,
                        ),
                    ),
                ),
            },
        }
    }
}

/// The tables after the small spheres of the first `n` spots have joined
/// them, one after the other.
pub open spec fn scattered(stock: Stock, spots: Seq<Spot>, n: nat) -> Stock
    decreases n,
{
    if n == 0 {
        stock
    } else {
        placed(scattered(stock, spots, (n - 1) as nat), spots[n - 1])
    }
}

/// The ground: a sphere of radius one thousand under the origin, matte with
/// a checkerboard of a dark and a light colour.
pub open spec fn ground() -> Stock {
    Stock {
        textures: seq![
            Texture::Solid(
                SolidColor {
                    albedo: Color::of_bits(
                        0x3fc9_9999_9999_999a,
                        0x3fd3_3333_3333_3333,
                        0x3fb9_9999_9999_999a,
                    ),
                },
            ),
            Texture::Solid(
                SolidColor {
                    albedo: Color::of_bits(
                        0x3fec_cccc_cccc_cccd,
                        0x3fec_cccc_cccc_cccd,
                        0x3fec_cccc_cccc_cccd,
                    ),
                },
            ),
            Texture::Checker(
                CheckerTexture { inv_scale: Scalar { bits: 0x4009_0000_0000_0000 }, even: 0, odd: 1 },
            ),
        ],
        materials: seq![Material::Lambertian(Lambertian { texture: 2 })],
        objects: seq![
            Hittable::Sphere(
                Sphere::at_rest(
                    Vec3::of_bits(0, (MINUS + THOUSAND) as u64, 0),
                    Scalar { bits: THOUSAND },
                    0,
                    Vec3::of_bits(
                        (MINUS + THOUSAND) as u64,
                        (MINUS + TWO_THOUSAND) as u64,
                        (MINUS + THOUSAND) as u64,
                    ),
                    Vec3::of_bits(THOUSAND, 0, THOUSAND),
                ),
            ),
        ],
    }
}

/// The tables with the three large spheres added: one of glass at
/// (0, 1, 0), a brown matte one at (-4, 1, 0) and a polished metal one at
/// (4, 1, 0), each of radius one.
pub open spec fn crowned(stock: Stock) -> Stock {
    let m = stock.materials.len();
    let t = stock.textures.len();
    Stock {
        textures: stock.textures.push(
            Texture::Solid(
                SolidColor {
                    albedo: Color::of_bits(
                        0x3fd9_9999_9999_999a,
                        0x3fc9_9999_9999_999a,
                        0x3fb9_9999_9999_999a,
                    ),
                },
            ),
        ),
        materials: stock.materials.push(
            Material::Dielectric(Dielectric { refraction_index: Scalar { bits: GLASS } }),
        ).push(Material::Lambertian(Lambertian { texture: t as usize })).push(
            Material::Metal(
                Metal {
                    albedo: Color::of_bits(
                        0x3fe6_6666_6666_6666,
                        0x3fe3_3333_3333_3333,
                        0x3fe0_0000_0000_0000,
                    ),
                    fuzz: Metal::kept_fuzz(Scalar { bits: 0 }),
                },
            ),
        ),
        objects: stock.objects.push(
            Hittable::Sphere(
                Sphere::at_rest(
                    Vec3::of_bits(0, ONE, 0),
                    Scalar { bits: ONE },
                    m as usize,
                    Vec3::of_bits((MINUS + ONE) as u64, 0, (MINUS + ONE) as u64),
                    Vec3::of_bits(ONE, TWO, ONE),
                ),
            ),
        ).push(
            Hittable::Sphere(
                Sphere::at_rest(
                    Vec3::of_bits((MINUS + FOUR) as u64, ONE, 0),
                    Scalar { bits: ONE },
                    (m + 1) as usize,
                    Vec3::of_bits((MINUS + FIVE) as u64, 0, (MINUS + ONE) as u64),
                    Vec3::of_bits((MINUS + THREE) as u64, TWO, ONE),
                ),
            ),
        ).push(
            Hittable::Sphere(
                Sphere::at_rest(
                    Vec3::of_bits(FOUR, ONE, 0),
                    Scalar { bits: ONE },
                    (m + 2) as usize,
                    Vec3::of_bits(THREE, 0, (MINUS + ONE) as u64),
                    Vec3::of_bits(FIVE, TWO, ONE),
                ),
            ),
        ),
    }
}

/// The camera of the scene: a wide picture 600 pixels across, 50 samples a
/// pixel and 50 bounces, from (13, 2, 3) towards the origin through 20
/// degrees, with a lens of 0.6 degrees in focus at distance ten.
pub open spec fn camera() -> CameraOptions {
    CameraOptions {
        aspect_ratio: Scalar { bits: WIDE },
        image_width: 600,
        samples_per_pixel: 50,
        max_depth: 50,
        vfov: Scalar { bits: TWENTY },
        lookfrom: Vec3::of_bits(THIRTEEN, TWO, THREE),
        lookat: Vec3::of_bits(0, 0, 0),
        vup: Vec3::of_bits(0, ONE, 0),
        defocus_angle: Scalar { bits: LENS },
        focus_dist: Scalar { bits: TEN },
        time_range: Interval { start: Scalar { bits: 0 }, end: Scalar { bits: ONE } },
    }
}

/// The material for a number drawn between 0 and 1.
pub fn small_sphere_kind(choice: Scalar) -> (k: Kind)
    ensures
        k == kind_for(choice),
{
    if choice.lt(&Scalar::from_bits(MATTE_BELOW)) {
        Kind::Matte
    } else if choice.lt(&Scalar::from_bits(METAL_BELOW)) {
        Kind::Metal
    } else {
        Kind::Glass
    }
}

/// Whether a small sphere keeps clear of the large sphere at (4, 1, 0).
pub fn keeps_clear(distance: Scalar) -> (r: bool)
    ensures
        r == is_clear(distance),
{
    distance.gt(&Scalar::from_bits(CLEARANCE))
}

impl Scene {
    /// The three tables as sequences.
    pub open spec fn stock(self) -> Stock {
        Stock {
            textures: self.textures@,
            materials: self.materials@,
            objects: self.world.objects@,
        }
    }

    /// Adds the small sphere of a spot, if it keeps clear.
    pub fn place(&mut self, spot: &Spot)
        ensures
            old(self).wf() ==> final(self).wf(),
            final(self).stock() == placed(old(self).stock(), *spot),
            final(self).camera == old(self).camera,
    {
        if !keeps_clear(spot.distance) {
            return ;
        }
        let name = self.materials.len();
        let mut velocity = Vec3::zero();
        match small_sphere_kind(spot.choice) {
            Kind::Matte => {
                velocity = spot.velocity;
                let matte = Lambertian::new(spot.albedo, &mut self.textures);
                self.materials.push(Material::Lambertian(matte));
            },
            Kind::Metal => {
                self.materials.push(Material::Metal(Metal::new(spot.albedo, spot.fuzz)));
            },
            Kind::Glass => {
                self.materials.push(
                    Material::Dielectric(Dielectric::new(Scalar::from_bits(GLASS))),
                );
            },
        }
        let sphere = Sphere::new_moving(
            spot.center,
            Scalar::from_bits(SMALL),
            name,
            velocity,
            spot.corner0,
            spot.corner1,
            spot.corner2,
            spot.corner3,
        );
        self.world.add(Hittable::Sphere(sphere));
        proof {
            if old(self).wf() {
                assert forall|i: int| 0 <= i < self.textures@.len() implies (
                #[trigger] self.textures@[i]).refers_below(i) by {
                    if i < old(self).textures@.len() {
                        assert(self.textures@[i] == old(self).textures@[i]);
                    }
                }
                assert forall|i: int| 0 <= i < self.materials@.len() implies (
                #[trigger] self.materials@[i]).refers_below(self.textures@.len() as int) by {
                    if i < old(self).materials@.len() {
                        assert(self.materials@[i] == old(self).materials@[i]);
                        assert(old(self).materials@[i].refers_below(old(self).textures@.len() as int));
                    }
                }
                assert forall|i: int| 0 <= i < self.world.objects@.len() implies (
                #[trigger] self.world.objects@[i] matches Hittable::Sphere(s) ==> s.material
                    < self.materials@.len()) by {
                    if i < old(self).world.objects@.len() {
                        assert(self.world.objects@[i] == old(self).world.objects@[i]);
                    }
                }
            }
        }
    }
}

/// The scene of the bouncing spheres, with a small sphere for each spot that
/// keeps clear. The objects form a flat list: the ground, the small spheres
/// in the order of their spots, and the three large spheres.
pub fn bouncing_spheres(spots: &Vec<Spot>) -> (scene: Scene)
    ensures
        scene.wf(),
        scene.stock() == crowned(scattered(ground(), spots@, spots@.len())),
        scene.camera == camera(),
{
    let mut textures: Vec<Texture> = Vec::new();
    let mut materials: Vec<Material> = Vec::new();
    let mut world = HittableList::new();
    textures.push(
        Texture::Solid(
            SolidColor::new(
                Color::from_bits(0x3fc9_9999_9999_999a, 0x3fd3_3333_3333_3333, 0x3fb9_9999_9999_999a),
            ),
        ),
    );
    textures.push(
        Texture::Solid(
            SolidColor::new(
                Color::from_bits(0x3fec_cccc_cccc_cccd, 0x3fec_cccc_cccc_cccd, 0x3fec_cccc_cccc_cccd),
            ),
        ),
    );
    textures.push(
        Texture::Checker(CheckerTexture::new(Scalar::from_bits(0x4009_0000_0000_0000), 0, 1)),
    );
    materials.push(Material::Lambertian(Lambertian::from(2)));
    world.add(
        Hittable::Sphere(
            Sphere::new(
                Vec3::from_bits(0, MINUS + THOUSAND, 0),
                Scalar::from_bits(THOUSAND),
                0,
                Vec3::from_bits(MINUS + THOUSAND, MINUS + TWO_THOUSAND, MINUS + THOUSAND),
                Vec3::from_bits(THOUSAND, 0, THOUSAND),
            ),
        ),
    );
    let options = CameraOptions {
        aspect_ratio: Scalar::from_bits(WIDE),
        image_width: 600,
        samples_per_pixel: 50,
        max_depth: 50,
        vfov: Scalar::from_bits(TWENTY),
        lookfrom: Vec3::from_bits(THIRTEEN, TWO, THREE),
        lookat: Vec3::zero(),
        vup: Vec3::from_bits(0, ONE, 0),
        defocus_angle: Scalar::from_bits(LENS),
        focus_dist: Scalar::from_bits(TEN),
        time_range: Interval::new(Scalar::from_bits(0), Scalar::from_bits(ONE)),
    };
    let mut scene = Scene { textures, materials, world, camera: options };
    proof {
        assert(scene.textures@ =~= ground().textures);
        assert(scene.materials@ =~= ground().materials);
        assert(scene.world.objects@ =~= ground().objects);
    }
    let mut i: usize = 0;
    while i < spots.len()
        invariant
            i <= spots@.len(),
            scene.wf(),
            scene.stock() == scattered(ground(), spots@, i as nat),
            scene.camera == camera(),
        decreases spots@.len() - i,
    {
        scene.place(&spots[i]);
        i = i + 1;
    }
    scene.crown();
    scene
}

impl Scene {
    /// Adds the three large spheres.
    fn crown(&mut self)
        requires
            old(self).wf(),
        ensures
            final(self).wf(),
            final(self).stock() == crowned(old(self).stock()),
            final(self).camera == old(self).camera,
    {
        let m = self.materials.len();
        self.materials.push(Material::Dielectric(Dielectric::new(Scalar::from_bits(GLASS))));
        self.world.add(
            Hittable::Sphere(
                Sphere::new(
                    Vec3::from_bits(0, ONE, 0),
                    Scalar::from_bits(ONE),
                    m,
                    Vec3::from_bits(MINUS + ONE, 0, MINUS + ONE),
                    Vec3::from_bits(ONE, TWO, ONE),
                ),
            ),
        );
        let brown = Lambertian::new(
            Color::from_bits(0x3fd9_9999_9999_999a, 0x3fc9_9999_9999_999a, 0x3fb9_9999_9999_999a),
            &mut self.textures,
        );
        let m1 = self.materials.len();
        self.materials.push(Material::Lambertian(brown));
        self.world.add(
            Hittable::Sphere(
                Sphere::new(
                    Vec3::from_bits(MINUS + FOUR, ONE, 0),
                    Scalar::from_bits(ONE),
                    m1,
                    Vec3::from_bits(MINUS + FIVE, 0, MINUS + ONE),
                    Vec3::from_bits(MINUS + THREE, TWO, ONE),
                ),
            ),
        );
        let m2 = self.materials.len();
        self.materials.push(
            Material::Metal(
                Metal::new(
                    Color::from_bits(
                        0x3fe6_6666_6666_6666,
                        0x3fe3_3333_3333_3333,
                        0x3fe0_0000_0000_0000,
                    ),
                    Scalar::zero(),
                ),
            ),
        );
        self.world.add(
            Hittable::Sphere(
                Sphere::new(
                    Vec3::from_bits(FOUR, ONE, 0),
                    Scalar::from_bits(ONE),
                    m2,
                    Vec3::from_bits(THREE, 0, MINUS + ONE),
                    Vec3::from_bits(FIVE, TWO, ONE),
                ),
            ),
        );
        proof {
            assert forall|i: int| 0 <= i < self.textures@.len() implies (
            #[trigger] self.textures@[i]).refers_below(i) by {
                if i < old(self).textures@.len() {
                    assert(self.textures@[i] == old(self).textures@[i]);
                }
            }
            assert forall|i: int| 0 <= i < self.materials@.len() implies (
            #[trigger] self.materials@[i]).refers_below(self.textures@.len() as int) by {
                if i < old(self).materials@.len() {
                    assert(self.materials@[i] == old(self).materials@[i]);
                    assert(old(self).materials@[i].refers_below(old(self).textures@.len() as int));
                }
            }
            assert forall|i: int| 0 <= i < self.world.objects@.len() implies (
            #[trigger] self.world.objects@[i] matches Hittable::Sphere(s) ==> s.material
                < self.materials@.len()) by {
                if i < old(self).world.objects@.len() {
                    assert(self.world.objects@[i] == old(self).world.objects@[i]);
                }
            }
            assert(self.stock().materials =~= crowned(old(self).stock()).materials);
            assert(self.stock().objects =~= crowned(old(self).stock()).objects);
            assert(self.stock().textures =~= crowned(old(self).stock()).textures);
        }
    }
}

} // verus!
