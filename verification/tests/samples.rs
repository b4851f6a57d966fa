use image::{DynamicImage, RgbImage};
use w2::camera::CameraOptions;
use w2::hittable::Hittable;
use w2::material::Material;
use w2::primitive::color::Color;
use w2::primitive::scalar::Scalar;
use w2::primitive::vec3::Vec3;
use w2::samples::bouncing_spheres::bouncing_spheres;
use w2::samples::bouncing_spheres::keeps_clear;
use w2::samples::bouncing_spheres::small_sphere_kind;
use w2::samples::bouncing_spheres::Kind;
use w2::samples::bouncing_spheres::Spot;
use w2::samples::checkered_spheres::checkered_spheres;
use w2::samples::earth::earth;
use w2::samples::perlin_spheres::perlin_spheres;
use w2::samples::Scene;
use w2::texture::Texture;

fn s(x: f64) -> Scalar {
    Scalar::from_bits(x.to_bits())
}

fn f(x: Scalar) -> f64 {
    f64::from_bits(x.to_bits())
}

fn triple(v: Vec3) -> (f64, f64, f64) {
    (f(v.x), f(v.y), f(v.z))
}

fn sphere_of(scene: &Scene, i: usize) -> w2::hittable::sphere::Sphere {
    match &scene.world.objects[i] {
        Hittable::Sphere(sp) => *sp,
        _ => panic!("a sphere was expected"),
    }
}

fn check_usual_camera(c: &CameraOptions, from: (f64, f64, f64)) {
    assert_eq!(f(c.aspect_ratio), 16.0 / 9.0);
    assert_eq!(c.image_width, 400);
    assert_eq!(c.samples_per_pixel, 100);
    assert_eq!(c.max_depth, 50);
    assert_eq!(f(c.vfov), 20.0);
    assert_eq!(triple(c.lookfrom), from);
    assert_eq!(triple(c.lookat), (0.0, 0.0, 0.0));
    assert_eq!(triple(c.vup), (0.0, 1.0, 0.0));
    assert_eq!(f(c.defocus_angle), 0.0);
    assert_eq!(f(c.focus_dist), 10.0);
    assert_eq!((f(c.time_range.start), f(c.time_range.end)), (0.0, 1.0));
}

fn check_names(scene: &Scene) {
    for (i, t) in scene.textures.iter().enumerate() {
        if let Texture::Checker(c) = t {
            assert!(c.even < i && c.odd < i);
        }
    }
    for m in &scene.materials {
        if let Material::Lambertian(l) = m {
            assert!(l.texture < scene.textures.len());
        }
    }
    for o in &scene.world.objects {
        if let Hittable::Sphere(sp) = o {
            assert!(sp.material < scene.materials.len());
        }
    }
}

fn check_box(sp: &w2::hittable::sphere::Sphere) {
    let c = triple(sp.center0);
    let r = f(sp.radius);
    let b = sp.bounding_box();
    assert_eq!((f(b.x.start), f(b.x.end)), (c.0 - r, c.0 + r));
    assert_eq!((f(b.y.start), f(b.y.end)), (c.1 - r, c.1 + r));
    assert_eq!((f(b.z.start), f(b.z.end)), (c.2 - r, c.2 + r));
}

#[test]
fn checkered_spheres_scene() {
    let scene = checkered_spheres();
    check_names(&scene);
    check_usual_camera(&scene.camera, (13.0, 2.0, 3.0));
    assert_eq!(scene.textures.len(), 3);
    match (&scene.textures[0], &scene.textures[1], &scene.textures[2]) {
        (Texture::Solid(a), Texture::Solid(b), Texture::Checker(c)) => {
            assert_eq!((f(a.albedo.r), f(a.albedo.g), f(a.albedo.b)), (0.2, 0.3, 0.1));
            assert_eq!((f(b.albedo.r), f(b.albedo.g), f(b.albedo.b)), (0.9, 0.9, 0.9));
            assert_eq!(f(c.inv_scale), 1.0 / 0.32);
            assert_eq!((c.even, c.odd), (0, 1));
        }
        _ => panic!("two colours and a checkerboard were expected"),
    }
    assert_eq!(scene.materials.len(), 2);
    for m in &scene.materials {
        assert!(matches!(m, Material::Lambertian(l) if l.texture == 2));
    }
    assert_eq!(scene.world.objects.len(), 2);
    let lower = sphere_of(&scene, 0);
    let upper = sphere_of(&scene, 1);
    assert_eq!(triple(lower.center0), (0.0, -10.0, 0.0));
    assert_eq!(triple(upper.center0), (0.0, 10.0, 0.0));
    assert_eq!((f(lower.radius), f(upper.radius)), (10.0, 10.0));
    assert_eq!((lower.material, upper.material), (0, 1));
    check_box(&lower);
    check_box(&upper);
    let b = scene.world.bounding_box();
    assert_eq!((f(b.y.start), f(b.y.end)), (-20.0, 20.0));
    assert_eq!((f(b.x.start), f(b.x.end)), (-10.0, 10.0));
}

#[test]
fn perlin_spheres_scene() {
    let randvec: Vec<Vec3> = (0..256).map(|i| Vec3::new(s(i as f64), s(0.0), s(1.0))).collect();
    let scene = perlin_spheres(randvec);
    check_names(&scene);
    check_usual_camera(&scene.camera, (13.0, 2.0, 3.0));
    assert_eq!(scene.textures.len(), 1);
    match &scene.textures[0] {
        Texture::Noise(t) => {
            assert_eq!(f(t.scale), 4.0);
            assert_eq!(t.noise.randvec.len(), 256);
            assert_eq!(f(t.noise.randvec[200].x), 200.0);
            assert_eq!(t.noise.perm_x.len(), 256);
        }
        _ => panic!("a noise texture was expected"),
    }
    assert_eq!(scene.materials.len(), 1);
    let ground = sphere_of(&scene, 0);
    let ball = sphere_of(&scene, 1);
    assert_eq!(triple(ground.center0), (0.0, -1000.0, 0.0));
    assert_eq!(f(ground.radius), 1000.0);
    assert_eq!(triple(ball.center0), (0.0, 2.0, 0.0));
    assert_eq!(f(ball.radius), 2.0);
    assert_eq!((ground.material, ball.material), (0, 0));
    check_box(&ground);
    check_box(&ball);
}

#[test]
fn earth_scene() {
    let bytes: Vec<u8> = (0..(4 * 2 * 3)).map(|i| (i * 10) as u8).collect();
    let map = DynamicImage::ImageRgb8(RgbImage::from_raw(4, 2, bytes.clone()).unwrap());
    let scene = earth(map);
    check_names(&scene);
    check_usual_camera(&scene.camera, (0.0, 0.0, 12.0));
    assert_eq!(scene.textures.len(), 1);
    match &scene.textures[0] {
        Texture::Image(t) => {
            assert_eq!((t.width(), t.height()), (4, 2));
            let lin = |b: u8| ((b as f64 / 255.0).powf(2.2) * 255.0) as u8;
            assert_eq!(t.value(s(3.5), s(1.5)), Some((lin(bytes[21]), lin(bytes[22]), lin(bytes[23]))));
        }
        _ => panic!("an image texture was expected"),
    }
    assert!(matches!(scene.materials[0], Material::Lambertian(l) if l.texture == 0));
    assert_eq!(scene.world.objects.len(), 1);
    let globe = sphere_of(&scene, 0);
    assert_eq!(triple(globe.center0), (0.0, 0.0, 0.0));
    assert_eq!(f(globe.radius), 2.0);
    check_box(&globe);
}

fn spot(choice: f64, center: (f64, f64, f64), distance: f64) -> Spot {
    let v3 = |x: f64, y: f64, z: f64| Vec3::new(s(x), s(y), s(z));
    let up = 0.25;
    Spot {
        choice: s(choice),
        center: v3(center.0, center.1, center.2),
        distance: s(distance),
        albedo: Color::new(s(0.1), s(0.5), s(0.9)),
        fuzz: s(0.3),
        velocity: v3(0.0, up, 0.0),
        corner0: v3(center.0 - 0.2, center.1 - 0.2, center.2 - 0.2),
        corner1: v3(center.0 + 0.2, center.1 + 0.2, center.2 + 0.2),
        corner2: v3(center.0 - 0.2, center.1 + up - 0.2, center.2 - 0.2),
        corner3: v3(center.0 + 0.2, center.1 + up + 0.2, center.2 + 0.2),
    }
}

#[test]
fn small_sphere_material_follows_the_number_drawn() {
    assert!(matches!(small_sphere_kind(s(0.0)), Kind::Matte));
    assert!(matches!(small_sphere_kind(s(0.79999)), Kind::Matte));
    assert!(matches!(small_sphere_kind(s(0.8)), Kind::Metal));
    assert!(matches!(small_sphere_kind(s(0.94999)), Kind::Metal));
    assert!(matches!(small_sphere_kind(s(0.95)), Kind::Glass));
    assert!(matches!(small_sphere_kind(s(0.999)), Kind::Glass));
    assert!(matches!(small_sphere_kind(s(f64::NAN)), Kind::Glass));
    assert!(keeps_clear(s(0.91)));
    assert!(!keeps_clear(s(0.9)));
    assert!(!keeps_clear(s(0.3)));
    assert!(!keeps_clear(s(f64::NAN)));
}

#[test]
fn bouncing_spheres_scene() {
    let spots = vec![
        spot(0.1, (-3.0, 0.2, 1.0), 7.07),
        spot(0.85, (2.0, 0.2, -1.0), 2.2),
        // too near to the large sphere: left out
        spot(0.5, (4.2, 0.2, 0.1), 0.22),
        spot(0.97, (0.5, 0.2, 5.0), 6.1),
    ];
    let scene = bouncing_spheres(&spots);
    check_names(&scene);
    assert_eq!(f(scene.camera.aspect_ratio), 16.0 / 9.0);
    assert_eq!(scene.camera.image_width, 600);
    assert_eq!(scene.camera.samples_per_pixel, 50);
    assert_eq!(scene.camera.max_depth, 50);
    assert_eq!(f(scene.camera.vfov), 20.0);
    assert_eq!(triple(scene.camera.lookfrom), (13.0, 2.0, 3.0));
    assert_eq!(f(scene.camera.defocus_angle), 0.6);
    assert_eq!(f(scene.camera.focus_dist), 10.0);

    // the ground, three small spheres, three large ones
    assert_eq!(scene.world.objects.len(), 7);
    assert_eq!(scene.materials.len(), 7);
    // two colours and the board, the matte small sphere, the brown large sphere
    assert_eq!(scene.textures.len(), 5);

    let ground = sphere_of(&scene, 0);
    assert_eq!(triple(ground.center0), (0.0, -1000.0, 0.0));
    assert_eq!(f(ground.radius), 1000.0);
    check_box(&ground);
    assert!(matches!(scene.materials[0], Material::Lambertian(l) if l.texture == 2));

    let matte = sphere_of(&scene, 1);
    assert_eq!(triple(matte.center0), (-3.0, 0.2, 1.0));
    assert_eq!(f(matte.radius), 0.2);
    assert_eq!(triple(matte.velocity), (0.0, 0.25, 0.0));
    assert_eq!(matte.material, 1);
    assert!(matches!(scene.materials[1], Material::Lambertian(l) if l.texture == 3));
    match &scene.textures[3] {
        Texture::Solid(t) => assert_eq!((f(t.albedo.r), f(t.albedo.g), f(t.albedo.b)), (0.1, 0.5, 0.9)),
        _ => panic!("the colour of the matte sphere was expected"),
    }
    let b = matte.bounding_box();
    assert_eq!((f(b.y.start), f(b.y.end)), (0.2 - 0.2, 0.2 + 0.25 + 0.2));

    let metal = sphere_of(&scene, 2);
    assert_eq!(triple(metal.center0), (2.0, 0.2, -1.0));
    assert_eq!(triple(metal.velocity), (0.0, 0.0, 0.0));
    match scene.materials[2] {
        Material::Metal(m) => {
            assert_eq!(f(m.fuzz), 0.3);
            assert_eq!(f(m.albedo.g), 0.5);
        }
        _ => panic!("metal was expected"),
    }

    let glass = sphere_of(&scene, 3);
    assert_eq!(triple(glass.center0), (0.5, 0.2, 5.0));
    assert_eq!(triple(glass.velocity), (0.0, 0.0, 0.0));
    assert!(matches!(scene.materials[3], Material::Dielectric(d) if f(d.refraction_index) == 1.5));

    let big: Vec<_> = (4..7).map(|i| sphere_of(&scene, i)).collect();
    assert_eq!(triple(big[0].center0), (0.0, 1.0, 0.0));
    assert_eq!(triple(big[1].center0), (-4.0, 1.0, 0.0));
    assert_eq!(triple(big[2].center0), (4.0, 1.0, 0.0));
    for (i, sp) in big.iter().enumerate() {
        assert_eq!(f(sp.radius), 1.0);
        assert_eq!(sp.material, 4 + i);
        check_box(sp);
    }
    assert!(matches!(scene.materials[4], Material::Dielectric(d) if f(d.refraction_index) == 1.5));
    assert!(matches!(scene.materials[5], Material::Lambertian(l) if l.texture == 4));
    match &scene.textures[4] {
        Texture::Solid(t) => assert_eq!((f(t.albedo.r), f(t.albedo.g), f(t.albedo.b)), (0.4, 0.2, 0.1)),
        _ => panic!("brown was expected"),
    }
    match scene.materials[6] {
        Material::Metal(m) => {
            assert_eq!((f(m.albedo.r), f(m.albedo.g), f(m.albedo.b)), (0.7, 0.6, 0.5));
            assert_eq!(f(m.fuzz), 0.0);
        }
        _ => panic!("metal was expected"),
    }
}

#[test]
fn bouncing_spheres_without_spots_has_the_ground_and_the_large_spheres() {
    let scene = bouncing_spheres(&Vec::new());
    check_names(&scene);
    assert_eq!(scene.world.objects.len(), 4);
    assert_eq!(scene.materials.len(), 4);
    assert_eq!(scene.textures.len(), 4);
}
