use w2::camera::{Camera, CameraOptions, Fate, Radiance, Viewport};
use w2::hittable::HitRecord;
use w2::material::dielectric::Dielectric;
use w2::material::lambertian::Lambertian;
use w2::material::metal::Metal;
use w2::primitive::color::Color;
use w2::primitive::interval::Interval;
use w2::primitive::ray::Ray;
use w2::primitive::scalar::Scalar;
use w2::primitive::vec3::Vec3;
use w2::texture::Texture;

fn s(x: f64) -> Scalar {
    Scalar::from_bits(x.to_bits())
}

fn f(x: Scalar) -> f64 {
    f64::from_bits(x.to_bits())
}

fn v(x: f64, y: f64, z: f64) -> Vec3 {
    Vec3::new(s(x), s(y), s(z))
}

fn c(r: f64, g: f64, b: f64) -> Color {
    Color::new(s(r), s(g), s(b))
}

fn triple(v: Vec3) -> (f64, f64, f64) {
    (f(v.x), f(v.y), f(v.z))
}

fn flat_hit() -> HitRecord {
    // a floor at y = 0, met from above
    HitRecord::new(v(1.0, 0.0, 2.0), s(-1.0), v(0.0, 1.0, 0.0), s(3.0), s(0.1), s(0.2), 0)
}

fn blank_ray() -> Ray {
    Ray::new(Vec3::zero(), Vec3::zero(), s(0.0))
}

#[test]
fn lambertian_always_scatters_from_the_hit_point() {
    let m = Lambertian::from(4);
    assert_eq!(m.texture, 4);
    let r_in = Ray::new(v(0.0, 3.0, 0.0), v(1.0, -3.0, 2.0), s(0.75));
    let rec = flat_hit();
    let mut x = 0.5f64;
    for _ in 0..200 {
        x = (x * 977.0 + 0.123).fract();
        let proposed = v(x - 0.5, 1.0 + (x * 3.0).sin(), 0.3 - x);
        let mut att = Color::black();
        let mut out = blank_ray();
        let did = m.scatter(&r_in, &rec, proposed, c(0.2, 0.4, 0.6), &mut att, &mut out);
        assert!(did);
        assert_eq!(triple(out.origin()), (1.0, 0.0, 2.0));
        assert_eq!(triple(out.direction()), triple(proposed));
        assert_eq!(f(out.time()), 0.75);
        assert_eq!((f(att.r), f(att.g), f(att.b)), (0.2, 0.4, 0.6));
    }
}

#[test]
fn lambertian_falls_back_to_the_normal() {
    let m = Lambertian::from(0);
    let rec = flat_hit();
    let mut att = Color::black();
    let mut out = blank_ray();
    let did = m.scatter(&blank_ray(), &rec, v(1e-9, -1e-9, 0.0), c(1.0, 1.0, 1.0), &mut att, &mut out);
    assert!(did);
    assert_eq!(triple(out.direction()), (0.0, 1.0, 0.0));
    assert_eq!(triple(out.origin()), (1.0, 0.0, 2.0));
}

#[test]
fn lambertian_of_one_colour_makes_a_solid_texture() {
    let mut textures: Vec<Texture> = Vec::new();
    let a = Lambertian::new(c(0.4, 0.2, 0.1), &mut textures);
    let b = Lambertian::new(c(0.9, 0.9, 0.9), &mut textures);
    assert_eq!(a.texture, 0);
    assert_eq!(b.texture, 1);
    assert_eq!(textures.len(), 2);
    match &textures[0] {
        Texture::Solid(t) => assert_eq!(f(t.albedo.r), 0.4),
        _ => panic!("a solid texture was expected"),
    }
}

fn reflect(d: [f64; 3], n: [f64; 3]) -> [f64; 3] {
    let dot = d[0] * n[0] + d[1] * n[1] + d[2] * n[2];
    [d[0] - n[0] * 2.0 * dot, d[1] - n[1] * 2.0 * dot, d[2] - n[2] * 2.0 * dot]
}

fn unit(d: [f64; 3]) -> [f64; 3] {
    let len = (d[0] * d[0] + d[1] * d[1] + d[2] * d[2]).sqrt();
    [d[0] / len, d[1] / len, d[2] / len]
}

#[test]
fn metal_keeps_fuzz_at_most_one() {
    assert_eq!(f(Metal::new(c(0.7, 0.6, 0.5), s(0.3)).fuzz), 0.3);
    assert_eq!(f(Metal::new(c(0.7, 0.6, 0.5), s(1.0)).fuzz), 1.0);
    assert_eq!(f(Metal::new(c(0.7, 0.6, 0.5), s(7.0)).fuzz), 1.0);
    assert_eq!(f(Metal::new(c(0.7, 0.6, 0.5), s(0.0)).fuzz), 0.0);
}

#[test]
fn metal_without_fuzz_is_an_exact_mirror() {
    let m = Metal::new(c(0.7, 0.6, 0.5), s(0.0));
    let rec = flat_hit();
    let n = [0.0, 1.0, 0.0];
    let mut x = 0.25f64;
    for _ in 0..100 {
        x = (x * 613.0 + 0.77).fract();
        let d = [x - 0.5, -0.1 - x, 0.3 + x];
        let mirror = unit(reflect(d, n));
        let noise = unit([x, 1.0 - x, 0.5]);
        let fuzz = f(m.fuzz);
        let reflected =
            [mirror[0] + noise[0] * fuzz, mirror[1] + noise[1] * fuzz, mirror[2] + noise[2] * fuzz];
        let facing = reflected[0] * n[0] + reflected[1] * n[1] + reflected[2] * n[2];
        let r_in = Ray::new(v(0.0, 1.0, 0.0), v(d[0], d[1], d[2]), s(0.5));
        let mut att = Color::black();
        let mut out = blank_ray();
        let did = m.scatter(
            &r_in,
            &rec,
            v(reflected[0], reflected[1], reflected[2]),
            s(facing),
            &mut att,
            &mut out,
        );
        assert!(did);
        assert_eq!(triple(out.direction()), (mirror[0], mirror[1], mirror[2]));
        assert_eq!(triple(out.origin()), (1.0, 0.0, 2.0));
        assert_eq!(f(out.time()), 0.5);
        assert_eq!((f(att.r), f(att.g), f(att.b)), (0.7, 0.6, 0.5));
    }
}

#[test]
fn metal_absorbs_what_points_into_the_surface() {
    let m = Metal::new(c(0.7, 0.6, 0.5), s(1.0));
    let rec = flat_hit();
    let mut att = Color::black();
    let mut out = blank_ray();
    assert!(!m.scatter(&blank_ray(), &rec, v(0.5, -0.1, 0.0), s(-0.1), &mut att, &mut out));
    assert!(!m.scatter(&blank_ray(), &rec, v(0.5, 0.0, 0.0), s(0.0), &mut att, &mut out));
    assert!(m.scatter(&blank_ray(), &rec, v(0.5, 0.1, 0.0), s(0.1), &mut att, &mut out));
    assert!(!m.scatter(&blank_ray(), &rec, v(0.5, 0.1, 0.0), s(f64::NAN), &mut att, &mut out));
}

#[test]
fn dielectric_reflects_beyond_the_critical_angle_whatever_is_drawn() {
    for &bend in &[1.0000001, 1.2, 1.5, 40.0, f64::INFINITY] {
        for &draw in &[0.0, 0.1, 0.5, 0.999999, 1.0] {
            for &reflectance in &[0.0, 0.04, 0.5, 1.0] {
                assert!(Dielectric::reflects(s(bend), s(reflectance), s(draw)));
            }
        }
    }
}

#[test]
fn dielectric_below_the_critical_angle_goes_by_the_draw() {
    assert!(Dielectric::reflects(s(0.9), s(0.5), s(0.25)));
    assert!(!Dielectric::reflects(s(0.9), s(0.5), s(0.5)));
    assert!(!Dielectric::reflects(s(0.9), s(0.5), s(0.75)));
    assert!(!Dielectric::reflects(s(1.0), s(0.0), s(0.0)));
    let mut x = 0.4f64;
    for _ in 0..500 {
        x = (x * 331.0 + 0.19).fract();
        let bend = x * 2.0;
        let refl = (x * 17.0).fract();
        let draw = (x * 29.0).fract();
        assert_eq!(Dielectric::reflects(s(bend), s(refl), s(draw)), bend > 1.0 || refl > draw);
    }
}

#[test]
fn dielectric_ratio_and_cosine() {
    let glass = Dielectric::new(s(1.5));
    assert_eq!(f(glass.refraction_index), 1.5);
    let outside = flat_hit();
    assert!(outside.front_face);
    assert_eq!(f(glass.refraction_ratio(&outside, s(1.0 / 1.5))), 1.0 / 1.5);
    let inside = HitRecord::new(v(0.0, 0.0, 0.0), s(1.0), v(0.0, 1.0, 0.0), s(1.0), s(0.0), s(0.0), 0);
    assert_eq!(f(glass.refraction_ratio(&inside, s(1.0 / 1.5))), 1.5);
    assert_eq!(f(Dielectric::cos_theta(s(0.3))), 0.3);
    assert_eq!(f(Dielectric::cos_theta(s(1.0000000002))), 1.0);
    assert_eq!(f(Dielectric::cos_theta(s(-0.5))), -0.5);
}

#[test]
fn dielectric_sends_the_ray_on_unchanged_in_colour() {
    let glass = Dielectric::new(s(1.5));
    let rec = flat_hit();
    let r_in = Ray::new(v(0.0, 1.0, 0.0), v(0.0, -1.0, 0.0), s(0.25));
    let mut att = Color::black();
    let mut out = blank_ray();
    let mirrored = v(0.0, 1.0, 0.0);
    let refracted = v(0.0, -1.0, 0.0);
    assert!(glass.scatter(&r_in, &rec, s(0.0), s(0.04), s(0.5), mirrored, refracted, &mut att, &mut out));
    assert_eq!((f(att.r), f(att.g), f(att.b)), (1.0, 1.0, 1.0));
    assert_eq!(triple(out.direction()), (0.0, -1.0, 0.0));
    assert_eq!(triple(out.origin()), (1.0, 0.0, 2.0));
    assert_eq!(f(out.time()), 0.25);
    // the reflectance exceeds the number drawn: mirrored
    assert!(glass.scatter(&r_in, &rec, s(0.0), s(0.04), s(0.01), mirrored, refracted, &mut att, &mut out));
    assert_eq!(triple(out.direction()), (0.0, 1.0, 0.0));
}

#[test]
fn dielectric_goes_on_mirrored_beyond_the_critical_angle() {
    let glass = Dielectric::new(s(1.5));
    let rec = flat_hit();
    let n = [0.0, 1.0, 0.0];
    let mut x = 0.15f64;
    for _ in 0..200 {
        x = (x * 733.0 + 0.61).fract();
        // a ray inside the glass that meets the surface at a flat angle
        let d = unit([1.0, -(0.05 + 0.5 * x), 0.3 * x]);
        let ratio = 1.5;
        let cos_theta = (-(d[0] * n[0] + d[1] * n[1] + d[2] * n[2])).min(1.0);
        let sin_theta = (1.0 - cos_theta * cos_theta).sqrt();
        let bend = ratio * sin_theta;
        assert!(bend > 1.0);
        assert!(Dielectric::cannot_refract(s(bend)));
        let mirror = reflect(d, n);
        for &draw in &[0.0, 0.3, 0.999999] {
            let mut att = Color::black();
            let mut out = blank_ray();
            let r_in = Ray::new(v(0.0, 1.0, 0.0), v(d[0], d[1], d[2]), s(0.0));
            let did = glass.scatter(
                &r_in,
                &rec,
                s(bend),
                s(0.04),
                s(draw),
                v(mirror[0], mirror[1], mirror[2]),
                v(f64::NAN, f64::NAN, f64::NAN),
                &mut att,
                &mut out,
            );
            assert!(did);
            assert_eq!(triple(out.direction()), (mirror[0], mirror[1], mirror[2]));
            let d2 = Dielectric::direction(
                s(bend),
                s(0.04),
                s(draw),
                v(mirror[0], mirror[1], mirror[2]),
                v(9.0, 9.0, 9.0),
            );
            assert_eq!(triple(d2), (mirror[0], mirror[1], mirror[2]));
        }
    }
    assert!(!Dielectric::cannot_refract(s(1.0)));
    assert!(!Dielectric::cannot_refract(s(0.3)));
    assert!(!Dielectric::cannot_refract(s(f64::NAN)));
    let below = Dielectric::direction(s(0.5), s(0.04), s(0.5), v(1.0, 0.0, 0.0), v(0.0, 1.0, 0.0));
    assert_eq!(triple(below), (0.0, 1.0, 0.0));
}

#[test]
fn no_depth_no_light() {
    for fate in [None, Some(Fate::Missed), Some(Fate::Absorbed), Some(Fate::Scattered)] {
        assert!(matches!(Camera::ray_color(0, fate), Radiance::Black));
    }
    let black = Radiance::black();
    assert_eq!((f(black.r), f(black.g), f(black.b)), (0.0, 0.0, 0.0));
}

#[test]
fn light_along_a_ray_step_by_step() {
    match Camera::ray_color(50, None) {
        Radiance::Trace(w) => {
            assert_eq!(f(w.start), 0.001);
            assert_eq!(f(w.end), f64::INFINITY);
        }
        _ => panic!("the ray is to be traced"),
    }
    assert!(matches!(Camera::ray_color(50, Some(Fate::Missed)), Radiance::Sky));
    assert!(matches!(Camera::ray_color(50, Some(Fate::Absorbed)), Radiance::Black));
    assert!(matches!(Camera::ray_color(50, Some(Fate::Scattered)), Radiance::Scattered(49)));
    assert!(matches!(Camera::ray_color(1, Some(Fate::Scattered)), Radiance::Scattered(0)));
}

#[test]
fn picture_height_is_floored_and_at_least_one() {
    assert_eq!(Camera::image_height(s(400.0 / (16.0 / 9.0))), 225);
    assert_eq!(Camera::image_height(s(600.0 / (16.0 / 9.0))), 337);
    assert_eq!(Camera::image_height(s(100.0 / 1.0)), 100);
    assert_eq!(Camera::image_height(s(0.4)), 1);
    assert_eq!(Camera::image_height(s(0.0)), 1);
    assert_eq!(Camera::image_height(s(-8.0)), 1);
    assert_eq!(Camera::image_height(s(f64::NAN)), 1);
    assert_eq!(Camera::image_height(s(1.999)), 1);
    assert_eq!(Camera::image_height(s(2.0)), 2);
    for w in 1..500usize {
        let rows = w as f64 / (16.0 / 9.0);
        let mut want = rows as usize;
        if want < 1 {
            want = 1;
        }
        assert_eq!(Camera::image_height(s(rows)), want);
    }
}

#[test]
fn camera_takes_over_its_options() {
    let o = CameraOptions::default();
    assert_eq!(f(o.aspect_ratio), 1.0);
    assert_eq!(o.image_width, 100);
    assert_eq!(o.samples_per_pixel, 10);
    assert_eq!(o.max_depth, 10);
    assert_eq!(f(o.vfov), 90.0);
    assert_eq!(triple(o.lookat), (0.0, 0.0, -1.0));
    assert_eq!(triple(o.vup), (0.0, 1.0, 0.0));
    assert_eq!(f(o.focus_dist), 10.0);
    assert_eq!((f(o.time_range.start), f(o.time_range.end)), (0.0, 1.0));
    let vp = Viewport {
        pixel00_loc: v(1.0, 2.0, 3.0),
        pixel_delta_u: v(0.5, 0.0, 0.0),
        pixel_delta_v: v(0.0, -0.5, 0.0),
        defocus_u: v(0.1, 0.0, 0.0),
        defocus_v: v(0.0, 0.1, 0.0),
        pixel_samples_scale: s(0.1),
    };
    let cam = Camera::new(
        s(2.0),
        400,
        100,
        50,
        s(20.0),
        v(13.0, 2.0, 3.0),
        v(0.0, 0.0, 0.0),
        v(0.0, 1.0, 0.0),
        s(0.6),
        s(10.0),
        Interval::new(s(0.0), s(1.0)),
        s(200.0),
        &vp,
    );
    assert_eq!(cam.image_height, 200);
    assert_eq!(cam.image_width, 400);
    assert_eq!(cam.max_depth, 50);
    assert_eq!(triple(cam.pixel00_loc), (1.0, 2.0, 3.0));
    assert_eq!(triple(cam.defocus_v), (0.0, 0.1, 0.0));
    assert_eq!(f(cam.pixel_samples_scale), 0.1);
    assert!(!cam.is_pinhole());
    let still = Camera::new(
        s(2.0),
        400,
        100,
        50,
        s(20.0),
        v(13.0, 2.0, 3.0),
        v(0.0, 0.0, 0.0),
        v(0.0, 1.0, 0.0),
        s(0.0),
        s(10.0),
        Interval::new(s(0.0), s(1.0)),
        s(200.0),
        &vp,
    );
    assert!(still.is_pinhole());
}

#[test]
fn shutter_without_length_casts_every_ray_at_its_one_moment() {
    let vp = Viewport {
        pixel00_loc: v(0.0, 0.0, 0.0),
        pixel_delta_u: v(1.0, 0.0, 0.0),
        pixel_delta_v: v(0.0, 1.0, 0.0),
        defocus_u: v(0.0, 0.0, 0.0),
        defocus_v: v(0.0, 0.0, 0.0),
        pixel_samples_scale: s(1.0),
    };
    let with = |start: f64, end: f64| {
        Camera::new(
            s(1.0),
            10,
            1,
            5,
            s(90.0),
            v(0.0, 0.0, 0.0),
            v(0.0, 0.0, -1.0),
            v(0.0, 1.0, 0.0),
            s(0.0),
            s(1.0),
            Interval::new(s(start), s(end)),
            s(10.0),
            &vp,
        )
    };
    let open = with(0.0, 1.0);
    assert!(open.has_motion());
    assert_eq!(f(open.ray_time(s(0.375))), 0.375);
    let still = with(0.5, 0.5);
    assert!(!still.has_motion());
    assert_eq!(f(still.ray_time(s(0.375))), 0.5);
    let backwards = with(2.0, 1.0);
    assert!(!backwards.has_motion());
    assert_eq!(f(backwards.ray_time(s(1.5))), 2.0);
}
