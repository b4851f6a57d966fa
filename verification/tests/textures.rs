use image::{DynamicImage, GenericImageView, GrayImage, RgbImage};
use w2::primitive::color::Color;
use w2::primitive::scalar::Scalar;
use w2::primitive::vec3::Vec3;
use w2::texture::checker_texture::CheckerTexture;
use w2::texture::image_texture::ImageTexture;
use w2::texture::noise_texture::NoiseTexture;
use w2::texture::perlin::Perlin;
use w2::texture::solid_color::SolidColor;

fn s(x: f64) -> Scalar {
    Scalar::from_bits(x.to_bits())
}

fn f(x: Scalar) -> f64 {
    f64::from_bits(x.to_bits())
}

fn v(x: f64, y: f64, z: f64) -> Vec3 {
    Vec3::new(s(x), s(y), s(z))
}

fn gradients() -> Vec<Vec3> {
    (0..256).map(|i| v(i as f64, -(i as f64), 0.5 * i as f64)).collect()
}

#[test]
fn solid_colour_is_the_same_everywhere() {
    let t = SolidColor::new(Color::new(s(0.2), s(0.3), s(0.1)));
    for &(u, w, p) in &[(0.0, 0.0, [0.0; 3]), (0.7, 0.1, [4.0, -2.0, 9.5]), (f64::NAN, 2.0, [1e9, 0.0, 0.0])] {
        let c = t.value(s(u), s(w), &v(p[0], p[1], p[2]));
        assert_eq!((f(c.r), f(c.g), f(c.b)), (0.2, 0.3, 0.1));
    }
}

#[test]
fn checker_takes_the_even_texture_on_even_cells() {
    let t = CheckerTexture::new(s(1.0), 10, 11);
    assert_eq!(t.value(&v(0.5, 0.5, 0.5)), 10);
    assert_eq!(t.value(&v(1.5, 0.5, 0.5)), 11);
    assert_eq!(t.value(&v(1.5, 1.5, 0.5)), 10);
    assert_eq!(t.value(&v(1.5, 1.5, 1.5)), 11);
    assert_eq!(t.value(&v(-0.5, 0.5, 0.5)), 11);
    assert_eq!(t.value(&v(-0.5, -0.5, 0.5)), 10);
    assert_eq!(t.value(&v(-1.5, 0.5, 0.5)), 10);
    assert_eq!(t.value(&v(-0.0, 0.0, 0.0)), 10);
}

#[test]
fn checker_is_constant_within_a_cell_and_alternates_across_faces() {
    let t = CheckerTexture::new(s(3.125), 0, 1);
    let inv = 3.125;
    for cx in -3..4 {
        for cy in -3..4 {
            for cz in -3..4 {
                let base = [cx as f64, cy as f64, cz as f64];
                let at = |o: [f64; 3]| {
                    let p = [(base[0] + o[0]) / inv, (base[1] + o[1]) / inv, (base[2] + o[2]) / inv];
                    t.value(&v(inv * p[0], inv * p[1], inv * p[2]))
                };
                let here = at([0.25, 0.25, 0.25]);
                assert_eq!(at([0.75, 0.5, 0.125]), here);
                assert_eq!(at([0.5, 0.875, 0.625]), here);
                assert_ne!(at([1.25, 0.25, 0.25]), here);
                assert_ne!(at([0.25, 1.25, 0.25]), here);
                assert_ne!(at([0.25, 0.25, -0.75]), here);
                assert_eq!(at([1.25, 1.25, 0.25]), here);
            }
        }
    }
}

#[test]
fn checker_agrees_with_the_hardware_formula() {
    let t = CheckerTexture::new(s(3.125), 0, 1);
    let mut x = 0.3f64;
    for _ in 0..2000 {
        x = (x * 4099.0 + 0.7).fract();
        let p = [(x - 0.5) * 40.0, ((x * 13.0).fract() - 0.5) * 40.0, ((x * 29.0).fract() - 0.5) * 40.0];
        let scaled = [3.125 * p[0], 3.125 * p[1], 3.125 * p[2]];
        let xi = scaled[0].floor() as i32;
        let yi = scaled[1].floor() as i32;
        let zi = scaled[2].floor() as i32;
        let want = if (xi + yi + zi) % 2 == 0 { 0 } else { 1 };
        assert_eq!(t.value(&v(scaled[0], scaled[1], scaled[2])), want);
    }
}

#[test]
fn generated_table_is_a_permutation() {
    for _ in 0..20 {
        let p = Perlin::generate_perm();
        assert_eq!(p.len(), 256);
        let mut sorted = p.clone();
        sorted.sort();
        assert_eq!(sorted, (0..256).collect::<Vec<usize>>());
    }
    // the tables are shuffled: two in a row are not both the identity
    let a = Perlin::generate_perm();
    let b = Perlin::generate_perm();
    let id: Vec<usize> = (0..256).collect();
    assert!(a != id || b != id);
}

#[test]
fn permute_rearranges_the_front_and_leaves_the_rest() {
    let p: Vec<usize> = vec![10, 20, 30, 40, 50, 60, 70];
    let r = Perlin::permute(p.clone(), 4);
    assert_eq!(r.len(), 7);
    assert_eq!(&r[4..], &[50, 60, 70]);
    let mut front = r[..4].to_vec();
    front.sort();
    assert_eq!(front, vec![10, 20, 30, 40]);
    assert_eq!(Perlin::permute(p.clone(), 0), p);
    assert_eq!(Perlin::permute(vec![], 0), Vec::<usize>::new());
}

#[test]
fn noise_keeps_its_gradients_and_draws_three_permutations() {
    let n = Perlin::new(gradients());
    assert_eq!(n.randvec.len(), 256);
    assert_eq!(f(n.randvec[7].x), 7.0);
    for perm in [&n.perm_x, &n.perm_y, &n.perm_z] {
        let mut sorted = perm.clone();
        sorted.sort();
        assert_eq!(sorted, (0..256).collect::<Vec<usize>>());
    }
    let t = NoiseTexture::new(s(4.0), gradients());
    assert_eq!(f(t.scale), 4.0);
    assert_eq!(t.noise.randvec.len(), 256);
}

#[test]
fn corners_are_looked_up_as_written() {
    let n = Perlin::new(gradients());
    let mut x = 0.9f64;
    for round in 0..300 {
        x = (x * 2731.0 + 0.41).fract();
        let mut p = [(x - 0.5) * 900.0, ((x * 7.0).fract() - 0.5) * 900.0, ((x * 11.0).fract() - 0.5) * 2.0];
        if round == 0 {
            p = [-0.5, 255.5, 256.0];
        }
        let i = p[0].floor() as i32;
        let j = p[1].floor() as i32;
        let k = p[2].floor() as i32;
        let c = n.corners(&v(p[0], p[1], p[2]));
        for di in 0..2i32 {
            for dj in 0..2i32 {
                for dk in 0..2i32 {
                    let slot = n.perm_x[((i + di) & 255) as usize]
                        ^ n.perm_y[((j + dj) & 255) as usize]
                        ^ n.perm_z[((k + dk) & 255) as usize];
                    let got = c[di as usize][dj as usize][dk as usize];
                    assert_eq!(f(got.x), slot as f64);
                    let one = n.corner(i, j, k, di, dj, dk);
                    assert_eq!(f(one.x), slot as f64);
                }
            }
        }
    }
}

#[test]
fn corners_wrap_at_the_ends_of_the_integers() {
    let n = Perlin::new(gradients());
    let c = n.corner(i32::MAX, i32::MIN, -1, 1, 0, 1);
    let slot = n.perm_x[(i32::MAX.wrapping_add(1) & 255) as usize]
        ^ n.perm_y[(i32::MIN & 255) as usize]
        ^ n.perm_z[0];
    assert_eq!(f(c.x), slot as f64);
    // far outside the integers the cell is the last one
    let far = n.corners(&v(1e300, -1e300, f64::NAN));
    let slot = n.perm_x[(i32::MAX & 255) as usize] ^ n.perm_y[(i32::MIN & 255) as usize] ^ n.perm_z[0];
    assert_eq!(f(far[0][0][0].x), slot as f64);
}

#[test]
fn linear_levels_agree_with_the_power_formula() {
    for b in 0..=255u8 {
        let want = ((b as f64 / 255.0).powf(2.2) * 255.0) as u8;
        assert_eq!(ImageTexture::linear_level(b), want, "level {b}");
    }
    assert_eq!(ImageTexture::linear_level(0), 0);
    assert_eq!(ImageTexture::linear_level(255), 255);
    assert_eq!(ImageTexture::linear_level(128), 55);
}

fn picture(w: u32, h: u32) -> (DynamicImage, Vec<u8>) {
    let bytes: Vec<u8> = (0..(w * h * 3)).map(|i| ((i * 37 + 11) % 256) as u8).collect();
    (DynamicImage::ImageRgb8(RgbImage::from_raw(w, h, bytes.clone()).unwrap()), bytes)
}

#[test]
fn linearize_maps_every_byte_and_keeps_the_extent() {
    let (img, bytes) = picture(5, 3);
    let out = ImageTexture::linearize(&img).expect("three bytes a pixel fit");
    assert_eq!((out.width(), out.height()), (5, 3));
    let got = out.as_bytes();
    assert_eq!(got.len(), bytes.len());
    for (g, b) in got.iter().zip(bytes.iter()) {
        assert_eq!(*g, ((*b as f64 / 255.0).powf(2.2) * 255.0) as u8);
    }
    assert!(matches!(out, DynamicImage::ImageRgb8(_)));
}

#[test]
fn linearize_gives_up_on_a_buffer_that_is_too_short() {
    let gray = DynamicImage::ImageLuma8(GrayImage::from_raw(4, 2, vec![10, 20, 30, 40, 50, 60, 70, 80]).unwrap());
    assert!(ImageTexture::linearize(&gray).is_none());
    // the texture then reads the picture as it is
    let t = ImageTexture::new(gray);
    assert_eq!((t.width(), t.height()), (4, 2));
    assert_eq!(t.value(s(1.2), s(1.0)), Some((60, 60, 60)));
}

#[test]
fn image_texture_reads_the_pixel_under_the_point() {
    let (img, bytes) = picture(5, 3);
    let t = ImageTexture::new(img);
    let lin = |b: u8| ((b as f64 / 255.0).powf(2.2) * 255.0) as u8;
    for j in 0..3u32 {
        for i in 0..5u32 {
            let k = ((j * 5 + i) * 3) as usize;
            let want = (lin(bytes[k]), lin(bytes[k + 1]), lin(bytes[k + 2]));
            assert_eq!(t.value(s(i as f64 + 0.5), s(j as f64 + 0.25)), Some(want));
        }
    }
    // the far edges fall on the last column and row
    let k = ((2 * 5 + 4) * 3) as usize;
    let corner = (lin(bytes[k]), lin(bytes[k + 1]), lin(bytes[k + 2]));
    assert_eq!(t.value(s(5.0), s(3.0)), Some(corner));
    assert_eq!(t.value(s(1e12), s(f64::INFINITY)), Some(corner));
    let first = (lin(bytes[0]), lin(bytes[1]), lin(bytes[2]));
    assert_eq!(t.value(s(-1.0), s(f64::NAN)), Some(first));
}

#[test]
fn image_texture_follows_texture_coordinates_as_the_renderer_does() {
    let (img, _) = picture(7, 4);
    let reference = ImageTexture::linearize(&img).unwrap();
    let t = ImageTexture::new(img);
    let mut x = 0.2f64;
    for _ in 0..300 {
        x = (x * 1553.0 + 0.3).fract();
        let u = (x * 1.4 - 0.2) as f64;
        let w = (x * 17.0).fract() * 1.4 - 0.2;
        let uc = u.clamp(0.0, 1.0);
        let vc = 1.0 - w.clamp(0.0, 1.0);
        let i = (uc * 7.0) as u32;
        let j = (vc * 4.0) as u32;
        if i >= 7 || j >= 4 {
            continue;
        }
        let p = reference.get_pixel(i, j);
        assert_eq!(t.value(s(uc * 7.0), s(vc * 4.0)), Some((p.0[0], p.0[1], p.0[2])));
    }
}

#[test]
fn picture_without_pixels_has_no_value() {
    let empty = ImageTexture::new(DynamicImage::new_rgb8(0, 0));
    assert_eq!(empty.value(s(0.5), s(0.5)), None);
    let flat = ImageTexture::new(DynamicImage::new_rgb8(3, 0));
    assert_eq!(flat.value(s(0.5), s(0.5)), None);
    let thin = ImageTexture::new(DynamicImage::new_rgb8(0, 3));
    assert_eq!(thin.value(s(0.5), s(0.5)), None);
    let c = ImageTexture::missing();
    assert_eq!((f(c.r), f(c.g), f(c.b)), (0.0, 1.0, 1.0));
}

fn written(r: f64, g: f64, b: f64) -> (u8, u8, u8) {
    // gamma correction is the caller's: the square root of each part
    Color::new(s(r.sqrt()), s(g.sqrt()), s(b.sqrt())).to_bytes()
}

#[test]
fn full_and_no_intensity_are_written_as_255_and_0() {
    assert_eq!(written(1.0, 1.0, 1.0), (255, 255, 255));
    assert_eq!(written(0.0, 0.0, 0.0), (0, 0, 0));
    assert_eq!(written(7.5, -1.0, f64::NAN), (255, 0, 0));
}

#[test]
fn a_quarter_is_written_as_128() {
    assert_eq!(written(0.25, 0.25, 0.25), (128, 128, 128));
    assert_eq!(written(0.25, 0.25, 0.25), written(0.25, 0.25, 0.25));
}

#[test]
fn bytes_agree_with_the_hardware_formula() {
    let mut x = 0.6f64;
    for _ in 0..3000 {
        x = (x * 3571.0 + 0.13).fract();
        let c = x * 1.3 - 0.1;
        let g = c.max(0.0).sqrt();
        let want = (256.0 * g.max(0.0).min(0.999)) as u8;
        let got = Color::new(s(g), s(g), s(g)).to_bytes();
        assert_eq!(got, (want, want, want));
    }
    let black = Color::black();
    assert_eq!(black.to_bytes(), (0, 0, 0));
    let white = Color::white();
    assert_eq!(white.to_bytes(), (255, 255, 255));
}

#[test]
fn exchange_swaps_with_the_entry_drawn() {
    let mut p: Vec<usize> = vec![10, 20, 30, 40, 50];
    // 7 modulo 4 is 3
    Perlin::exchange(&mut p, 3, 7);
    assert_eq!(p, vec![10, 20, 30, 40, 50]);
    // 6 modulo 4 is 2
    Perlin::exchange(&mut p, 3, 6);
    assert_eq!(p, vec![10, 20, 40, 30, 50]);
    Perlin::exchange(&mut p, 4, 10);
    assert_eq!(p, vec![50, 20, 40, 30, 10]);
    Perlin::exchange(&mut p, 0, 99);
    assert_eq!(p, vec![50, 20, 40, 30, 10]);
}

#[test]
fn shuffle_follows_the_numbers_drawn() {
    // every number picks the first entry: the last entry goes to the front,
    // then the third, then the second
    assert_eq!(Perlin::shuffle(vec![10, 20, 30, 40], 4, &vec![0, 0, 0, 0]), vec![20, 30, 40, 10]);
    // every number picks the entry itself: nothing moves
    assert_eq!(Perlin::shuffle(vec![10, 20, 30, 40], 4, &vec![3, 2, 1, 0]), vec![10, 20, 30, 40]);
    assert_eq!(Perlin::shuffle(vec![10, 20, 30, 40], 4, &vec![7, 5, 1, 9]), vec![10, 20, 30, 40]);
    // 6 modulo 4 is 2, 4 modulo 3 is 1, 1 modulo 2 is 1
    assert_eq!(Perlin::shuffle(vec![10, 20, 30, 40], 4, &vec![6, 4, 1, 0]), vec![10, 40, 20, 30]);
    // only the first two entries are shuffled, and numbers beyond those needed are not read
    assert_eq!(Perlin::shuffle(vec![10, 20, 30, 40], 2, &vec![0, 0, 5]), vec![20, 10, 30, 40]);
    assert_eq!(Perlin::shuffle(vec![10, 20, 30], 0, &vec![]), vec![10, 20, 30]);
}

#[test]
fn shuffle_is_the_exchanges_one_after_the_other() {
    let mut x = 12345usize;
    for round in 0..50 {
        let n = 1 + round % 9;
        let table: Vec<usize> = (0..n + 2).map(|i| 100 + i).collect();
        let draws: Vec<usize> = (0..n)
            .map(|_| {
                x = x.wrapping_mul(6364136223846793005).wrapping_add(1442695040888963407);
                x >> 7
            })
            .collect();
        let mut want = table.clone();
        for (k, &drawn) in draws.iter().enumerate() {
            Perlin::exchange(&mut want, n - 1 - k, drawn);
        }
        assert_eq!(Perlin::shuffle(table, n, &draws), want);
    }
}

#[test]
fn permute_moves_entries() {
    // among twenty shuffles of a hundred entries at least one differs from the table
    let table: Vec<usize> = (0..100).collect();
    let moved = (0..20).any(|_| Perlin::permute(table.clone(), 100) != table);
    assert!(moved);
}

#[test]
fn picture_of_float_samples_put_in_directly_has_no_value() {
    let samples: Vec<f32> = vec![0.5, f32::NAN, 0.25, 1.0, 0.0, f32::NAN];
    let floats = DynamicImage::ImageRgb32F(image::Rgb32FImage::from_raw(2, 1, samples).unwrap());
    let direct = ImageTexture { image: floats.clone() };
    assert_eq!(direct.value(s(0.5), s(0.5)), None);
    assert_eq!(direct.value(s(1.5), s(0.0)), None);
    // made by `new`, the texture reads the buffer as bytes
    let made = ImageTexture::new(floats);
    assert!(matches!(made.image, DynamicImage::ImageRgb8(_)));
    assert!(made.value(s(0.5), s(0.5)).is_some());
}

#[test]
fn picture_of_sixteen_bit_samples_is_read() {
    let deep = DynamicImage::ImageRgb16(
        image::ImageBuffer::from_raw(1, 1, vec![65535u16, 0, 32768]).unwrap(),
    );
    let direct = ImageTexture { image: deep };
    assert_eq!(direct.value(s(0.0), s(0.0)), Some((255, 0, 128)));
}

#[test]
fn tables_are_tested_for_holding_each_number_once() {
    let id: Vec<usize> = (0..256).collect();
    assert!(Perlin::holds_each_once(&id));
    assert!(Perlin::holds_each_once(&Perlin::generate_perm()));
    let mut reversed = id.clone();
    reversed.reverse();
    assert!(Perlin::holds_each_once(&reversed));
    let mut twice = id.clone();
    twice[200] = 3;
    assert!(!Perlin::holds_each_once(&twice));
    let mut beyond = id.clone();
    beyond[0] = 256;
    assert!(!Perlin::holds_each_once(&beyond));
    let short: Vec<usize> = (0..255).collect();
    assert!(!Perlin::holds_each_once(&short));
    let long: Vec<usize> = (0..257).collect();
    assert!(!Perlin::holds_each_once(&long));
    assert!(!Perlin::holds_each_once(&Vec::new()));
}

#[test]
fn noise_is_tested_for_being_well_formed() {
    let good = Perlin::new(gradients());
    assert!(good.is_well_formed());
    let id: Vec<usize> = (0..256).collect();
    let few = Perlin { randvec: gradients()[..10].to_vec(), perm_x: id.clone(), perm_y: id.clone(), perm_z: id.clone() };
    assert!(!few.is_well_formed());
    let mut twice = id.clone();
    twice[5] = 6;
    let bad = Perlin { randvec: gradients(), perm_x: id.clone(), perm_y: id.clone(), perm_z: twice };
    assert!(!bad.is_well_formed());
    let ok = Perlin { randvec: gradients(), perm_x: id.clone(), perm_y: id.clone(), perm_z: id };
    assert!(ok.is_well_formed());
}
