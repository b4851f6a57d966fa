//! A texture read from a picture.
use vstd::prelude::*;
use crate::primitive::color::Color;
use crate::primitive::scalar::Scalar;

verus! {

#[verifier::external_type_specification]
#[verifier::external_body]
pub struct ExDynamicImage(image::DynamicImage);

/// The width and the height of a picture, in pixels.
pub uninterp spec fn image_extent(img: image::DynamicImage) -> (u32, u32);

/// The pixels of a picture as red, green and blue, row after row from the
/// top, each row from the left.
pub uninterp spec fn image_texels(img: image::DynamicImage) -> Seq<(u8, u8, u8)>;

/// The bytes of a picture's buffer, in the layout of its own pixel format.
pub uninterp spec fn image_bytes(img: image::DynamicImage) -> Seq<u8>;

/// Whether the samples of a picture are floating-point numbers: whether it
/// is of one of the two kinds of `DynamicImage` with 32-bit float samples.
pub uninterp spec fn image_is_float(img: image::DynamicImage) -> bool;

/// Tells the kinds of `DynamicImage` apart: whether the picture is
/// `ImageRgb32F` or `ImageRgba32F`.
#[verifier::external_body]
fn holds_floats(img: &image::DynamicImage) -> (r: bool)
    ensures
        r == image_is_float(*img),
{
    match img {
        image::DynamicImage::ImageRgb32F(_) => true,
        image::DynamicImage::ImageRgba32F(_) => true,
        _ => false,
    }
}

/// `DynamicImage::width`: the width of the picture.
#[verifier::external_body]
fn width_of(img: &image::DynamicImage) -> (w: u32)
    ensures
        w == image_extent(*img).0,
{
    img.width()
}

/// `DynamicImage::height`: the height of the picture.
#[verifier::external_body]
fn height_of(img: &image::DynamicImage) -> (h: u32)
    ensures
        h == image_extent(*img).1,
{
    img.height()
}

/// `GenericImageView::get_pixel` on a `DynamicImage`, without the alpha
/// channel: the pixel in column `x` of row `y`. It panics outside the
/// picture, so the caller stays inside. On a picture of float samples it
/// turns each sample into a byte and panics on one that is no number, so
/// such pictures are left out.
#[verifier::external_body]
fn texel_at(img: &image::DynamicImage, x: u32, y: u32) -> (t: (u8, u8, u8))
    requires
        !image_is_float(*img),
        x < image_extent(*img).0,
        y < image_extent(*img).1,
    ensures
        t == image_texels(*img)[y * image_extent(*img).0 + x],
{
    let pixel = image::GenericImageView::get_pixel(img, x, y);
    (pixel.0[0], pixel.0[1], pixel.0[2])
}

/// `DynamicImage::as_bytes`: a copy of the picture's buffer.
#[verifier::external_body]
fn bytes_of(img: &image::DynamicImage) -> (b: Vec<u8>)
    ensures
        b@ == image_bytes(*img),
{
    img.as_bytes().to_vec()
}

/// Whether a buffer of `len` bytes holds a picture of the given extent at
/// three bytes a pixel, and the bytes of one row can be counted.
pub open spec fn holds_rgb8(width: u32, height: u32, len: nat) -> bool {
    3 * width <= usize::MAX && 3 * width * height <= len
}

/// Whether a picture is the given buffer read as rows of pixels of three
/// bytes: red, green, blue.
pub open spec fn reads_as_rgb8(img: image::DynamicImage, width: u32, height: u32, bytes: Seq<u8>) -> bool {
    &&& !image_is_float(img)
    &&& image_extent(img) == (width, height)
    &&& image_bytes(img) == bytes
    &&& image_texels(img).len() == width * height
    &&& forall|k: int|
        0 <= k < width * height ==> #[trigger] image_texels(img)[k] == (
            bytes[3 * k],
            bytes[3 * k + 1],
            bytes[3 * k + 2],
        )
}

/// `ImageBuffer::from_raw` for three bytes a pixel, made a `DynamicImage`
/// of the kind `ImageRgb8`, which has no float samples:
/// a picture over the given buffer, if the buffer holds at least three
/// bytes for each pixel and that number can be counted. Pixel number `k`,
/// counted row by row, is made of the bytes 3k, 3k + 1 and 3k + 2.
#[verifier::external_body]
fn rgb8_from_raw(width: u32, height: u32, bytes: Vec<u8>) -> (r: Option<image::DynamicImage>)
    ensures
        r is Some <==> holds_rgb8(width, height, bytes@.len()),
        r matches Some(img) ==> reads_as_rgb8(img, width, height, bytes@),
{
    image::ImageBuffer::from_raw(width, height, bytes).map(image::DynamicImage::ImageRgb8)
}

/// 255 to the sixth power.
pub const FULL_SIXTH: u128 = 274941996890625;

#[derive(Debug)]
pub struct ImageTexture {
    pub image: image::DynamicImage,
}

impl ImageTexture {
    pub open spec fn fifth(t: int) -> int {
        t * t * t * t * t
    }

    pub open spec fn eleventh(b: int) -> int {
        (b * b) * (b * b) * ((b * b) * (b * b)) * ((b * b) * b)
    }

    /// Whether `t` is the level that the level `b` of a stored picture
    /// stands for in linear light: 255 times the power 2.2 of b / 255, with
    /// the fraction dropped. In whole numbers: t / 255 to the fifth is at
    /// most b / 255 to the eleventh, and (t + 1) / 255 to the fifth is above.
    pub open spec fn linearised(b: int, t: int) -> bool {
        &&& 0 <= t <= 255
        &&& Self::fifth(t) * FULL_SIXTH <= Self::eleventh(b)
        &&& Self::eleventh(b) < Self::fifth(t + 1) * FULL_SIXTH
    }

    /// Whether the picture of the texture can be read pixel by pixel: it has
    /// pixels, and they are not made of float samples. A texture made by
    /// `new` from a picture that can be made linear can always be read where
    /// it has pixels.
    pub open spec fn readable(self) -> bool {
        image_extent(self.image).0 != 0 && image_extent(self.image).1 != 0 && !image_is_float(
            self.image,
        )
    }

    /// Whether a picture can be made linear: its buffer is long enough to be
    /// read as three bytes a pixel.
    pub open spec fn can_linearise(image: image::DynamicImage) -> bool {
        holds_rgb8(image_extent(image).0, image_extent(image).1, image_bytes(image).len())
    }

    /// Whether `out` is `image` made linear: the same extent, and every byte
    /// of the buffer replaced by the level it stands for.
    pub open spec fn is_linear_form(image: image::DynamicImage, out: image::DynamicImage) -> bool {
        &&& !image_is_float(out)
        &&& image_extent(out) == image_extent(image)
        &&& image_bytes(out).len() == image_bytes(image).len()
        &&& forall|k: int|
            0 <= k < image_bytes(image).len() ==> Self::linearised(
                image_bytes(image)[k] as int,
                #[trigger] image_bytes(out)[k] as int,
            )
        &&& image_texels(out).len() == image_extent(image).0 * image_extent(image).1
        &&& forall|k: int|
            0 <= k < image_texels(out).len() ==> #[trigger] image_texels(out)[k] == (
                image_bytes(out)[3 * k],
                image_bytes(out)[3 * k + 1],
                image_bytes(out)[3 * k + 2],
            )
    }

    /// The pixel that a column and a row given as numbers fall on: their
    /// whole parts, held inside the picture.
    pub open spec fn texel_index(self, column: Scalar, row: Scalar) -> int {
        let (w, h) = image_extent(self.image);
        let i = column.as_natural(0, u32::MAX as int);
        let j = row.as_natural(0, u32::MAX as int);
        (if j < h {
            j
        } else {
            h - 1
        }) * w + (if i < w {
            i
        } else {
            w - 1
        })
    }

    fn fifth_power(t: u128) -> (r: u128)
        requires
            t <= 256,
        ensures
            r == Self::fifth(t as int),
            r <= 0x100_0000_0000,
    {
        assert(t * t <= 0x1_0000) by (nonlinear_arith)
            requires
                t <= 256,
        ;
        let t2: u128 = t * t;
        assert(t2 * t2 <= 0x1_0000_0000) by (nonlinear_arith)
            requires
                t2 <= 0x1_0000,
        ;
        let t4: u128 = t2 * t2;
        assert(t4 * t <= 0x100_0000_0000) by (nonlinear_arith)
            requires
                t4 <= 0x1_0000_0000,
                t <= 256,
        ;
        assert(t4 * t == t * t * t * t * t) by (nonlinear_arith)
            requires
                t4 == (t * t) * (t * t),
        ;
        t4 * t
    }

    fn eleventh_power(b: u128) -> (r: u128)
        requires
            b <= 255,
        ensures
            r == Self::eleventh(b as int),
            r <= 296443535898840969287109375,
    {
        assert(b * b <= 65025) by (nonlinear_arith)
            requires
                b <= 255,
        ;
        let b2: u128 = b * b;
        assert(b2 * b2 <= 4228250625) by (nonlinear_arith)
            requires
                b2 <= 65025,
        ;
        let b4: u128 = b2 * b2;
        assert(b4 * b4 <= 17878103347812890625) by (nonlinear_arith)
            requires
                b4 <= 4228250625,
        ;
        let b8: u128 = b4 * b4;
        assert(b2 * b <= 16581375) by (nonlinear_arith)
            requires
                b2 <= 65025,
                b <= 255,
        ;
        let b3: u128 = b2 * b;
        assert(b8 * b3 <= 296443535898840969287109375) by (nonlinear_arith)
            requires
                b8 <= 17878103347812890625,
                b3 <= 16581375,
        ;
        b8 * b3
    }

    /// The level in linear light for a level of a stored picture.
    pub fn linear_level(b: u8) -> (t: u8)
        ensures
            Self::linearised(b as int, t as int),
    {
        let target: u128 = Self::eleventh_power(b as u128);
        let mut t: u8 = 0;
        assert(Self::fifth(0) == 0);
        while t < 255 && Self::scaled_fifth(t as u128 + 1) <= target
            invariant
                target == Self::eleventh(b as int),
                Self::fifth(t as int) * FULL_SIXTH <= target,
            decreases 255 - t,
        {
            t = t + 1;
        }
        proof {
            if t == 255 {
                assert(target <= 296443535898840969287109375);
                assert(Self::fifth(256) == 1099511627776);
                assert(Self::fifth(256) * FULL_SIXTH == 302301922545195024384000000);
            }
        }
        t
    }

    /// The fifth power of a level, times 255 to the sixth.
    fn scaled_fifth(t: u128) -> (r: u128)
        requires
            t <= 256,
        ensures
            r == Self::fifth(t as int) * FULL_SIXTH,
    {
        let f: u128 = Self::fifth_power(t);
        assert(f * FULL_SIXTH <= 0x100_0000_0000 * 274941996890625) by (nonlinear_arith)
            requires
                f <= 0x100_0000_0000,
                FULL_SIXTH == 274941996890625,
        ;
        f * FULL_SIXTH
    }

    /// A texture over a picture: over its linear form where it has one, and
    /// over the picture as it is where it has none.
    pub fn new(image: image::DynamicImage) -> (t: ImageTexture)
        ensures
            Self::can_linearise(image) ==> Self::is_linear_form(image, t.image),
            !Self::can_linearise(image) ==> t.image == image,
    {
        match Self::linearize(&image) {
            Some(linear) => ImageTexture { image: linear },
            None => ImageTexture { image },
        }
    }

    /// The picture with every byte of its buffer taken from the levels of a
    /// stored picture to those of linear light, read as three bytes a pixel;
    /// none if the buffer is too short for that.
    pub fn linearize(image: &image::DynamicImage) -> (r: Option<image::DynamicImage>)
        ensures
            r is Some <==> Self::can_linearise(*image),
            r matches Some(out) ==> Self::is_linear_form(*image, out),
    {
        let mut levels: Vec<u8> = Vec::new();
        let mut b: usize = 0;
        while b < 256
            invariant
                b <= 256,
                levels@.len() == b,
                forall|k: int| 0 <= k < b ==> Self::linearised(k, #[trigger] levels@[k] as int),
            decreases 256 - b,
        {
            levels.push(Self::linear_level(b as u8));
            b = b + 1;
        }
        let source = bytes_of(image);
        let mut img_bytes: Vec<u8> = Vec::new();
        let mut k: usize = 0;
        while k < source.len()
            invariant
                k <= source@.len(),
                img_bytes@.len() == k,
                levels@.len() == 256,
                forall|b: int| 0 <= b < 256 ==> Self::linearised(b, #[trigger] levels@[b] as int),
                forall|n: int|
                    0 <= n < k ==> Self::linearised(source@[n] as int, #[trigger] img_bytes@[n] as int),
            decreases source@.len() - k,
        {
            img_bytes.push(levels[source[k] as usize]);
            k = k + 1;
        }
        rgb8_from_raw(width_of(image), height_of(image), img_bytes)
    }

    /// The colour that stands for a picture without pixels: cyan.
    pub fn missing() -> (c: Color)
        ensures
            c.r.bits == 0,
            c.g.bits == 0x3ff0_0000_0000_0000,
            c.b.bits == 0x3ff0_0000_0000_0000,
    {
        Color::new(Scalar::zero(), Scalar::one(), Scalar::one())
    }

    /// The pixel under a point of the texture, as red, green and blue
    /// levels; none where the picture has no pixels, or has float samples
    /// in place of levels. `column` is the first texture coordinate, held
    /// between 0 and 1, times the width of the picture; `row` is one minus
    /// the second, held likewise, times the height. The last column and row
    /// stand in for what lies beyond them.
    pub fn value(&self, column: Scalar, row: Scalar) -> (t: Option<(u8, u8, u8)>)
        ensures
            t is Some <==> self.readable(),
            t matches Some(rgb) ==> rgb == image_texels(self.image)[self.texel_index(column, row)],
    {
        let width = width_of(&self.image);
        let height = height_of(&self.image);
        if height == 0 || width == 0 {
            return None;
        }
        if holds_floats(&self.image) {
            return None;
        }
        let mut i: u32 = column.to_u32();
        let mut j: u32 = row.to_u32();
        if i >= width {
            i = width - 1;
        }
        if j >= height {
            j = height - 1;
        }
        Some(texel_at(&self.image, i, j))
    }

    pub fn width(&self) -> (w: u32)
        ensures
            w == image_extent(self.image).0,
    {
        width_of(&self.image)
    }

    pub fn height(&self) -> (h: u32)
        ensures
            h == image_extent(self.image).1,
    {
        height_of(&self.image)
    }
}

} // verus!
