//! The camera and the rules by which a ray gathers light.
use vstd::prelude::*;
use crate::primitive::color::Color;
use crate::primitive::interval::Interval;
use crate::primitive::point3::Point3;
use crate::primitive::scalar::Scalar;
use crate::primitive::vec3::Vec3;

verus! {

/// The lower end of the window in which a ray is traced: 0.001, so that a
/// scattered ray does not meet the surface it leaves.
pub const TRACE_START: u64 = 0x3f50_624d_d2f1_a9fc;

/// What a camera is set up with.
#[derive(Clone, Copy, Debug)]
pub struct CameraOptions {
    /// Width over height of the picture.
    pub aspect_ratio: Scalar,
    pub image_width: usize,
    pub samples_per_pixel: usize,
    /// How many times a ray may be scattered.
    pub max_depth: usize,
    /// The vertical field of view, in degrees.
    pub vfov: Scalar,
    pub lookfrom: Point3,
    pub lookat: Point3,
    /// The direction that is up in the picture.
    pub vup: Vec3,
    /// The angle of the cone of rays through a pixel, in degrees; with zero
    /// or less everything is in focus.
    pub defocus_angle: Scalar,
    /// The distance from the eye to the plane that is in focus.
    pub focus_dist: Scalar,
    /// The time over which the shutter is open.
    pub time_range: Interval,
}

/// What follows from the options by arithmetic: the place of the first
/// pixel, the steps from pixel to pixel, the axes of the lens, and one over
/// the number of samples.
#[derive(Clone, Copy, Debug)]
pub struct Viewport {
    pub pixel00_loc: Point3,
    pub pixel_delta_u: Vec3,
    pub pixel_delta_v: Vec3,
    pub defocus_u: Vec3,
    pub defocus_v: Vec3,
    pub pixel_samples_scale: Scalar,
}

#[derive(Clone, Copy, Debug)]
pub struct Camera {
    pub aspect_ratio: Scalar,
    pub image_width: usize,
    pub image_height: usize,
    pub samples_per_pixel: usize,
    pub pixel_samples_scale: Scalar,
    pub max_depth: usize,
    pub vfov: Scalar,
    pub lookfrom: Point3,
    pub lookat: Vec3,
    pub vup: Vec3,
    pub pixel00_loc: Point3,
    pub pixel_delta_u: Vec3,
    pub pixel_delta_v: Vec3,
    pub defocus_angle: Scalar,
    pub focus_dist: Scalar,
    pub defocus_u: Vec3,
    pub defocus_v: Vec3,
    pub time_range: Interval,
}

/// What became of a ray that was traced into the scene.
#[derive(Clone, Copy, Debug)]
pub enum Fate {
    /// It met nothing.
    Missed,
    /// It met a surface that swallowed it.
    Absorbed,
    /// It met a surface that sent it on.
    Scattered,
}

/// What the light along a ray is, or what is to be done to find out.
#[derive(Clone, Copy, Debug)]
pub enum Radiance {
    /// No light.
    Black,
    /// The light of the sky in the ray's direction.
    Sky,
    /// The ray is to be traced within the window.
    Trace(Interval),
    /// The light along the scattered ray, found with the given depth and
    /// multiplied by the attenuation.
    Scattered(usize),
}

impl CameraOptions {
    pub open spec fn default_spec() -> CameraOptions {
        CameraOptions {
            aspect_ratio: Scalar { bits: 0x3ff0_0000_0000_0000 },
            image_width: 100,
            samples_per_pixel: 10,
            max_depth: 10,
            vfov: Scalar { bits: 0x4056_8000_0000_0000 },
            lookfrom: Vec3 { x: Scalar { bits: 0 }, y: Scalar { bits: 0 }, z: Scalar { bits: 0 } },
            lookat: Vec3 {
                x: Scalar { bits: 0 },
                y: Scalar { bits: 0 },
                z: Scalar { bits: 0xbff0_0000_0000_0000 },
            },
            vup: Vec3 {
                x: Scalar { bits: 0 },
                y: Scalar { bits: 0x3ff0_0000_0000_0000 },
                z: Scalar { bits: 0 },
            },
            defocus_angle: Scalar { bits: 0 },
            focus_dist: Scalar { bits: 0x4024_0000_0000_0000 },
            time_range: Interval {
                start: Scalar { bits: 0 },
                end: Scalar { bits: 0x3ff0_0000_0000_0000 },
            },
        }
    }
}

impl Default for CameraOptions {
    /// A square picture 100 pixels wide, 10 samples a pixel and 10 bounces,
    /// seen from the origin down the negative z axis through 90 degrees, all
    /// in focus at distance 10, with the shutter open from 0 to 1.
    fn default() -> (o: CameraOptions)
        ensures
            o == CameraOptions::default_spec(),
    {
        CameraOptions {
            aspect_ratio: Scalar::one(),
            image_width: 100,
            samples_per_pixel: 10,
            max_depth: 10,
            vfov: Scalar::from_bits(0x4056_8000_0000_0000),
            lookfrom: Vec3::zero(),
            lookat: Vec3::new(
                Scalar::zero(),
                Scalar::zero(),
                Scalar::from_bits(0xbff0_0000_0000_0000),
            ),
            vup: Vec3::new(Scalar::zero(), Scalar::one(), Scalar::zero()),
            defocus_angle: Scalar::zero(),
            focus_dist: Scalar::from_bits(0x4024_0000_0000_0000),
            time_range: Interval::new(Scalar::zero(), Scalar::one()),
        }
    }
}

impl Camera {
    /// The height of a picture in pixels: the width over the aspect ratio
    /// with its fraction dropped, and at least one.
    pub open spec fn height_for(rows: Scalar) -> int {
        if rows.as_natural(0, usize::MAX as int) < 1 {
            1
        } else {
            rows.as_natural(0, usize::MAX as int)
        }
    }

    /// Whether rays start at the eye itself rather than on a lens.
    pub open spec fn pinhole(self) -> bool {
        self.defocus_angle.at_most(Scalar { bits: 0 })
    }

    /// Whether the shutter is open for a stretch of time, so that rays are
    /// cast at different moments.
    pub open spec fn shutter_moves(self) -> bool {
        self.time_range.start.less(self.time_range.end)
    }

    /// The moment at which a ray is cast: the one drawn from the time that
    /// the shutter is open, or the one moment at which it is.
    pub open spec fn moment(self, drawn: Scalar) -> Scalar {
        if self.shutter_moves() {
            drawn
        } else {
            self.time_range.start
        }
    }

    /// The window in which rays are traced: from 0.001 to infinity.
    pub open spec fn trace_window() -> Interval {
        Interval {
            start: Scalar { bits: TRACE_START },
            end: Scalar { bits: 0x7ff0_0000_0000_0000 },
        }
    }

    /// The light along a ray that may be scattered `max_depth` times more.
    /// Before the ray is traced `fate` is none. A ray that may not be
    /// scattered at all carries no light, whatever it would meet.
    pub open spec fn light(max_depth: usize, fate: Option<Fate>) -> Radiance {
        if max_depth == 0 {
            Radiance::Black
        } else {
            match fate {
                None => Radiance::Trace(Self::trace_window()),
                Some(Fate::Missed) => Radiance::Sky,
                Some(Fate::Absorbed) => Radiance::Black,
                Some(Fate::Scattered) => Radiance::Scattered((max_depth - 1) as usize),
            }
        }
    }

    /// The height of the picture. `rows` is the width of the picture over
    /// its aspect ratio.
    pub fn image_height(rows: Scalar) -> (h: usize)
        ensures
            h == Self::height_for(rows),
            h >= 1,
    {
        let image_height = rows.to_usize();
        if image_height < 1 {
            1
        } else {
            image_height
        }
    }

    /// A camera from its options, the quotient `rows` of the picture's width
    /// and its aspect ratio, and the viewport that was worked out for the
    /// height that `image_height` gives.
    pub fn new(
        aspect_ratio: Scalar,
        image_width: usize,
        samples_per_pixel: usize,
        max_depth: usize,
        vfov: Scalar,
        lookfrom: Vec3,
        lookat: Vec3,
        vup: Vec3,
        defocus_angle: Scalar,
        focus_dist: Scalar,
        time_range: Interval,
        rows: Scalar,
        viewport: &Viewport,
    ) -> (c: Camera)
        ensures
            c.image_height == Self::height_for(rows),
            c.aspect_ratio == aspect_ratio,
            c.image_width == image_width,
            c.samples_per_pixel == samples_per_pixel,
            c.max_depth == max_depth,
            c.vfov == vfov,
            c.lookfrom == lookfrom,
            c.lookat == lookat,
            c.vup == vup,
            c.defocus_angle == defocus_angle,
            c.focus_dist == focus_dist,
            c.time_range == time_range,
            c.pixel00_loc == viewport.pixel00_loc,
            c.pixel_delta_u == viewport.pixel_delta_u,
            c.pixel_delta_v == viewport.pixel_delta_v,
            c.defocus_u == viewport.defocus_u,
            c.defocus_v == viewport.defocus_v,
            c.pixel_samples_scale == viewport.pixel_samples_scale,
    {
        Camera {
            aspect_ratio,
            image_width,
            image_height: Self::image_height(rows),
            samples_per_pixel,
            pixel_samples_scale: viewport.pixel_samples_scale,
            max_depth,
            vfov,
            lookfrom,
            lookat,
            vup,
            pixel00_loc: viewport.pixel00_loc,
            pixel_delta_u: viewport.pixel_delta_u,
            pixel_delta_v: viewport.pixel_delta_v,
            defocus_angle,
            focus_dist,
            defocus_u: viewport.defocus_u,
            defocus_v: viewport.defocus_v,
            time_range,
        }
    }

    /// Whether the camera has no lens, so that every ray starts at the eye.
    pub fn is_pinhole(&self) -> (r: bool)
        ensures
            r == self.pinhole(),
    {
        self.defocus_angle.le(&Scalar::zero())
    }

    /// Whether the time over which the shutter is open has a length. Where
    /// it has none, nothing is drawn and nothing is blurred by motion.
    pub fn has_motion(&self) -> (r: bool)
        ensures
            r == self.shutter_moves(),
    {
        self.time_range.start.lt(&self.time_range.end)
    }

    /// The moment at which a ray is cast. `drawn` is a moment drawn from
    /// the time that the shutter is open; it counts only if that time has a
    /// length.
    pub fn ray_time(&self, drawn: Scalar) -> (t: Scalar)
        ensures
            t == self.moment(drawn),
    {
        if self.has_motion() {
            drawn
        } else {
            self.time_range.start
        }
    }

    /// One step in finding the light along a ray. Called with no fate, it
    /// says whether the ray is to be traced at all; called with the fate of
    /// the traced ray, it says what the light is.
    pub fn ray_color(max_depth: usize, fate: Option<Fate>) -> (r: Radiance)
        ensures
            r == Self::light(max_depth, fate),
            max_depth == 0 ==> r == Radiance::Black,
    {
        if max_depth == 0 {
            return Radiance::Black;
        }
        match fate {
            None => Radiance::Trace(
                Interval { start: Scalar::from_bits(TRACE_START), end: Scalar::infinity() },
            ),
            Some(Fate::Missed) => Radiance::Sky,
            Some(Fate::Absorbed) => Radiance::Black,
            Some(Fate::Scattered) => Radiance::Scattered(max_depth - 1),
        }
    }
}

impl Radiance {
    /// The colour of no light.
    pub fn black() -> (c: Color)
        ensures
            c.is_black(),
    {
        Color::black()
    }
}

} // verus!
