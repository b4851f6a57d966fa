//! Spheres, at rest or moving in a straight line.
use vstd::prelude::*;
use crate::hittable::aabb::AABB;
use crate::hittable::HitRecord;
use crate::primitive::interval::Interval;
use crate::primitive::point3::Point3;
use crate::primitive::scalar::Scalar;
use crate::primitive::vec3::Vec3;

verus! {

/// A sphere whose centre is `center0` at time 0 and moves by `velocity` in
/// one unit of time.
#[derive(Clone, Copy, Debug)]
pub struct Sphere {
    pub center0: Point3,
    /// Never below zero.
    pub radius: Scalar,
    /// The material, by its place in the scene's table.
    pub material: usize,
    pub velocity: Vec3,
    /// The box around the sphere over the whole of its motion.
    pub bbox: AABB,
}

impl Sphere {
    /// A radius as a sphere keeps it: lifted to zero where it is below.
    pub open spec fn kept_radius(radius: Scalar) -> Scalar {
        radius.greater(Scalar { bits: 0 })
    }

    /// The sphere at rest with the given centre, radius and material, in the
    /// box between two corners.
    pub open spec fn at_rest(
        center: Point3,
        radius: Scalar,
        material: usize,
        corner0: Point3,
        corner1: Point3,
    ) -> Sphere {
        Sphere {
            center0: center,
            radius: Self::kept_radius(radius),
            material,
            velocity: Vec3::of_bits(0, 0, 0),
            bbox: AABB::spanning(corner0, corner1),
        }
    }

    /// The moving sphere with the given centre at time 0, radius, material
    /// and velocity, in the box around the boxes between two pairs of
    /// corners.
    pub open spec fn in_motion(
        center0: Point3,
        radius: Scalar,
        material: usize,
        velocity: Vec3,
        corner0: Point3,
        corner1: Point3,
        corner2: Point3,
        corner3: Point3,
    ) -> Sphere {
        Sphere {
            center0,
            radius: Self::kept_radius(radius),
            material,
            velocity,
            bbox: AABB::surrounding(
                AABB::spanning(corner0, corner1),
                AABB::spanning(corner2, corner3),
            ),
        }
    }

    /// The root of the intersection equation that counts as the hit: none
    /// where the discriminant is below zero; else the near root if it lies
    /// strictly inside the window; else the far root if that does.
    pub open spec fn root_within(
        discriminant: Scalar,
        near: Scalar,
        far: Scalar,
        ray_t: Interval,
    ) -> Option<Scalar> {
        if discriminant.less(Scalar { bits: 0 }) {
            None
        } else if ray_t.holds_strictly(near) {
            Some(near)
        } else if ray_t.holds_strictly(far) {
            Some(far)
        } else {
            None
        }
    }

    /// A sphere at rest. `corner0` and `corner1` are the centre moved by the
    /// radius down and up every axis.
    pub fn new(
        center: Point3,
        radius: Scalar,
        material: usize,
        corner0: Point3,
        corner1: Point3,
    ) -> (s: Sphere)
        ensures
            s == Self::at_rest(center, radius, material, corner0, corner1),
    {
        Sphere {
            center0: center,
            radius: radius.max(&Scalar::zero()),
            material,
            velocity: Vec3::zero(),
            bbox: AABB::new_from_points(corner0, corner1),
        }
    }

    /// A sphere that moves with constant velocity. `corner0` and `corner1`
    /// are the corners of the box around it at time 0, `corner2` and
    /// `corner3` those of the box around it at time 1.
    pub fn new_moving(
        center0: Point3,
        radius: Scalar,
        material: usize,
        velocity: Vec3,
        corner0: Point3,
        corner1: Point3,
        corner2: Point3,
        corner3: Point3,
    ) -> (s: Sphere)
        ensures
            s == Self::in_motion(
                center0,
                radius,
                material,
                velocity,
                corner0,
                corner1,
                corner2,
                corner3,
            ),
    {
        let box1 = AABB::new_from_points(corner0, corner1);
        let box2 = AABB::new_from_points(corner2, corner3);
        let bbox = AABB::surrounding_box(&box1, &box2);
        Sphere { center0, radius: radius.max(&Scalar::zero()), material, velocity, bbox }
    }

    pub fn bounding_box(&self) -> (b: AABB)
        ensures
            b == self.bbox,
    {
        self.bbox
    }

    /// The ray parameter at which a ray hits the sphere within the window
    /// `ray_t`, from the discriminant of the intersection equation and its
    /// two roots, the near one being (-half_b - sqrt(d)) / a and the far one
    /// (-half_b + sqrt(d)) / a.
    pub fn nearest_root(discriminant: Scalar, near: Scalar, far: Scalar, ray_t: Interval) -> (r:
        Option<Scalar>)
        ensures
            r == Self::root_within(discriminant, near, far, ray_t),
    {
        if discriminant.lt(&Scalar::zero()) {
            return None;
        }
        let mut root = near;
        if !ray_t.surrounds(root) {
            root = far;
            if !ray_t.surrounds(root) {
                return None;
            }
        }
        Some(root)
    }
}

/// A root that was found stays the answer while the window's end moves down
/// but stays above it, and the answer is none once the end has reached it.
/// So a sphere has one hit to offer to a search that only ever lowers the
/// end of its window.
pub proof fn lemma_root_survives_shrinking(
    discriminant: Scalar,
    near: Scalar,
    far: Scalar,
    ray_t: Interval,
    end: Scalar,
)
    requires
        near.at_most(far),
        end.at_most(ray_t.end),
    ensures
        ({
            let wide = Sphere::root_within(discriminant, near, far, ray_t);
            let tight = Sphere::root_within(
                discriminant,
                near,
                far,
                Interval { start: ray_t.start, end },
            );
            match wide {
                Some(t) => tight == if t.less(end) {
                    Some(t)
                } else {
                    None
                },
                None => tight is None,
            }
        }),
{
}

/// A ray from outside meets a sphere at its near root: where the
/// discriminant is not below zero and the near root lies strictly inside the
/// window, that root is the hit, it is a hit from outside if the ray runs
/// against the outward normal, and the normal of the record is the outward
/// one.
pub proof fn lemma_hit_from_outside(
    discriminant: Scalar,
    near: Scalar,
    far: Scalar,
    ray_t: Interval,
    facing: Scalar,
    outward_normal: Vec3,
)
    requires
        !discriminant.less(Scalar { bits: 0 }),
        ray_t.holds_strictly(near),
        facing.less(Scalar { bits: 0 }),
    ensures
        Sphere::root_within(discriminant, near, far, ray_t) == Some(near),
        HitRecord::from_outside(facing),
        HitRecord::against(facing, outward_normal) == outward_normal,
{
}

/// A near root that lies at or before the start of the window is passed
/// over for the far root, if that lies strictly inside.
pub proof fn lemma_near_root_behind_the_start(
    discriminant: Scalar,
    near: Scalar,
    far: Scalar,
    ray_t: Interval,
)
    requires
        !discriminant.less(Scalar { bits: 0 }),
        near.at_most(ray_t.start),
        ray_t.holds_strictly(far),
    ensures
        Sphere::root_within(discriminant, near, far, ray_t) == Some(far),
{
}

} // verus!
