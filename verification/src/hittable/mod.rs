//! What a ray can meet, and the record of a meeting.
use vstd::prelude::*;
use crate::hittable::aabb::AABB;
use crate::hittable::bvh::BVHNode;
use crate::hittable::hittable_list::HittableList;
use crate::hittable::sphere::Sphere;
use crate::primitive::point3::Point3;
use crate::primitive::scalar::Scalar;
use crate::primitive::vec3::Vec3;

pub mod aabb;
pub mod axis_sort;
pub mod bvh;
pub mod bvh_build;
pub mod hittable_list;
pub mod nearest;
pub mod sphere;

verus! {

/// Where a ray met a surface.
#[derive(Clone, Copy, Debug)]
pub struct HitRecord {
    /// The point of the meeting.
    pub p: Point3,
    /// The unit normal there, turned against the incoming ray.
    pub normal: Vec3,
    /// The surface's material, by its place in the scene's table.
    pub material: usize,
    /// The ray parameter of the meeting.
    pub t: Scalar,
    /// Texture coordinates of the point.
    pub u: Scalar,
    pub v: Scalar,
    /// Whether the ray came from outside the surface.
    pub front_face: bool,
}

impl HitRecord {
    /// Whether a ray meets a surface from outside: the product of its
    /// direction with the outward normal is below zero.
    pub open spec fn from_outside(facing: Scalar) -> bool {
        facing.less(Scalar { bits: 0 })
    }

    /// The normal turned against the ray.
    pub open spec fn against(facing: Scalar, outward_normal: Vec3) -> Vec3 {
        if Self::from_outside(facing) {
            outward_normal
        } else {
            outward_normal.negated()
        }
    }

    /// The nearer of a record and an optional other; the other where the two
    /// are equally far.
    pub open spec fn nearer(self, other: Option<HitRecord>) -> HitRecord {
        match other {
            None => self,
            Some(o) => if self.t.less(o.t) {
                self
            } else {
                o
            },
        }
    }

    /// The record of a meeting at parameter `t` in point `p`. `facing` is the
    /// dot product of the ray's direction and `outward_normal`, which must
    /// have unit length.
    pub fn new(
        p: Point3,
        facing: Scalar,
        outward_normal: Vec3,
        t: Scalar,
        u: Scalar,
        v: Scalar,
        material: usize,
    ) -> (rec: HitRecord)
        ensures
            rec.p == p,
            rec.t == t,
            rec.u == u,
            rec.v == v,
            rec.material == material,
            rec.front_face == Self::from_outside(facing),
            rec.normal == Self::against(facing, outward_normal),
    {
        let (front_face, normal) = Self::face_normal(facing, outward_normal);
        HitRecord { p, normal, material, t, u, v, front_face }
    }

    /// Which side the ray came from, and the normal turned against it.
    pub fn face_normal(facing: Scalar, outward_normal: Vec3) -> (r: (bool, Vec3))
        ensures
            r.0 == Self::from_outside(facing),
            r.1 == Self::against(facing, outward_normal),
    {
        let front_face = facing.lt(&Scalar::zero());
        let normal = if front_face {
            outward_normal
        } else {
            outward_normal.neg()
        };
        (front_face, normal)
    }

    pub fn min(self, other: Option<HitRecord>) -> (r: HitRecord)
        ensures
            r == self.nearer(other),
    {
        match other {
            None => self,
            Some(o) => {
                if self.t.lt(&o.t) {
                    self
                } else {
                    o
                }
            },
        }
    }
}

/// Anything a ray can meet.
#[derive(Debug)]
pub enum Hittable {
    Sphere(Sphere),
    List(HittableList),
    Tree(BVHNode),
}

impl Hittable {
    /// The box around the object.
    pub open spec fn bounds(self) -> AABB {
        match self {
            Hittable::Sphere(s) => s.bbox,
            Hittable::List(l) => l.bbox,
            Hittable::Tree(t) => t.bbox,
        }
    }

    pub fn bounding_box(&self) -> (b: AABB)
        ensures
            b == self.bounds(),
    {
        match self {
            Hittable::Sphere(s) => s.bounding_box(),
            Hittable::List(l) => l.bounding_box(),
            Hittable::Tree(t) => t.bounding_box(),
        }
    }
}

} // verus!
