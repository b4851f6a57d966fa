//! Three-component vectors.
use vstd::prelude::*;
use crate::primitive::scalar::Scalar;

verus! {

/// The bound under which `near_zero` takes a component for zero: 1e-8.
pub const NEAR_ZERO_BOUND: u64 = 0x3e45_798e_e230_8c3a;

#[derive(Clone, Copy, Debug)]
pub struct Vec3 {
    pub x: Scalar,
    pub y: Scalar,
    pub z: Scalar,
}

impl Vec3 {
    /// The component on axis `i`: 0 for x, 1 for y, 2 for z.
    pub open spec fn component(self, i: int) -> Scalar {
        if i == 0 {
            self.x
        } else if i == 1 {
            self.y
        } else {
            self.z
        }
    }

    /// The vector whose components have the given bit patterns.
    pub open spec fn of_bits(x: u64, y: u64, z: u64) -> Vec3 {
        Vec3 { x: Scalar { bits: x }, y: Scalar { bits: y }, z: Scalar { bits: z } }
    }

    /// The opposite vector.
    pub open spec fn negated(self) -> Vec3 {
        Vec3 { x: self.x.negated(), y: self.y.negated(), z: self.z.negated() }
    }

    /// Whether a component's absolute value is under the near-zero bound.
    pub open spec fn tiny(s: Scalar) -> bool {
        s.magnitude() < NEAR_ZERO_BOUND
    }

    /// Whether every component is under the near-zero bound in absolute value.
    pub open spec fn is_near_zero(self) -> bool {
        Self::tiny(self.x) && Self::tiny(self.y) && Self::tiny(self.z)
    }

    pub fn new(x: Scalar, y: Scalar, z: Scalar) -> (v: Vec3)
        ensures
            v.x == x,
            v.y == y,
            v.z == z,
    {
        Vec3 { x, y, z }
    }

    pub fn from_bits(x: u64, y: u64, z: u64) -> (v: Vec3)
        ensures
            v == Self::of_bits(x, y, z),
    {
        Vec3 { x: Scalar::from_bits(x), y: Scalar::from_bits(y), z: Scalar::from_bits(z) }
    }

    pub fn zero() -> (v: Vec3)
        ensures
            v == Self::of_bits(0, 0, 0),
    {
        Vec3 { x: Scalar::zero(), y: Scalar::zero(), z: Scalar::zero() }
    }

    pub fn get(&self, i: usize) -> (s: Scalar)
        requires
            i < 3,
        ensures
            s == self.component(i as int),
    {
        if i == 0 {
            self.x
        } else if i == 1 {
            self.y
        } else {
            self.z
        }
    }

    /// The opposite vector: every component with its sign flipped.
    pub fn neg(&self) -> (v: Vec3)
        ensures
            v == self.negated(),
    {
        Vec3 { x: self.x.neg(), y: self.y.neg(), z: self.z.neg() }
    }

    /// Whether the vector is too short to serve as a direction: each
    /// component is smaller than 1e-8 in absolute value.
    pub fn near_zero(&self) -> (r: bool)
        ensures
            r == self.is_near_zero(),
    {
        let eps = Scalar::from_bits(NEAR_ZERO_BOUND);
        let ax = self.x.abs();
        let ay = self.y.abs();
        let az = self.z.abs();
        assert(ax.rank() == self.x.magnitude() && ay.rank() == self.y.magnitude() && az.rank()
            == self.z.magnitude());
        assert(eps.rank() == NEAR_ZERO_BOUND && !eps.nan());
        ax.lt(&eps) && ay.lt(&eps) && az.lt(&eps)
    }
}

} // verus!
