//! Points in space.
use vstd::prelude::*;
use crate::primitive::vec3::Vec3;

verus! {

/// A position; it has the representation of a vector.
pub type Point3 = Vec3;

} // verus!
