//! Axis-aligned bounding boxes.
use vstd::prelude::*;
use crate::primitive::interval::Interval;
use crate::primitive::point3::Point3;
use crate::primitive::scalar::Scalar;
use crate::primitive::vec3::Vec3;

verus! {

/// A box with its faces parallel to the coordinate planes: one range per axis.
#[derive(Clone, Copy, Debug)]
pub struct AABB {
    pub x: Interval,
    pub y: Interval,
    pub z: Interval,
}

impl AABB {
    /// The range on axis `n`: 0 for x, 1 for y, 2 for z.
    pub open spec fn axis(self, n: int) -> Interval {
        if n == 0 {
            self.x
        } else if n == 1 {
            self.y
        } else {
            self.z
        }
    }

    /// The box between two opposite corners, given in any order.
    pub open spec fn spanning(corner0: Point3, corner1: Point3) -> AABB {
        AABB {
            x: Interval { start: corner0.x, end: corner1.x }.reordered(),
            y: Interval { start: corner0.y, end: corner1.y }.reordered(),
            z: Interval { start: corner0.z, end: corner1.z }.reordered(),
        }
    }

    /// The smallest box around two boxes.
    pub open spec fn surrounding(box0: AABB, box1: AABB) -> AABB {
        AABB { x: box0.x.merged(box1.x), y: box0.y.merged(box1.y), z: box0.z.merged(box1.z) }
    }

    /// The box that holds nothing.
    pub open spec fn empty_spec() -> AABB {
        AABB { x: Interval::empty_spec(), y: Interval::empty_spec(), z: Interval::empty_spec() }
    }

    /// Whether the three ranges are equal by value to those of `other`.
    pub open spec fn same(self, other: AABB) -> bool {
        self.x.same(other.x) && self.y.same(other.y) && self.z.same(other.z)
    }

    /// Whether no axis of a box of the given extents is strictly longer than
    /// axis `n`.
    pub open spec fn greatest(extent: Vec3, n: int) -> bool {
        forall|m: int| 0 <= m < 3 ==> !extent.component(n).less(#[trigger] extent.component(m))
    }

    /// The axis on which a box of the given extents is longest: the first of
    /// x, y and z than which none is strictly longer. Among axes of equal
    /// extent x goes before y, and y before z.
    pub open spec fn longest(extent: Vec3) -> int {
        if Self::greatest(extent, 0) {
            0
        } else if Self::greatest(extent, 1) {
            1
        } else {
            2
        }
    }

    /// What is left of the window `ray_t` after one axis: the window cut down
    /// to the stretch between the two crossings of that axis.
    pub open spec fn cut(ray_t: Interval, crossing: Interval) -> Interval {
        ray_t.narrowed(crossing.reordered())
    }

    /// Whether a window has closed: its start has reached its end.
    pub open spec fn closed(ray_t: Interval) -> bool {
        ray_t.end.at_most(ray_t.start)
    }

    /// The slab test on a box given in ray parameters: the window is cut down
    /// axis by axis, x first, and the ray misses as soon as it has closed.
    pub open spec fn crossed(self, ray_t: Interval) -> bool {
        let after_x = Self::cut(ray_t, self.x);
        let after_y = Self::cut(after_x, self.y);
        let after_z = Self::cut(after_y, self.z);
        !Self::closed(after_x) && !Self::closed(after_y) && !Self::closed(after_z)
    }

    pub fn new(x: Interval, y: Interval, z: Interval) -> (b: AABB)
        ensures
            b.x == x,
            b.y == y,
            b.z == z,
    {
        AABB { x, y, z }
    }

    /// The box that holds nothing. Surrounding it and a box gives that box.
    pub fn empty() -> (b: AABB)
        ensures
            b == Self::empty_spec(),
    {
        AABB { x: Interval::empty(), y: Interval::empty(), z: Interval::empty() }
    }

    pub fn new_from_points(corner0: Point3, corner1: Point3) -> (b: AABB)
        ensures
            b == Self::spanning(corner0, corner1),
    {
        let x = Interval::new(corner0.x, corner1.x).reorder();
        let y = Interval::new(corner0.y, corner1.y).reorder();
        let z = Interval::new(corner0.z, corner1.z).reorder();
        AABB { x, y, z }
    }

    pub fn surrounding_box(box0: &AABB, box1: &AABB) -> (b: AABB)
        ensures
            b == Self::surrounding(*box0, *box1),
    {
        let x = box0.x.merge(&box1.x);
        let y = box0.y.merge(&box1.y);
        let z = box0.z.merge(&box1.z);
        AABB { x, y, z }
    }

    pub fn axis_interval(&self, n: usize) -> (i: Interval)
        requires
            n < 3,
        ensures
            i == self.axis(n as int),
    {
        if n == 0 {
            self.x
        } else if n == 1 {
            self.y
        } else {
            self.z
        }
    }

    /// The corner with the least coordinate on every axis.
    pub fn min_corner(&self) -> (p: Point3)
        ensures
            p.x == self.x.start,
            p.y == self.y.start,
            p.z == self.z.start,
    {
        Vec3 { x: self.x.start, y: self.y.start, z: self.z.start }
    }

    /// The corner with the greatest coordinate on every axis.
    pub fn max_corner(&self) -> (p: Point3)
        ensures
            p.x == self.x.end,
            p.y == self.y.end,
            p.z == self.z.end,
    {
        Vec3 { x: self.x.end, y: self.y.end, z: self.z.end }
    }

    /// The longest axis of a box, from its extent on each axis (end minus
    /// start, which the caller subtracts). Where two axes are equally long
    /// and none is longer, the first of them is taken.
    pub fn longest_axis(extent: &Vec3) -> (n: usize)
        ensures
            n < 3,
            n == Self::longest(*extent),
    {
        proof {
            assert(extent.component(0) == extent.x);
            assert(extent.component(1) == extent.y);
            assert(extent.component(2) == extent.z);
        }
        if !extent.x.lt(&extent.y) && !extent.x.lt(&extent.z) {
            0
        } else if !extent.y.lt(&extent.x) && !extent.y.lt(&extent.z) {
            1
        } else {
            2
        }
    }

    /// The slab test. `self` is the box as the ray sees it: on each axis the
    /// two ray parameters at which the ray crosses the planes that bound the
    /// box, (bound - origin) / direction, in either order. The ray meets the
    /// box within `ray_t` when the window stays open through all three axes.
    pub fn hit(&self, ray_t: Interval) -> (r: bool)
        ensures
            r == self.crossed(ray_t),
    {
        let mut window = ray_t;
        let mut i: usize = 0;
        while i < 3
            invariant
                i <= 3,
                i == 0 ==> window == ray_t,
                i == 1 ==> window == Self::cut(ray_t, self.x) && !Self::closed(window),
                i == 2 ==> window == Self::cut(Self::cut(ray_t, self.x), self.y) && !Self::closed(
                    Self::cut(ray_t, self.x),
                ) && !Self::closed(window),
                i == 3 ==> self.crossed(ray_t),
            decreases 3 - i,
        {
            let crossing = self.axis_interval(i).reorder();
            window =
            Interval {
                start: window.start.max(&crossing.start),
                end: window.end.min(&crossing.end),
            };
            if window.start.ge(&window.end) {
                return false;
            }
            i = i + 1;
        }
        true
    }

    /// Whether the two boxes have equal ranges.
    pub fn equals(&self, other: &AABB) -> (r: bool)
        ensures
            r == self.same(*other),
    {
        self.x.equals(&other.x) && self.y.equals(&other.y) && self.z.equals(&other.z)
    }
}

/// A ray that runs parallel to an axis and beside the box is seen by the slab
/// test as crossing both planes of that axis at the same infinity; whatever
/// the other axes and the window are, it misses.
pub proof fn lemma_offset_parallel_ray_misses(seen: AABB, ray_t: Interval, n: int)
    requires
        0 <= n < 3,
        seen.axis(n).start.same(seen.axis(n).end),
        !seen.axis(n).start.finite(),
    ensures
        !seen.crossed(ray_t),
{
}

/// A ray that passes through the inside of the box within the window is
/// reported as a hit: if some parameter `t` lies strictly inside the window
/// and, on every axis, strictly between the two crossings, the window stays
/// open.
pub proof fn lemma_ray_through_box_hits(seen: AABB, ray_t: Interval, t: Scalar)
    requires
        ray_t.holds_strictly(t),
        seen.x.reordered().holds_strictly(t),
        seen.y.reordered().holds_strictly(t),
        seen.z.reordered().holds_strictly(t),
    ensures
        seen.crossed(ray_t),
{
    let after_x = AABB::cut(ray_t, seen.x);
    assert(after_x.holds_strictly(t));
    let after_y = AABB::cut(after_x, seen.y);
    assert(after_y.holds_strictly(t));
    let after_z = AABB::cut(after_y, seen.z);
    assert(after_z.holds_strictly(t));
}

/// The box around two boxes encloses each of them on every axis, as long as
/// their bounds are numbers.
pub proof fn lemma_surrounding_encloses(box0: AABB, box1: AABB, n: int)
    requires
        0 <= n < 3,
        !box0.axis(n).start.nan() && !box0.axis(n).end.nan(),
        !box1.axis(n).start.nan() && !box1.axis(n).end.nan(),
    ensures
        AABB::surrounding(box0, box1).axis(n).encloses(box0.axis(n)),
        AABB::surrounding(box0, box1).axis(n).encloses(box1.axis(n)),
{
}

/// The longest axis is an axis of greatest extent, and no axis before it is
/// one, as long as the extents are numbers.
pub proof fn lemma_longest_is_first_of_the_greatest(extent: Vec3)
    requires
        !extent.x.nan(),
        !extent.y.nan(),
        !extent.z.nan(),
    ensures
        0 <= AABB::longest(extent) < 3,
        AABB::greatest(extent, AABB::longest(extent)),
        forall|m: int| 0 <= m < 3 ==> (#[trigger] extent.component(m)).at_most(
            extent.component(AABB::longest(extent)),
        ),
        forall|m: int| 0 <= m < AABB::longest(extent) ==> !AABB::greatest(extent, m),
{
    assert(extent.component(0) == extent.x);
    assert(extent.component(1) == extent.y);
    assert(extent.component(2) == extent.z);
    if !AABB::greatest(extent, 0) && !AABB::greatest(extent, 1) {
        assert(extent.component(2) == extent.z);
        assert(AABB::greatest(extent, 2));
    }
}

/// A box that is equally long on all three axes has x for its longest axis.
pub proof fn lemma_equal_extents_give_x(extent: Vec3)
    requires
        extent.x.same(extent.y),
        extent.y.same(extent.z),
    ensures
        AABB::longest(extent) == 0,
{
    assert(extent.component(0) == extent.x);
    assert(extent.component(1) == extent.y);
    assert(extent.component(2) == extent.z);
}

} // verus!
