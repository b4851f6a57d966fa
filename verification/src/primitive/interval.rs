//! Ranges of numbers.
use vstd::prelude::*;
use crate::primitive::scalar::Scalar;

verus! {

/// The range from `start` to `end`. A range whose start lies above its end
/// holds nothing.
#[derive(Clone, Copy, Debug)]
pub struct Interval {
    pub start: Scalar,
    pub end: Scalar,
}

impl Interval {
    /// Whether `x` lies in the range, the two ends included.
    pub open spec fn holds(self, x: Scalar) -> bool {
        self.start.at_most(x) && x.at_most(self.end)
    }

    /// Whether `x` lies in the range and on neither end.
    pub open spec fn holds_strictly(self, x: Scalar) -> bool {
        self.start.less(x) && x.less(self.end)
    }

    /// Whether `other` lies within the range.
    pub open spec fn encloses(self, other: Interval) -> bool {
        self.start.at_most(other.start) && other.end.at_most(self.end)
    }

    /// The same two ends, the smaller one first.
    pub open spec fn reordered(self) -> Interval {
        if self.end.less(self.start) {
            Interval { start: self.end, end: self.start }
        } else {
            self
        }
    }

    /// The smallest range that holds both.
    pub open spec fn merged(self, other: Interval) -> Interval {
        Interval { start: self.start.lesser(other.start), end: self.end.greater(other.end) }
    }

    /// The common part of two ranges.
    pub open spec fn narrowed(self, other: Interval) -> Interval {
        Interval { start: self.start.greater(other.start), end: self.end.lesser(other.end) }
    }

    /// The number of the range that is nearest to `x`.
    pub open spec fn clamped(self, x: Scalar) -> Scalar {
        x.greater(self.start).lesser(self.end)
    }

    /// Whether both ends are equal by value to those of `other`.
    pub open spec fn same(self, other: Interval) -> bool {
        self.start.same(other.start) && self.end.same(other.end)
    }

    /// The range that holds nothing, from positive to negative infinity.
    /// Merging it with a range gives that range.
    pub open spec fn empty_spec() -> Interval {
        Interval {
            start: Scalar { bits: 0x7ff0_0000_0000_0000 },
            end: Scalar { bits: 0xfff0_0000_0000_0000 },
        }
    }

    pub fn new(start: Scalar, end: Scalar) -> (i: Interval)
        ensures
            i.start == start,
            i.end == end,
    {
        Interval { start, end }
    }

    /// The range that holds nothing.
    pub fn empty() -> (i: Interval)
        ensures
            i == Self::empty_spec(),
    {
        Interval { start: Scalar::infinity(), end: Scalar::neg_infinity() }
    }

    /// The range of all finite numbers.
    pub fn universe() -> (i: Interval)
        ensures
            i.start.bits == 0xffef_ffff_ffff_ffff,
            i.end.bits == 0x7fef_ffff_ffff_ffff,
    {
        Interval {
            start: Scalar::from_bits(0xffef_ffff_ffff_ffff),
            end: Scalar::from_bits(0x7fef_ffff_ffff_ffff),
        }
    }

    pub fn reorder(&self) -> (i: Interval)
        ensures
            i == self.reordered(),
    {
        if self.start.gt(&self.end) {
            Interval { start: self.end, end: self.start }
        } else {
            *self
        }
    }

    /// The minimum enclosing range.
    pub fn merge(&self, other: &Interval) -> (i: Interval)
        ensures
            i == self.merged(*other),
    {
        Interval { start: self.start.min(&other.start), end: self.end.max(&other.end) }
    }

    pub fn contains(&self, x: Scalar) -> (r: bool)
        ensures
            r == self.holds(x),
    {
        x.ge(&self.start) && x.le(&self.end)
    }

    pub fn surrounds(&self, x: Scalar) -> (r: bool)
        ensures
            r == self.holds_strictly(x),
    {
        x.gt(&self.start) && x.lt(&self.end)
    }

    pub fn contains_interval(&self, other: &Interval) -> (r: bool)
        ensures
            r == self.encloses(*other),
    {
        self.start.le(&other.start) && self.end.ge(&other.end)
    }

    pub fn clamp(&self, x: Scalar) -> (r: Scalar)
        ensures
            r == self.clamped(x),
    {
        x.max(&self.start).min(&self.end)
    }

    /// Whether the two ranges have equal ends.
    pub fn equals(&self, other: &Interval) -> (r: bool)
        ensures
            r == self.same(*other),
    {
        self.start.equals(&other.start) && self.end.equals(&other.end)
    }
}

/// A number that is not NaN is clamped into the range, whenever the range is
/// in order.
pub proof fn lemma_clamp_lands_inside(range: Interval, x: Scalar)
    requires
        range.start.at_most(range.end),
        !x.nan(),
    ensures
        range.holds(range.clamped(x)),
        range.holds(x) ==> range.clamped(x).same(x),
{
}

/// Merging with the empty range changes nothing, on either side.
pub proof fn lemma_merge_empty(range: Interval)
    requires
        !range.start.nan(),
        !range.end.nan(),
    ensures
        Interval::empty_spec().merged(range).same(range),
        range.merged(Interval::empty_spec()).same(range),
{
}

/// A merged range encloses both of its parts.
pub proof fn lemma_merge_encloses(a: Interval, b: Interval)
    requires
        !a.start.nan(),
        !a.end.nan(),
        !b.start.nan(),
        !b.end.nan(),
    ensures
        a.merged(b).encloses(a),
        a.merged(b).encloses(b),
{
}

} // verus!
