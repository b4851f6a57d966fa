//! A flat collection of objects, searched one by one.
use vstd::prelude::*;
use crate::hittable::aabb::AABB;
use crate::hittable::HitRecord;
use crate::hittable::Hittable;
use crate::primitive::interval::Interval;
use crate::primitive::scalar::Scalar;

verus! {

/// Objects in the order in which they were added, and the box around them.
#[derive(Debug)]
pub struct HittableList {
    pub objects: Vec<Hittable>,
    pub bbox: AABB,
}

/// A search through a list for the nearest hit of one ray. The caller
/// intersects the ray with one object at a time, in the window that the
/// search hands out, and reports what it found; the search keeps the nearest
/// hit and pulls the window's end down to it.
#[derive(Clone, Copy, Debug)]
pub struct Scan {
    /// The object to test next.
    pub index: usize,
    /// The number of objects.
    pub count: usize,
    /// The start of the window.
    pub start: Scalar,
    /// The end of the window: the parameter of the nearest hit so far.
    pub closest_so_far: Scalar,
    /// The nearest hit so far.
    pub found: Option<HitRecord>,
}

impl HittableList {
    /// The box of a list after an object with the box `added` has joined it.
    pub open spec fn grown(bbox: AABB, added: AABB) -> AABB {
        if bbox.same(AABB::empty_spec()) {
            added
        } else {
            AABB::surrounding(bbox, added)
        }
    }

    /// The box around a sequence of objects, grown object by object.
    pub open spec fn bounds_of(objects: Seq<Hittable>) -> AABB
        decreases objects.len(),
    {
        if objects.len() == 0 {
            AABB::empty_spec()
        } else {
            Self::grown(Self::bounds_of(objects.drop_last()), objects.last().bounds())
        }
    }

    /// The list's box is the box around its objects.
    pub open spec fn wf(self) -> bool {
        self.bbox == Self::bounds_of(self.objects@)
    }

    pub fn new() -> (l: HittableList)
        ensures
            l.objects@.len() == 0,
            l.bbox == AABB::empty_spec(),
            l.wf(),
    {
        HittableList { objects: Vec::new(), bbox: AABB::empty() }
    }

    /// Appends an object and grows the box around it.
    pub fn add(&mut self, object: Hittable)
        ensures
            final(self).objects@ == old(self).objects@.push(object),
            final(self).bbox == Self::grown(old(self).bbox, object.bounds()),
            old(self).wf() ==> final(self).wf(),
    {
        if self.bbox.equals(&AABB::empty()) {
            self.bbox = object.bounding_box();
        } else {
            self.bbox = AABB::surrounding_box(&self.bbox, &object.bounding_box());
        }
        self.objects.push(object);
        proof {
            assert(self.objects@.drop_last() == old(self).objects@);
        }
    }

    pub fn bounding_box(&self) -> (b: AABB)
        ensures
            b == self.bbox,
    {
        self.bbox
    }

    /// Begins the search for the nearest hit within `ray_t`.
    pub fn hit(&self, ray_t: Interval) -> (scan: Scan)
        ensures
            scan == Scan::begun(self.objects@.len(), ray_t),
    {
        Scan {
            index: 0,
            count: self.objects.len(),
            start: ray_t.start,
            closest_so_far: ray_t.end,
            found: None,
        }
    }
}

impl Default for HittableList {
    fn default() -> (l: HittableList)
        ensures
            l.objects@.len() == 0,
            l.bbox == AABB::empty_spec(),
    {
        HittableList::new()
    }
}

impl Scan {
    /// The search over `count` objects before its first test.
    pub open spec fn begun(count: nat, ray_t: Interval) -> Scan {
        Scan {
            index: 0,
            count: count as usize,
            start: ray_t.start,
            closest_so_far: ray_t.end,
            found: None,
        }
    }

    /// Whether every object has been tested.
    pub open spec fn done(self) -> bool {
        self.index >= self.count
    }

    /// The window in which the next object is to be tested.
    pub open spec fn window(self) -> Interval {
        Interval { start: self.start, end: self.closest_so_far }
    }

    /// The search after the next object's test came out as `outcome`: a hit
    /// is kept if it is nearer than the nearest so far.
    pub open spec fn after(self, outcome: Option<HitRecord>) -> Scan {
        match outcome {
            Some(rec) => if rec.t.less(self.closest_so_far) {
                Scan {
                    index: (self.index + 1) as usize,
                    closest_so_far: rec.t,
                    found: Some(rec),
                    ..self
                }
            } else {
                Scan { index: (self.index + 1) as usize, ..self }
            },
            None => Scan { index: (self.index + 1) as usize, ..self },
        }
    }

    /// What the search ends with, when the test of object `i` in the window
    /// `w` comes out as `probe(i, w)`.
    pub open spec fn outcome(
        self,
        probe: spec_fn(int, Interval) -> Option<HitRecord>,
    ) -> Option<HitRecord>
        decreases self.count - self.index,
    {
        if self.index >= self.count {
            self.found
        } else {
            self.after(probe(self.index as int, self.window())).outcome(probe)
        }
    }

    /// The object to test next and the window to test it in; none when the
    /// search is over.
    pub fn pending(&self) -> (p: Option<(usize, Interval)>)
        ensures
            self.done() ==> p is None,
            !self.done() ==> p == Some((self.index, self.window())),
    {
        if self.index >= self.count {
            None
        } else {
            Some((self.index, Interval { start: self.start, end: self.closest_so_far }))
        }
    }

    /// Takes in the result of testing the pending object.
    pub fn record(&mut self, outcome: Option<HitRecord>)
        requires
            !old(self).done(),
        ensures
            *final(self) == old(self).after(outcome),
    {
        match outcome {
            Some(rec) => {
                if rec.t.lt(&self.closest_so_far) {
                    self.closest_so_far = rec.t;
                    self.found = Some(rec);
                }
            },
            None => {},
        }
        self.index = self.index + 1;
    }

    /// The nearest hit that was found.
    pub fn finish(self) -> (r: Option<HitRecord>)
        ensures
            r == self.found,
    {
        self.found
    }
}

/// Taking in what the pending object truly reports does not change what the
/// search ends with.
pub proof fn lemma_record_keeps_outcome(
    before: Scan,
    probe: spec_fn(int, Interval) -> Option<HitRecord>,
)
    requires
        !before.done(),
    ensures
        before.after(probe(before.index as int, before.window())).outcome(probe) == before.outcome(
            probe,
        ),
{
}

/// A search that is over has found what it ends with.
pub proof fn lemma_scan_over(scan: Scan, probe: spec_fn(int, Interval) -> Option<HitRecord>)
    requires
        scan.done(),
    ensures
        scan.outcome(probe) == scan.found,
{
}

} // verus!
