//! A hierarchy of bounding boxes over a set of objects.
use vstd::prelude::*;
use crate::hittable::aabb::AABB;
use crate::hittable::HitRecord;
use crate::hittable::Hittable;
use crate::primitive::interval::Interval;
use crate::primitive::scalar::Scalar;

verus! {

/// A child of a fork: an object, by its place among the tree's objects, or
/// another fork, by its place among the tree's forks.
#[derive(Clone, Copy, Debug)]
pub enum Link {
    Leaf(usize),
    Fork(usize),
}

/// An inner node: two children and the box around both.
#[derive(Clone, Copy, Debug)]
pub struct Fork {
    pub left: Link,
    pub right: Link,
    pub bbox: AABB,
}

/// A bounding volume hierarchy. The forks lie in one table and point at one
/// another by index; fork 0 is the root, and a fork's children that are forks
/// come after it in the table.
#[derive(Debug)]
pub struct BVHNode {
    pub objects: Vec<Hittable>,
    pub forks: Vec<Fork>,
    pub bbox: AABB,
}

impl BVHNode {
    /// Whether a link points at something that exists, and forward if it
    /// leaves fork `from`.
    pub open spec fn link_ok(self, from: int, link: Link) -> bool {
        match link {
            Link::Leaf(i) => i < self.objects@.len(),
            Link::Fork(j) => from < j < self.forks@.len(),
        }
    }

    /// Every link points at something that exists, forks point forward, and
    /// the tree's box is the root's.
    pub open spec fn wf(self) -> bool {
        &&& self.forks@.len() > 0
        &&& self.bbox == self.forks@[0].bbox
        &&& forall|k: int|
            0 <= k < self.forks@.len() ==> self.link_ok(k, #[trigger] self.forks@[k].left)
                && self.link_ok(k, self.forks@[k].right)
    }

    /// A tree of one fork over two objects.
    pub fn new(left: Hittable, right: Hittable) -> (node: BVHNode)
        ensures
            node.wf(),
            node.objects@ == seq![left, right],
            node.forks@ == seq![
                Fork {
                    left: Link::Leaf(0),
                    right: Link::Leaf(1),
                    bbox: AABB::surrounding(left.bounds(), right.bounds()),
                },
            ],
    {
        let bbox = AABB::surrounding_box(&left.bounding_box(), &right.bounding_box());
        let mut objects: Vec<Hittable> = Vec::new();
        objects.push(left);
        objects.push(right);
        let mut forks: Vec<Fork> = Vec::new();
        forks.push(Fork { left: Link::Leaf(0), right: Link::Leaf(1), bbox });
        BVHNode { objects, forks, bbox }
    }

    pub fn bounding_box(&self) -> (b: AABB)
        ensures
            b == self.bbox,
    {
        self.bbox
    }
}

/// What the caller of a search is to test next.
#[derive(Clone, Copy, Debug)]
pub enum Probe {
    /// Whether the ray crosses the box of this fork within the window.
    Bounds(usize, Interval),
    /// Where the ray hits this object within the window.
    Object(usize, Interval),
}

/// A search through a hierarchy for the nearest hit of one ray. The caller
/// does the geometry: it tests the ray against the box or the object that
/// the search names, in the window that it names, and reports the result.
/// The search decides what is tested next, keeps the hit that was reported
/// last, and pulls the end of the window down to it.
#[derive(Debug)]
pub struct Descent {
    /// What is still to be visited; the last entry comes next.
    pub stack: Vec<Link>,
    /// The start of the window.
    pub start: Scalar,
    /// The end of the window: the parameter of the hit reported last.
    pub closest_so_far: Scalar,
    /// The hit reported last.
    pub found: Option<HitRecord>,
}

impl BVHNode {
    /// How far a link is from the end of the table of forks: what a walk
    /// down the tree decreases.
    pub open spec fn height(self, link: Link) -> nat {
        match link {
            Link::Leaf(_) => 0,
            Link::Fork(k) => if k < self.forks@.len() {
                (self.forks@.len() - k) as nat
            } else {
                0
            },
        }
    }

    /// The objects under a link, from left to right.
    pub open spec fn leaves(self, link: Link) -> Seq<int>
        decreases self.height(link),
    {
        match link {
            Link::Leaf(i) => seq![i as int],
            Link::Fork(k) => if k < self.forks@.len() && self.link_ok(k as int, self.forks@[k as int].left)
                && self.link_ok(k as int, self.forks@[k as int].right) {
                self.leaves(self.forks@[k as int].left) + self.leaves(self.forks@[k as int].right)
            } else {
                Seq::empty()
            },
        }
    }

    /// The end of the window after a result: the parameter of the hit, or
    /// the end as it was if there is none.
    pub open spec fn pulled(end: Scalar, result: Option<HitRecord>) -> Scalar {
        match result {
            Some(rec) => rec.t,
            None => end,
        }
    }

    /// The nearest hit under a link within the window from `start` to `end`,
    /// when the box of fork `k` is crossed within a window `w` exactly if
    /// `bounds(k, w)`, and object `i` is hit within `w` as `object(i, w)`
    /// says. A fork whose box is missed has no hit. Else its left child is
    /// searched, then its right child in a window that ends at the left
    /// child's hit, and a hit of the right child counts before one of the
    /// left.
    pub open spec fn hit_under(
        self,
        link: Link,
        start: Scalar,
        end: Scalar,
        bounds: spec_fn(int, Interval) -> bool,
        object: spec_fn(int, Interval) -> Option<HitRecord>,
    ) -> Option<HitRecord>
        decreases self.height(link),
    {
        match link {
            Link::Leaf(i) => object(i as int, Interval { start, end }),
            Link::Fork(k) => if k < self.forks@.len() && self.link_ok(k as int, self.forks@[k as int].left)
                && self.link_ok(k as int, self.forks@[k as int].right) && bounds(
                k as int,
                Interval { start, end },
            ) {
                let left = self.hit_under(self.forks@[k as int].left, start, end, bounds, object);
                let right = self.hit_under(
                    self.forks@[k as int].right,
                    start,
                    Self::pulled(end, left),
                    bounds,
                    object,
                );
                if right is Some {
                    right
                } else {
                    left
                }
            } else {
                None
            },
        }
    }

    /// Begins the search for the nearest hit within `ray_t`, at the root.
    pub fn hit(&self, ray_t: Interval) -> (d: Descent)
        requires
            self.wf(),
        ensures
            d.stack@ == seq![Link::Fork(0)],
            d.start == ray_t.start,
            d.closest_so_far == ray_t.end,
            d.found is None,
            d.fits(*self),
    {
        let mut stack: Vec<Link> = Vec::new();
        stack.push(Link::Fork(0));
        Descent { stack, start: ray_t.start, closest_so_far: ray_t.end, found: None }
    }
}

impl Descent {
    /// Every link that is still to be visited points into the tree.
    pub open spec fn fits(self, tree: BVHNode) -> bool {
        forall|n: int|
            0 <= n < self.stack@.len() ==> match #[trigger] self.stack@[n] {
                Link::Leaf(i) => i < tree.objects@.len(),
                Link::Fork(k) => k < tree.forks@.len(),
            }
    }

    /// The window in which the next test is to be made.
    pub open spec fn window(self) -> Interval {
        Interval { start: self.start, end: self.closest_so_far }
    }

    /// What is to be tested next; nothing when the search is over.
    pub open spec fn next(self) -> Option<Probe> {
        if self.stack@.len() == 0 {
            None
        } else {
            match self.stack@.last() {
                Link::Leaf(i) => Some(Probe::Object(i, self.window())),
                Link::Fork(k) => Some(Probe::Bounds(k, self.window())),
            }
        }
    }

    /// Whether `later` is this search after the box of the pending fork was
    /// reported as crossed or missed: the fork is done, and if its box was
    /// crossed its children are to be visited, the left one first.
    pub open spec fn then_bounds(self, tree: BVHNode, crossed: bool, later: Descent) -> bool {
        &&& self.stack@.len() > 0
        &&& self.stack@.last() matches Link::Fork(k) && k < tree.forks@.len() && later.stack@ == (
        if crossed {
            self.stack@.drop_last().push(tree.forks@[k as int].right).push(
                tree.forks@[k as int].left,
            )
        } else {
            self.stack@.drop_last()
        })
        &&& later.start == self.start
        &&& later.closest_so_far == self.closest_so_far
        &&& later.found == self.found
    }

    /// Whether `later` is this search after the pending object's test came
    /// out as `outcome`: the object is done, and a hit replaces what was
    /// found before and ends the window.
    pub open spec fn then_object(self, outcome: Option<HitRecord>, later: Descent) -> bool {
        &&& self.stack@.len() > 0
        &&& later.stack@ == self.stack@.drop_last()
        &&& later.start == self.start
        &&& later.closest_so_far == BVHNode::pulled(self.closest_so_far, outcome)
        &&& later.found == if outcome is Some {
            outcome
        } else {
            self.found
        }
    }

    /// What a search ends with from the state given by `stack`, `end` and
    /// `found`, under the same reading of `bounds` and `object` as in
    /// `hit_under`.
    pub open spec fn outcome_from(
        tree: BVHNode,
        stack: Seq<Link>,
        start: Scalar,
        end: Scalar,
        found: Option<HitRecord>,
        bounds: spec_fn(int, Interval) -> bool,
        object: spec_fn(int, Interval) -> Option<HitRecord>,
    ) -> Option<HitRecord>
        decreases stack.len(),
    {
        if stack.len() == 0 {
            found
        } else {
            let here = tree.hit_under(stack.last(), start, end, bounds, object);
            Self::outcome_from(
                tree,
                stack.drop_last(),
                start,
                BVHNode::pulled(end, here),
                if here is Some {
                    here
                } else {
                    found
                },
                bounds,
                object,
            )
        }
    }

    /// What the search ends with.
    pub open spec fn outcome(
        self,
        tree: BVHNode,
        bounds: spec_fn(int, Interval) -> bool,
        object: spec_fn(int, Interval) -> Option<HitRecord>,
    ) -> Option<HitRecord> {
        Self::outcome_from(
            tree,
            self.stack@,
            self.start,
            self.closest_so_far,
            self.found,
            bounds,
            object,
        )
    }

    /// What to test next; none when the search is over.
    pub fn pending(&self) -> (p: Option<Probe>)
        ensures
            p == self.next(),
    {
        let n = self.stack.len();
        if n == 0 {
            None
        } else {
            let window = Interval { start: self.start, end: self.closest_so_far };
            match self.stack[n - 1] {
                Link::Leaf(i) => Some(Probe::Object(i, window)),
                Link::Fork(k) => Some(Probe::Bounds(k, window)),
            }
        }
    }

    /// Takes in whether the ray crosses the box of the pending fork.
    pub fn bounds(&mut self, tree: &BVHNode, crossed: bool)
        requires
            tree.wf(),
            old(self).fits(*tree),
            old(self).next() matches Some(Probe::Bounds(_, _)),
        ensures
            old(self).then_bounds(*tree, crossed, *final(self)),
            final(self).fits(*tree),
    {
        let top = self.stack.pop().unwrap();
        assert(top == old(self).stack@.last());
        assert(self.stack@ == old(self).stack@.drop_last());
        match top {
            Link::Fork(k) => {
                if crossed {
                    let fork = tree.forks[k];
                    assert(tree.link_ok(k as int, tree.forks@[k as int].left));
                    assert(tree.link_ok(k as int, tree.forks@[k as int].right));
                    self.stack.push(fork.right);
                    self.stack.push(fork.left);
                }
            },
            Link::Leaf(_) => {},
        }
    }

    /// Takes in the result of testing the pending object.
    pub fn object(&mut self, outcome: Option<HitRecord>)
        requires
            old(self).next() matches Some(Probe::Object(_, _)),
        ensures
            old(self).then_object(outcome, *final(self)),
            forall|tree: BVHNode| old(self).fits(tree) ==> final(self).fits(tree),
    {
        let top = self.stack.pop();
        assert(self.stack@ == old(self).stack@.drop_last());
        match outcome {
            Some(rec) => {
                self.closest_so_far = rec.t;
                self.found = Some(rec);
            },
            None => {},
        }
    }

    /// The nearest hit that was found.
    pub fn finish(self) -> (r: Option<HitRecord>)
        ensures
            r == self.found,
    {
        self.found
    }
}

/// A search that has just begun ends with the nearest hit under the root.
pub proof fn lemma_descent_begins_at_root(
    tree: BVHNode,
    d: Descent,
    bounds: spec_fn(int, Interval) -> bool,
    object: spec_fn(int, Interval) -> Option<HitRecord>,
)
    requires
        d.stack@ == seq![Link::Fork(0)],
        d.found is None,
    ensures
        d.outcome(tree, bounds, object) == tree.hit_under(
            Link::Fork(0),
            d.start,
            d.closest_so_far,
            bounds,
            object,
        ),
{
    let here = tree.hit_under(Link::Fork(0), d.start, d.closest_so_far, bounds, object);
    assert(d.stack@.last() == Link::Fork(0));
    assert(d.stack@.drop_last() =~= Seq::<Link>::empty());
    assert(Descent::outcome_from(
        tree,
        d.stack@.drop_last(),
        d.start,
        BVHNode::pulled(d.closest_so_far, here),
        if here is Some {
            here
        } else {
            d.found
        },
        bounds,
        object,
    ) == (if here is Some {
        here
    } else {
        d.found
    }));
}

/// Reporting truthfully whether a box is crossed does not change what the
/// search ends with.
pub proof fn lemma_bounds_keeps_outcome(
    tree: BVHNode,
    before: Descent,
    after: Descent,
    crossed: bool,
    bounds: spec_fn(int, Interval) -> bool,
    object: spec_fn(int, Interval) -> Option<HitRecord>,
)
    requires
        tree.wf(),
        before.then_bounds(tree, crossed, after),
        before.next() matches Some(Probe::Bounds(k, w)) && crossed == bounds(k as int, w),
    ensures
        after.outcome(tree, bounds, object) == before.outcome(tree, bounds, object),
{
    let k = before.stack@.last()->Fork_0;
    let rest = before.stack@.drop_last();
    let fork = tree.forks@[k as int];
    assert(tree.link_ok(k as int, fork.left) && tree.link_ok(k as int, fork.right));
    let start = before.start;
    let end = before.closest_so_far;
    if crossed {
        let s2 = rest.push(fork.right).push(fork.left);
        assert(s2.last() == fork.left);
        assert(s2.drop_last() =~= rest.push(fork.right));
        assert(rest.push(fork.right).last() == fork.right);
        assert(rest.push(fork.right).drop_last() =~= rest);
        let left = tree.hit_under(fork.left, start, end, bounds, object);
        let right = tree.hit_under(fork.right, start, BVHNode::pulled(end, left), bounds, object);
        let found1 = if left is Some {
            left
        } else {
            before.found
        };
        assert(Descent::outcome_from(tree, s2, start, end, before.found, bounds, object)
            == Descent::outcome_from(
            tree,
            rest.push(fork.right),
            start,
            BVHNode::pulled(end, left),
            found1,
            bounds,
            object,
        ));
    }
}

/// Reporting truthfully where an object is hit does not change what the
/// search ends with.
pub proof fn lemma_object_keeps_outcome(
    tree: BVHNode,
    before: Descent,
    after: Descent,
    outcome: Option<HitRecord>,
    bounds: spec_fn(int, Interval) -> bool,
    object: spec_fn(int, Interval) -> Option<HitRecord>,
)
    requires
        before.then_object(outcome, after),
        before.next() matches Some(Probe::Object(i, w)) && outcome == object(i as int, w),
    ensures
        after.outcome(tree, bounds, object) == before.outcome(tree, bounds, object),
{
}

/// A search that is over has found what it ends with.
pub proof fn lemma_descent_over(
    tree: BVHNode,
    d: Descent,
    bounds: spec_fn(int, Interval) -> bool,
    object: spec_fn(int, Interval) -> Option<HitRecord>,
)
    requires
        d.next() is None,
    ensures
        d.outcome(tree, bounds, object) == d.found,
{
}

} // verus!
