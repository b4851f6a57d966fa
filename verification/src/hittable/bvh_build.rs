//! Building a hierarchy of bounding boxes.
//!
//! The objects are split again and again: a group of more than two is
//! sorted along the axis on which the box around it is longest and cut in
//! the middle. Which axis that is takes arithmetic on the box, so the
//! builder hands out the box and is told the axis.
use vstd::prelude::*;
use crate::hittable::aabb::AABB;
use crate::hittable::axis_sort::{is_stable_sort, key, key_of, keyed, lemma_sort_keeps_entries, sort_range};
use crate::hittable::bvh::{BVHNode, Fork, Link};
use crate::hittable::hittable_list::HittableList;
use crate::hittable::Hittable;
use crate::primitive::vec3::Vec3;

verus! {

/// A group of objects that is still to be split: the entries of the order
/// from `lo` up to `hi`, which hang under `fork`.
#[derive(Clone, Copy, Debug)]
pub struct Task {
    pub fork: usize,
    pub lo: usize,
    pub hi: usize,
}

/// A hierarchy under construction.
pub struct Builder {
    pub objects: Vec<Hittable>,
    /// The objects by their places, group by group.
    pub order: Vec<usize>,
    pub forks: Vec<Fork>,
    /// The groups that are still to be split; the last one comes next.
    pub tasks: Vec<Task>,
    /// For each fork, the objects under it in the order in which the fork
    /// received them.
    pub span: Ghost<Seq<Seq<usize>>>,
}

/// The box around a group of objects, grown object by object from the empty
/// box.
pub open spec fn union_of(objects: Seq<Hittable>, members: Seq<usize>) -> AABB
    decreases members.len(),
{
    if members.len() == 0 {
        AABB::empty_spec()
    } else {
        AABB::surrounding(
            objects[members.last() as int].bounds(),
            union_of(objects, members.drop_last()),
        )
    }
}

/// The fork over a group as it is first made. A group of one has that object
/// on both sides, a group of two has one on each side. A larger group gets
/// the box around it at once and its children when it is split; until then
/// its first object stands in on both sides.
pub open spec fn seat(objects: Seq<Hittable>, members: Seq<usize>) -> Fork {
    if members.len() == 2 {
        Fork {
            left: Link::Leaf(members[0]),
            right: Link::Leaf(members[1]),
            bbox: AABB::surrounding(
                objects[members[0] as int].bounds(),
                objects[members[1] as int].bounds(),
            ),
        }
    } else if members.len() == 1 {
        Fork {
            left: Link::Leaf(members[0]),
            right: Link::Leaf(members[0]),
            bbox: objects[members[0] as int].bounds(),
        }
    } else {
        Fork {
            left: Link::Leaf(members[0]),
            right: Link::Leaf(members[0]),
            bbox: union_of(objects, members),
        }
    }
}

/// Whether `left` and `right` are the two halves into which a group is
/// split: the group sorted along one of the three axes by the starts of the
/// boxes, equal starts keeping their order, and cut in the middle, the
/// left half being the smaller one where the group is odd.
#[verifier::opaque]
pub open spec fn halves(
    objects: Seq<Hittable>,
    members: Seq<usize>,
    left: Seq<usize>,
    right: Seq<usize>,
) -> bool {
    &&& left.len() == members.len() / 2
    &&& exists|axis: int|
        #![trigger is_stable_sort(objects, axis, members, left + right)]
        0 <= axis < 3 && is_stable_sort(objects, axis, members, left + right)
}

/// Whether fork `k` is finished: it is the fork over a small group, or it
/// has the box around its group and two forks after it as children, which
/// share the group as its two halves.
pub open spec fn node_ok(
    objects: Seq<Hittable>,
    forks: Seq<Fork>,
    span: Seq<Seq<usize>>,
    k: int,
) -> bool {
    let members = span[k];
    if members.len() <= 2 {
        forks[k] == seat(objects, members)
    } else {
        &&& forks[k].bbox == union_of(objects, members)
        &&& forks[k].left matches Link::Fork(a) && forks[k].right matches Link::Fork(b) && k < a
            < forks.len() && k < b < forks.len() && halves(
            objects,
            members,
            span[a as int],
            span[b as int],
        )
    }
}

impl BVHNode {
    /// Whether the tree under fork `k` is the hierarchy over `members`: for
    /// one object a fork with that object on both sides, for two a fork with
    /// one on each side, and for more a fork with the box around all of them
    /// whose children are the hierarchies over the two halves of the group.
    pub open spec fn built(self, k: int, members: Seq<usize>) -> bool
        decreases self.forks@.len() - k,
    {
        if 0 <= k < self.forks@.len() {
            &&& members.len() >= 1
            &&& forall|i: int|
                0 <= i < members.len() ==> (#[trigger] members[i]) < self.objects@.len()
            &&& if members.len() <= 2 {
                self.forks@[k] == seat(self.objects@, members)
            } else {
                &&& self.forks@[k].bbox == union_of(self.objects@, members)
                &&& self.forks@[k].left is Fork
                &&& self.forks@[k].right is Fork
                &&& exists|left: Seq<usize>, right: Seq<usize>|
                    #![trigger halves(self.objects@, members, left, right)]
                    halves(self.objects@, members, left, right) && k
                        < self.forks@[k].left->Fork_0 < self.forks@.len() && self.built(
                        self.forks@[k].left->Fork_0 as int,
                        left,
                    ) && k < self.forks@[k].right->Fork_0 < self.forks@.len() && self.built(
                        self.forks@[k].right->Fork_0 as int,
                        right,
                    )
            }
        } else {
            false
        }
    }
}

/// For each group of a list, the number of its objects beyond two, summed.
pub open spec fn work_of(tasks: Seq<Task>) -> int
    decreases tasks.len(),
{
    if tasks.len() == 0 {
        0
    } else {
        work_of(tasks.drop_last()) + (tasks.last().hi - tasks.last().lo - 2)
    }
}

/// The box around the entries of the order from `lo` up to `hi`.
fn union_range(objects: &Vec<Hittable>, order: &Vec<usize>, lo: usize, hi: usize) -> (b: AABB)
    requires
        lo <= hi <= order@.len(),
        forall|i: int| lo <= i < hi ==> (#[trigger] order@[i]) < objects@.len(),
    ensures
        b == union_of(objects@, order@.subrange(lo as int, hi as int)),
{
    let mut bbox = AABB::empty();
    let mut i: usize = lo;
    while i < hi
        invariant
            lo <= i <= hi <= order@.len(),
            forall|n: int| lo <= n < hi ==> (#[trigger] order@[n]) < objects@.len(),
            bbox == union_of(objects@, order@.subrange(lo as int, i as int)),
        decreases hi - i,
    {
        bbox = AABB::surrounding_box(&objects[order[i]].bounding_box(), &bbox);
        proof {
            let next = order@.subrange(lo as int, i + 1);
            assert(next.drop_last() =~= order@.subrange(lo as int, i as int));
            assert(next.last() == order@[i as int]);
        }
        i = i + 1;
    }
    bbox
}

/// Makes the fork over the entries of the order from `lo` up to `hi`, and
/// notes the group for splitting if it has more than two objects.
fn sprout(
    objects: &Vec<Hittable>,
    order: &Vec<usize>,
    forks: &mut Vec<Fork>,
    tasks: &mut Vec<Task>,
    lo: usize,
    hi: usize,
)
    requires
        lo < hi <= order@.len(),
        forall|i: int| lo <= i < hi ==> (#[trigger] order@[i]) < objects@.len(),
    ensures
        final(forks)@ == old(forks)@.push(seat(objects@, order@.subrange(lo as int, hi as int))),
        final(tasks)@ == if hi - lo > 2 {
            old(tasks)@.push(Task { fork: old(forks)@.len() as usize, lo, hi })
        } else {
            old(tasks)@
        },
{
    let ghost members = order@.subrange(lo as int, hi as int);
    assert(members[0] == order@[lo as int]);
    let first = order[lo];
    if hi - lo == 1 {
        forks.push(
            Fork {
                left: Link::Leaf(first),
                right: Link::Leaf(first),
                bbox: objects[first].bounding_box(),
            },
        );
    } else if hi - lo == 2 {
        assert(members[1] == order@[lo + 1]);
        let second = order[lo + 1];
        let bbox = AABB::surrounding_box(
            &objects[first].bounding_box(),
            &objects[second].bounding_box(),
        );
        forks.push(Fork { left: Link::Leaf(first), right: Link::Leaf(second), bbox });
    } else {
        let bbox = union_range(objects, order, lo, hi);
        let fork = forks.len();
        forks.push(Fork { left: Link::Leaf(first), right: Link::Leaf(first), bbox });
        tasks.push(Task { fork, lo, hi });
    }
}

impl Builder {
    /// Whether fork `k` waits to be split.
    pub open spec fn waits(self, k: int) -> bool {
        exists|i: int| 0 <= i < self.tasks@.len() && #[trigger] self.tasks@[i].fork == k
    }

    /// Whether the group of a task is as it was handed to its fork, and the
    /// fork is as it was first made.
    pub open spec fn task_ok(self, t: Task) -> bool {
        &&& t.fork < self.forks@.len()
        &&& t.lo + 2 < t.hi <= self.order@.len()
        &&& self.order@.subrange(t.lo as int, t.hi as int) == self.span@[t.fork as int]
        &&& self.forks@[t.fork as int] == seat(self.objects@, self.span@[t.fork as int])
    }

    /// Every group is not empty and holds objects.
    pub open spec fn spans_ok(self) -> bool {
        forall|k: int|
            0 <= k < self.span@.len() ==> (#[trigger] self.span@[k]).len() >= 1 && forall|i: int|
                0 <= i < self.span@[k].len() ==> (#[trigger] self.span@[k][i]) < self.objects@.len()
    }

    /// Every group that waits is as it was handed to its fork.
    pub open spec fn tasks_ok(self) -> bool {
        forall|i: int| 0 <= i < self.tasks@.len() ==> self.task_ok(#[trigger] self.tasks@[i])
    }

    /// The groups that wait belong to different forks, and each lies before
    /// those that come after it in turn.
    pub open spec fn tasks_apart(self) -> bool {
        forall|i: int, j: int|
            0 <= i < j < self.tasks@.len() ==> (#[trigger] self.tasks@[i]).fork != (
            #[trigger] self.tasks@[j]).fork && self.tasks@[j].hi <= self.tasks@[i].lo
    }

    /// Every fork is finished or waits.
    pub open spec fn nodes_ok(self) -> bool {
        forall|k: int|
            0 <= k < self.forks@.len() ==> self.waits(k) || #[trigger] node_ok(
                self.objects@,
                self.forks@,
                self.span@,
                k,
            )
    }

    /// What holds of a builder between steps.
    #[verifier::opaque]
    pub open spec fn inv(self) -> bool {
        &&& self.objects@.len() >= 1
        &&& self.order@.len() == self.objects@.len()
        &&& forall|i: int| 0 <= i < self.order@.len() ==> (#[trigger] self.order@[i]) < self.objects@.len()
        &&& self.forks@.len() == self.span@.len()
        &&& self.forks@.len() >= 1
        &&& self.span@[0] == Seq::new(self.objects@.len(), |i: int| i as usize)
        &&& self.spans_ok()
        &&& self.tasks_ok()
        &&& self.tasks_apart()
        &&& self.nodes_ok()
    }

    /// The work that is left: for each group that waits, the number of its
    /// objects beyond two. Every split takes some of it away.
    pub open spec fn work(self) -> int {
        work_of(self.tasks@)
    }

    /// Whether the builder has a group to split.
    pub open spec fn busy(self) -> bool {
        self.tasks@.len() > 0
    }

    /// The group that is split next.
    pub open spec fn group(self) -> Seq<usize> {
        self.span@[self.tasks@.last().fork as int]
    }

    /// The box around the group that is split next; none when the hierarchy
    /// is complete. The caller finds the longest axis of the box and hands
    /// it to `split`.
    pub fn pending(&self) -> (b: Option<AABB>)
        requires
            self.inv(),
        ensures
            !self.busy() ==> b is None,
            self.busy() ==> b == Some(union_of(self.objects@, self.group())),
    {
        proof {
            reveal(Builder::inv);
        }
        let n = self.tasks.len();
        if n == 0 {
            None
        } else {
            let t = self.tasks[n - 1];
            assert(self.task_ok(self.tasks@[n - 1]));
            Some(self.forks[t.fork].bbox)
        }
    }
}

impl Builder {
    /// Whether `later` has the order of this builder with the next group
    /// sorted along `axis` and everything else in place.
    pub open spec fn then_sorted(self, axis: int, later: Builder) -> bool {
        let t = self.tasks@.last();
        &&& later.objects@ == self.objects@
        &&& later.order@.len() == self.order@.len()
        &&& forall|i: int|
            0 <= i < t.lo || t.hi <= i < self.order@.len() ==> later.order@[i] == self.order@[i]
        &&& forall|i: int| t.lo <= i < t.hi ==> (#[trigger] later.order@[i]) < self.objects@.len()
        &&& is_stable_sort(
            self.objects@,
            axis,
            self.group(),
            later.order@.subrange(t.lo as int, t.hi as int),
        )
    }

    /// Whether `later` has the tables of this builder after the next group
    /// was cut in the middle: two forks were made for the two halves, the
    /// right half's first, and the fork of the group has them as its
    /// children. Halves of more than two objects wait to be split, the left
    /// one first.
    pub open spec fn then_cut(self, later: Builder) -> bool {
        let t = self.tasks@.last();
        let mid = t.lo + (t.hi - t.lo) / 2;
        let a = self.forks@.len();
        let right = later.order@.subrange(mid, t.hi as int);
        let left = later.order@.subrange(t.lo as int, mid);
        &&& later.forks@.len() <= usize::MAX
        &&& later.span@ == self.span@.push(right).push(left)
        &&& later.forks@ == self.forks@.update(
            t.fork as int,
            Fork {
                left: Link::Fork((a + 1) as usize),
                right: Link::Fork(a as usize),
                bbox: self.forks@[t.fork as int].bbox,
            },
        ).push(seat(self.objects@, right)).push(seat(self.objects@, left))
        &&& later.tasks@ == {
            let rest = self.tasks@.drop_last();
            let with_right = if t.hi - mid > 2 {
                rest.push(Task { fork: a as usize, lo: mid as usize, hi: t.hi })
            } else {
                rest
            };
            if mid - t.lo > 2 {
                with_right.push(Task { fork: (a + 1) as usize, lo: t.lo, hi: mid as usize })
            } else {
                with_right
            }
        }
    }

    /// Whether `later` is this builder after its next group was split along
    /// `axis`.
    pub open spec fn then_split(self, axis: int, later: Builder) -> bool {
        self.then_sorted(axis, later) && self.then_cut(later)
    }

    /// Cuts the next group in the middle, once it is sorted.
    fn cut(&mut self)
        requires
            old(self).busy(),
            old(self).tasks@.last().fork < old(self).forks@.len(),
            old(self).tasks@.last().lo + 2 < old(self).tasks@.last().hi <= old(self).order@.len(),
            forall|i: int|
                0 <= i < old(self).order@.len() ==> (#[trigger] old(self).order@[i]) < old(
                    self,
                ).objects@.len(),
        ensures
            old(self).then_cut(*final(self)),
            final(self).objects@ == old(self).objects@,
            final(self).order@ == old(self).order@,
    {
        let ghost before = *self;
        let t = self.tasks.pop().unwrap();
        assert(t == before.tasks@.last());
        assert(self.tasks@ =~= before.tasks@.drop_last());
        let mid = t.lo + (t.hi - t.lo) / 2;
        let a = self.forks.len();
        let bbox = self.forks[t.fork].bbox;
        sprout(&self.objects, &self.order, &mut self.forks, &mut self.tasks, mid, t.hi);
        sprout(&self.objects, &self.order, &mut self.forks, &mut self.tasks, t.lo, mid);
        let count = self.forks.len();
        assert(count == a + 2);
        self.forks.set(t.fork, Fork { left: Link::Fork(a + 1), right: Link::Fork(a), bbox });
        proof {
            let right = self.order@.subrange(mid as int, t.hi as int);
            let left = self.order@.subrange(t.lo as int, mid as int);
            self.span = Ghost(before.span@.push(right).push(left));
            assert(self.forks@ =~= before.forks@.update(
                t.fork as int,
                Fork { left: Link::Fork((a + 1) as usize), right: Link::Fork(a), bbox },
            ).push(seat(self.objects@, right)).push(seat(self.objects@, left)));
        }
    }

    /// Splits the next group along `axis`.
    pub fn split(&mut self, axis: usize)
        requires
            old(self).inv(),
            old(self).busy(),
            axis < 3,
            keyed(old(self).objects@, axis as int, old(self).group()),
        ensures
            final(self).inv(),
            old(self).then_split(axis as int, *final(self)),
            0 <= final(self).work() < old(self).work(),
    {
        let ghost before = *self;
        let n = self.tasks.len();
        proof {
            lemma_next_group(before);
        }
        let t = self.tasks[n - 1];
        assert(before.order@.subrange(t.lo as int, t.hi as int) == before.group());
        sort_range(&mut self.order, &self.objects, axis, t.lo, t.hi);
        let ghost sorted = *self;
        assert forall|i: int| 0 <= i < self.order@.len() implies (#[trigger] self.order@[i])
            < self.objects@.len() by {
            if t.lo <= i < t.hi {
            } else {
                assert(self.order@[i] == before.order@[i]);
            }
        }
        self.cut();
        proof {
            assert(before.then_sorted(axis as int, *self));
            assert(before.then_cut(*self));
            lemma_split_keeps_inv(before, *self, axis as int);
            lemma_waiting_groups_are_large(*self);
            lemma_split_takes_work(before, *self);
        }
    }
}

/// What a builder in order offers to a split: its next group is as it was
/// handed to its fork, and the order names objects.
proof fn lemma_next_group(b: Builder)
    requires
        b.inv(),
        b.busy(),
    ensures
        b.task_ok(b.tasks@.last()),
        b.order@.len() == b.objects@.len(),
        forall|i: int| 0 <= i < b.order@.len() ==> (#[trigger] b.order@[i]) < b.objects@.len(),
{
    reveal(Builder::inv);
    assert(b.task_ok(b.tasks@[b.tasks@.len() - 1]));
}

/// In a builder in order every group that waits has more than two objects.
proof fn lemma_waiting_groups_are_large(b: Builder)
    requires
        b.inv(),
    ensures
        forall|i: int| 0 <= i < b.tasks@.len() ==> (#[trigger] b.tasks@[i]).lo + 2 < b.tasks@[i].hi,
{
    reveal(Builder::inv);
    assert forall|i: int| 0 <= i < b.tasks@.len() implies (#[trigger] b.tasks@[i]).lo + 2
        < b.tasks@[i].hi by {
        assert(b.task_ok(b.tasks@[i]));
    }
}

/// After a split the groups are still not empty and hold objects.
proof fn lemma_split_spans(before: Builder, after: Builder)
    requires
        before.spans_ok(),
        before.tasks_ok(),
        before.busy(),
        before.forks@.len() == before.span@.len(),
        before.forks@.len() >= 1,
        after.objects@ == before.objects@,
        forall|i: int| 0 <= i < after.order@.len() ==> (#[trigger] after.order@[i]) < after.objects@.len(),
        after.order@.len() == before.order@.len(),
        before.then_cut(after),
    ensures
        after.spans_ok(),
        after.span@[0] == before.span@[0],
{
    let t = before.tasks@.last();
    assert(before.task_ok(before.tasks@[before.tasks@.len() - 1]));
    let mid = t.lo + (t.hi - t.lo) / 2;
    let a = before.forks@.len() as int;
    let right = after.order@.subrange(mid, t.hi as int);
    let left = after.order@.subrange(t.lo as int, mid);
    assert forall|k: int| 0 <= k < after.span@.len() implies (#[trigger] after.span@[k]).len() >= 1
        && forall|i: int|
        0 <= i < after.span@[k].len() ==> (#[trigger] after.span@[k][i]) < after.objects@.len() by {
        if k < a {
            assert(after.span@[k] == before.span@[k]);
        } else if k == a {
            assert(after.span@[k] == right);
            assert forall|i: int| 0 <= i < right.len() implies (#[trigger] right[i])
                < after.objects@.len() by {
                assert(right[i] == after.order@[mid + i]);
            }
        } else {
            assert(after.span@[k] == left);
            assert forall|i: int| 0 <= i < left.len() implies (#[trigger] left[i])
                < after.objects@.len() by {
                assert(left[i] == after.order@[t.lo + i]);
            }
        }
    }
}

/// After a split the groups that waited before still wait, as they were.
proof fn lemma_split_old_tasks(before: Builder, after: Builder)
    requires
        before.tasks_ok(),
        before.tasks_apart(),
        before.busy(),
        before.forks@.len() == before.span@.len(),
        after.objects@ == before.objects@,
        after.order@.len() == before.order@.len(),
        forall|i: int|
            0 <= i < before.tasks@.last().lo || before.tasks@.last().hi <= i < before.order@.len()
                ==> after.order@[i] == before.order@[i],
        before.then_cut(after),
    ensures
        forall|i: int|
            0 <= i < before.tasks@.len() - 1 ==> after.task_ok(#[trigger] before.tasks@[i])
                && before.tasks@[i].fork < before.forks@.len() && before.tasks@.last().hi
                <= before.tasks@[i].lo,
{
    let n = before.tasks@.len() as int;
    let t = before.tasks@.last();
    assert(before.task_ok(before.tasks@[n - 1]));
    assert forall|i: int| 0 <= i < n - 1 implies after.task_ok(#[trigger] before.tasks@[i])
        && before.tasks@[i].fork < before.forks@.len() && t.hi <= before.tasks@[i].lo by {
        let u = before.tasks@[i];
        assert(before.task_ok(before.tasks@[i]));
        assert(before.tasks@[n - 1].hi <= before.tasks@[i].lo);
        assert(before.tasks@[i].fork != before.tasks@[n - 1].fork);
        assert(after.order@.subrange(u.lo as int, u.hi as int) =~= before.order@.subrange(
            u.lo as int,
            u.hi as int,
        ));
        assert(after.span@[u.fork as int] == before.span@[u.fork as int]);
        assert(after.forks@[u.fork as int] == before.forks@[u.fork as int]);
    }
}

/// After a split every group that waits is as it was handed to its fork,
/// and the groups that wait are apart.
proof fn lemma_split_tasks(before: Builder, after: Builder)
    requires
        before.tasks_ok(),
        before.tasks_apart(),
        before.busy(),
        before.forks@.len() == before.span@.len(),
        after.objects@ == before.objects@,
        after.order@.len() == before.order@.len(),
        forall|i: int|
            0 <= i < before.tasks@.last().lo || before.tasks@.last().hi <= i < before.order@.len()
                ==> after.order@[i] == before.order@[i],
        before.then_cut(after),
    ensures
        after.tasks_ok(),
        after.tasks_apart(),
{
    lemma_split_old_tasks(before, after);
    let n = before.tasks@.len() as int;
    let t = before.tasks@.last();
    assert(before.task_ok(before.tasks@[n - 1]));
    let mid = t.lo + (t.hi - t.lo) / 2;
    let a = before.forks@.len() as int;
    let right = after.order@.subrange(mid, t.hi as int);
    let left = after.order@.subrange(t.lo as int, mid);
    let rest = before.tasks@.drop_last();
    assert(after.span@[a] == right);
    assert(after.span@[a + 1] == left);
    assert(after.forks@[a] == seat(after.objects@, right));
    assert(after.forks@[a + 1] == seat(after.objects@, left));
    assert forall|i: int| 0 <= i < after.tasks@.len() implies after.task_ok(
        #[trigger] after.tasks@[i],
    ) by {
        if i < rest.len() {
            assert(after.tasks@[i] == before.tasks@[i]);
        }
    }
    assert forall|i: int, j: int| 0 <= i < j < after.tasks@.len() implies (
    #[trigger] after.tasks@[i]).fork != (#[trigger] after.tasks@[j]).fork && after.tasks@[j].hi
        <= after.tasks@[i].lo by {
        if i < rest.len() {
            assert(after.tasks@[i] == before.tasks@[i]);
            if j < rest.len() {
                assert(after.tasks@[j] == before.tasks@[j]);
            }
        }
    }
}

/// After a split every fork is finished or waits.
proof fn lemma_split_nodes(before: Builder, after: Builder)
    requires
        before.nodes_ok(),
        before.tasks_ok(),
        before.busy(),
        before.forks@.len() == before.span@.len(),
        after.objects@ == before.objects@,
        after.order@.len() == before.order@.len(),
        before.then_cut(after),
        halves(
            before.objects@,
            before.group(),
            after.span@[before.forks@.len() as int + 1],
            after.span@[before.forks@.len() as int],
        ),
    ensures
        after.nodes_ok(),
{
    let n = before.tasks@.len() as int;
    let t = before.tasks@.last();
    assert(before.task_ok(before.tasks@[n - 1]));
    let mid = t.lo + (t.hi - t.lo) / 2;
    let a = before.forks@.len() as int;
    let right = after.order@.subrange(mid, t.hi as int);
    let left = after.order@.subrange(t.lo as int, mid);
    let rest = before.tasks@.drop_last();
    let objects = after.objects@;
    let members = before.span@[t.fork as int];
    assert(after.span@[a] == right);
    assert(after.span@[a + 1] == left);
    assert forall|k: int| 0 <= k < after.forks@.len() implies after.waits(k) || #[trigger] node_ok(
        objects,
        after.forks@,
        after.span@,
        k,
    ) by {
        if k == t.fork {
            assert(after.span@[k] == members);
            assert(node_ok(objects, after.forks@, after.span@, k));
        } else if k == a {
            if t.hi - mid > 2 {
                assert(after.tasks@[rest.len() as int].fork == a);
                assert(after.waits(k));
            } else {
                assert(node_ok(objects, after.forks@, after.span@, k));
            }
        } else if k == a + 1 {
            if mid - t.lo > 2 {
                assert(after.tasks@[after.tasks@.len() - 1].fork == a + 1);
                assert(after.waits(k));
            } else {
                assert(node_ok(objects, after.forks@, after.span@, k));
            }
        } else {
            assert(after.forks@[k] == before.forks@[k]);
            assert(after.span@[k] == before.span@[k]);
            if before.waits(k) {
                let i = choose|i: int|
                    0 <= i < before.tasks@.len() && #[trigger] before.tasks@[i].fork == k;
                assert(i < n - 1);
                assert(after.tasks@[i] == before.tasks@[i]);
                assert(after.waits(k));
            } else {
                assert(node_ok(before.objects@, before.forks@, before.span@, k));
                if before.span@[k].len() > 2 {
                    let x = before.forks@[k].left->Fork_0;
                    let y = before.forks@[k].right->Fork_0;
                    assert(after.span@[x as int] == before.span@[x as int]);
                    assert(after.span@[y as int] == before.span@[y as int]);
                }
                assert(node_ok(objects, after.forks@, after.span@, k));
            }
        }
    }
}

/// The work of a list of groups that are each of more than two objects is
/// not below zero.
proof fn lemma_work_is_natural(tasks: Seq<Task>)
    requires
        forall|i: int| 0 <= i < tasks.len() ==> (#[trigger] tasks[i]).lo + 2 < tasks[i].hi,
    ensures
        work_of(tasks) >= 0,
    decreases tasks.len(),
{
    if tasks.len() > 0 {
        assert(tasks.last() == tasks[tasks.len() - 1]);
        assert forall|i: int| 0 <= i < tasks.drop_last().len() implies (
        #[trigger] tasks.drop_last()[i]).lo + 2 < tasks.drop_last()[i].hi by {
            assert(tasks.drop_last()[i] == tasks[i]);
        }
        lemma_work_is_natural(tasks.drop_last());
    }
}

/// The work of a list with one more group.
proof fn lemma_work_with(tasks: Seq<Task>, t: Task)
    ensures
        work_of(tasks.push(t)) == work_of(tasks) + (t.hi - t.lo - 2),
{
    assert(tasks.push(t).drop_last() =~= tasks);
    assert(tasks.push(t).last() == t);
}

/// A split leaves less work than there was.
proof fn lemma_split_takes_work(before: Builder, after: Builder)
    requires
        before.busy(),
        before.task_ok(before.tasks@.last()),
        forall|i: int|
            0 <= i < after.tasks@.len() ==> (#[trigger] after.tasks@[i]).lo + 2 < after.tasks@[i].hi,
        before.then_cut(after),
    ensures
        0 <= after.work() < before.work(),
{
    let t = before.tasks@.last();
    let mid = t.lo + (t.hi - t.lo) / 2;
    let a = before.forks@.len();
    let rest = before.tasks@.drop_last();
    let tr = Task { fork: a as usize, lo: mid as usize, hi: t.hi };
    let tl = Task { fork: (a + 1) as usize, lo: t.lo, hi: mid as usize };
    assert(t.lo < mid < t.hi);
    assert(tr.hi - tr.lo == t.hi - mid);
    assert(tl.hi - tl.lo == mid - t.lo);
    assert(work_of(before.tasks@) == work_of(rest) + (t.hi - t.lo - 2));
    lemma_work_is_natural(after.tasks@);
    if t.hi - mid > 2 {
        lemma_work_with(rest, tr);
        if mid - t.lo > 2 {
            lemma_work_with(rest.push(tr), tl);
            assert(after.tasks@ == rest.push(tr).push(tl));
        } else {
            assert(after.tasks@ == rest.push(tr));
        }
    } else {
        if mid - t.lo > 2 {
            lemma_work_with(rest, tl);
            assert(after.tasks@ == rest.push(tl));
        } else {
            assert(after.tasks@ == rest);
        }
    }
}

/// A split keeps a builder in order.
pub proof fn lemma_split_keeps_inv(before: Builder, after: Builder, axis: int)
    requires
        before.inv(),
        before.busy(),
        0 <= axis < 3,
        before.then_split(axis, after),
    ensures
        after.inv(),
{
    reveal(Builder::inv);
    let t = before.tasks@.last();
    assert(before.task_ok(before.tasks@[before.tasks@.len() - 1]));
    let mid = t.lo + (t.hi - t.lo) / 2;
    let a = before.forks@.len() as int;
    assert forall|i: int| 0 <= i < after.order@.len() implies (#[trigger] after.order@[i])
        < after.objects@.len() by {
        if t.lo <= i < t.hi {
        } else {
            assert(after.order@[i] == before.order@[i]);
        }
    }
    lemma_split_spans(before, after);
    lemma_split_tasks(before, after);
    let right = after.order@.subrange(mid, t.hi as int);
    let left = after.order@.subrange(t.lo as int, mid);
    assert(after.span@[a] == right);
    assert(after.span@[a + 1] == left);
    assert(halves(before.objects@, before.group(), left, right)) by {
        reveal(halves);
        assert(left + right =~= after.order@.subrange(t.lo as int, t.hi as int));
    }
    lemma_split_nodes(before, after);
}

impl Builder {
    /// Whether the next group can be sorted along `axis`: there is one, and
    /// the box of each of its objects starts at a number on that axis.
    pub fn sortable(&self, axis: usize) -> (r: bool)
        requires
            self.inv(),
            axis < 3,
        ensures
            r == (self.busy() && keyed(self.objects@, axis as int, self.group())),
    {
        let n = self.tasks.len();
        if n == 0 {
            return false;
        }
        proof {
            lemma_next_group(*self);
        }
        let t = self.tasks[n - 1];
        let ghost group = self.order@.subrange(t.lo as int, t.hi as int);
        assert(t == self.tasks@.last());
        assert(group == self.group());
        let mut i: usize = t.lo;
        while i < t.hi
            invariant
                axis < 3,
                t.lo <= i <= t.hi <= self.order@.len(),
                group == self.order@.subrange(t.lo as int, t.hi as int),
                group == self.group(),
                forall|m: int| 0 <= m < self.order@.len() ==> (#[trigger] self.order@[m]) < self.objects@.len(),
                forall|m: int|
                    0 <= m < i - t.lo ==> (#[trigger] group[m]) < self.objects@.len() && !key(
                        self.objects@,
                        axis as int,
                        group[m],
                    ).nan(),
            decreases t.hi - i,
        {
            assert(group[i - t.lo] == self.order@[i as int]);
            if key_of(&self.objects, axis, self.order[i]).is_nan() {
                proof {
                    assert(key(self.objects@, axis as int, group[i - t.lo]).nan());
                }
                return false;
            }
            i = i + 1;
        }
        true
    }

    /// Splits the next group along the longest axis of its box, if there is
    /// a group and it can be sorted along that axis. `extent` is the extent
    /// of the box that `pending` hands out, on each axis its end minus its
    /// start. Where nothing is split, nothing changes.
    pub fn split_longest(&mut self, extent: &Vec3) -> (done: bool)
        requires
            old(self).inv(),
        ensures
            final(self).inv(),
            done == (old(self).busy() && keyed(
                old(self).objects@,
                AABB::longest(*extent),
                old(self).group(),
            )),
            done ==> old(self).then_split(AABB::longest(*extent), *final(self)),
            done ==> 0 <= final(self).work() < old(self).work(),
            !done ==> *final(self) == *old(self),
    {
        let axis = AABB::longest_axis(extent);
        if !self.sortable(axis) {
            return false;
        }
        self.split(axis);
        true
    }
}

impl BVHNode {
    /// Begins the hierarchy over the objects of a list: one fork over all of
    /// them, which waits to be split if they are more than two.
    pub fn from(list: HittableList) -> (b: Builder)
        requires
            list.objects@.len() >= 1,
        ensures
            b.inv(),
            b.objects@ == list.objects@,
            b.span@ == seq![Seq::new(list.objects@.len(), |i: int| i as usize)],
            b.forks@ == seq![seat(b.objects@, b.span@[0])],
            b.busy() <==> list.objects@.len() > 2,
            b.busy() ==> b.tasks@ == seq![Task { fork: 0, lo: 0, hi: list.objects@.len() as usize }],
    {
        let objects = list.objects;
        let n = objects.len();
        let mut order: Vec<usize> = Vec::new();
        let mut i: usize = 0;
        while i < n
            invariant
                i <= n,
                order@ == Seq::new(i as nat, |k: int| k as usize),
            decreases n - i,
        {
            order.push(i);
            i = i + 1;
            assert(order@ =~= Seq::new(i as nat, |k: int| k as usize));
        }
        let mut forks: Vec<Fork> = Vec::new();
        let mut tasks: Vec<Task> = Vec::new();
        sprout(&objects, &order, &mut forks, &mut tasks, 0, n);
        let ghost all = order@;
        let span: Ghost<Seq<Seq<usize>>> = Ghost(Seq::empty().push(all));
        let b = Builder { objects, order, forks, tasks, span };
        proof {
            reveal(Builder::inv);
            assert(b.span@ =~= seq![all]);
            assert(b.order@.subrange(0, n as int) =~= all);
            assert(b.span@[0] == all);
            if n > 2 {
                assert(b.tasks@[0].fork == 0);
                assert(b.waits(0));
            } else {
                assert(node_ok(b.objects@, b.forks@, b.span@, 0));
            }
        }
        b
    }
}

impl Builder {
    /// The hierarchy, once no group is left to split.
    pub fn finish(self) -> (tree: BVHNode)
        requires
            self.inv(),
            !self.busy(),
        ensures
            tree.wf(),
            tree.objects@ == self.objects@,
            tree.forks@ == self.forks@,
            tree.built(0, Seq::new(tree.objects@.len(), |i: int| i as usize)),
    {
        proof {
            reveal(Builder::inv);
        }
        let bbox = self.forks[0].bbox;
        let tree = BVHNode { objects: self.objects, forks: self.forks, bbox };
        proof {
            assert forall|k: int| 0 <= k < tree.forks@.len() implies #[trigger] node_ok(
                tree.objects@,
                tree.forks@,
                self.span@,
                k,
            ) by {
                assert(!self.waits(k));
            }
            lemma_finished_is_well_formed(tree, self.span@);
            lemma_finished_is_built(tree, self.span@, 0);
            assert(self.span@[0] == Seq::new(tree.objects@.len(), |i: int| i as usize));
        }
        tree
    }
}

/// A table of finished forks is a well-formed tree.
proof fn lemma_finished_is_well_formed(tree: BVHNode, span: Seq<Seq<usize>>)
    requires
        tree.forks@.len() == span.len(),
        tree.forks@.len() >= 1,
        tree.bbox == tree.forks@[0].bbox,
        forall|k: int|
            0 <= k < span.len() ==> (#[trigger] span[k]).len() >= 1 && forall|i: int|
                0 <= i < span[k].len() ==> (#[trigger] span[k][i]) < tree.objects@.len(),
        forall|k: int|
            0 <= k < tree.forks@.len() ==> #[trigger] node_ok(tree.objects@, tree.forks@, span, k),
    ensures
        tree.wf(),
{
    assert forall|k: int| 0 <= k < tree.forks@.len() implies tree.link_ok(
        k,
        #[trigger] tree.forks@[k].left,
    ) && tree.link_ok(k, tree.forks@[k].right) by {
        assert(node_ok(tree.objects@, tree.forks@, span, k));
        let members = span[k];
        assert(members.len() >= 1);
        assert(members[0] < tree.objects@.len());
        if members.len() == 2 {
            assert(members[1] < tree.objects@.len());
        }
    }
}

/// Under a table of finished forks, each fork heads the hierarchy over its
/// group.
proof fn lemma_finished_is_built(tree: BVHNode, span: Seq<Seq<usize>>, k: int)
    requires
        0 <= k < tree.forks@.len(),
        tree.forks@.len() == span.len(),
        forall|k: int|
            0 <= k < span.len() ==> (#[trigger] span[k]).len() >= 1 && forall|i: int|
                0 <= i < span[k].len() ==> (#[trigger] span[k][i]) < tree.objects@.len(),
        forall|k: int|
            0 <= k < tree.forks@.len() ==> #[trigger] node_ok(tree.objects@, tree.forks@, span, k),
    ensures
        tree.built(k, span[k]),
    decreases tree.forks@.len() - k,
{
    assert(node_ok(tree.objects@, tree.forks@, span, k));
    let members = span[k];
    assert(members.len() >= 1);
    if members.len() > 2 {
        let a = tree.forks@[k].left->Fork_0 as int;
        let b = tree.forks@[k].right->Fork_0 as int;
        lemma_finished_is_built(tree, span, a);
        lemma_finished_is_built(tree, span, b);
        assert(halves(tree.objects@, members, span[a], span[b]));
    }
}

/// An entry of two sequences joined is an entry of one of them.
proof fn lemma_joined_contains<A>(s: Seq<A>, t: Seq<A>, x: A)
    ensures
        (s + t).contains(x) <==> s.contains(x) || t.contains(x),
{
    if (s + t).contains(x) {
        let i = choose|i: int| 0 <= i < (s + t).len() && (s + t)[i] == x;
        if i < s.len() {
            assert(s[i] == x);
        } else {
            assert(t[i - s.len()] == x);
        }
    }
    if s.contains(x) {
        let i = choose|i: int| 0 <= i < s.len() && s[i] == x;
        assert((s + t)[i] == x);
    }
    if t.contains(x) {
        let i = choose|i: int| 0 <= i < t.len() && t[i] == x;
        assert((s + t)[s.len() + i] == x);
    }
}

/// The objects under the fork over a group of one or two are the objects of
/// the group.
proof fn lemma_small_covers(tree: BVHNode, k: usize, members: Seq<usize>, x: usize)
    requires
        tree.built(k as int, members),
        members.len() <= 2,
    ensures
        tree.leaves(Link::Fork(k)).contains(x as int) <==> members.contains(x),
{
    let fork = tree.forks@[k as int];
    assert(fork == seat(tree.objects@, members));
    assert(members[0] < tree.objects@.len());
    let l = tree.leaves(Link::Fork(k));
    if members.len() == 2 {
        assert(members[1] < tree.objects@.len());
        assert(tree.leaves(fork.left) =~= seq![members[0] as int]);
        assert(tree.leaves(fork.right) =~= seq![members[1] as int]);
        assert(l =~= seq![members[0] as int, members[1] as int]);
        assert(l[0] == members[0] && l[1] == members[1]);
        if members.contains(x) {
            let i = choose|i: int| 0 <= i < members.len() && members[i] == x;
            assert(l[i] == x as int);
        }
        if l.contains(x as int) {
            let i = choose|i: int| 0 <= i < l.len() && l[i] == x as int;
            assert(members[i] == x);
        }
    } else {
        assert(tree.leaves(fork.left) =~= seq![members[0] as int]);
        assert(l =~= seq![members[0] as int, members[0] as int]);
        assert(l[0] == members[0] && l[1] == members[0]);
        if members.contains(x) {
            let i = choose|i: int| 0 <= i < members.len() && members[i] == x;
            assert(l[0] == x as int);
        }
        if l.contains(x as int) {
            let i = choose|i: int| 0 <= i < l.len() && l[i] == x as int;
            assert(members[0] == x);
        }
    }
}

/// The objects under the root of a hierarchy over a group are the objects
/// of the group: each is there, and nothing else is.
pub proof fn lemma_built_covers(tree: BVHNode, k: usize, members: Seq<usize>, x: usize)
    requires
        tree.built(k as int, members),
    ensures
        tree.leaves(Link::Fork(k)).contains(x as int) <==> members.contains(x),
    decreases tree.forks@.len() - k,
{
    let fork = tree.forks@[k as int];
    if members.len() <= 2 {
        lemma_small_covers(tree, k, members, x);
    } else {
        let a = fork.left->Fork_0;
        let b = fork.right->Fork_0;
        let (left, right) = choose|left: Seq<usize>, right: Seq<usize>|
            #![trigger halves(tree.objects@, members, left, right)]
            halves(tree.objects@, members, left, right) && k < fork.left->Fork_0
                < tree.forks@.len() && tree.built(fork.left->Fork_0 as int, left) && k
                < fork.right->Fork_0 < tree.forks@.len() && tree.built(
                fork.right->Fork_0 as int,
                right,
            );
        lemma_built_covers(tree, a, left, x);
        lemma_built_covers(tree, b, right, x);
        assert(members.contains(x) <==> (left + right).contains(x)) by {
            reveal(halves);
            let axis = choose|axis: int|
                #![trigger is_stable_sort(tree.objects@, axis, members, left + right)]
                0 <= axis < 3 && is_stable_sort(tree.objects@, axis, members, left + right);
            lemma_sort_keeps_entries(tree.objects@, axis, members, left + right, x);
        }
        let la = tree.leaves(Link::Fork(a));
        let lb = tree.leaves(Link::Fork(b));
        assert(fork.left == Link::Fork(a) && fork.right == Link::Fork(b));
        assert(tree.leaves(Link::Fork(k)) == la + lb);
        lemma_joined_contains(la, lb, x as int);
        lemma_joined_contains(left, right, x);
    }
}

} // verus!
