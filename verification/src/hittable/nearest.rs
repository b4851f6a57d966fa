//! The two searches find the same hit.
use vstd::prelude::*;
use crate::hittable::bvh::{BVHNode, Link};
use crate::hittable::bvh_build::lemma_built_covers;
use crate::hittable::hittable_list::Scan;
use crate::hittable::sphere::lemma_root_survives_shrinking;
use crate::hittable::sphere::Sphere;
use crate::hittable::HitRecord;
use crate::primitive::interval::Interval;
use crate::primitive::scalar::Scalar;

verus! {

/// A hit as a window that ends at `end` lets it through: the hit if it lies
/// before the end, else none.
pub open spec fn within(hit: Option<HitRecord>, end: Scalar) -> Option<HitRecord> {
    match hit {
        Some(rec) => if rec.t.less(end) {
            Some(rec)
        } else {
            None
        },
        None => None,
    }
}

/// The window from `start` to `end`.
pub open spec fn window(start: Scalar, end: Scalar) -> Interval {
    Interval { start, end }
}

/// Whether each of `count` objects has one hit to offer: what it reports in
/// a window that ends earlier than `end` is what it reports in the window up
/// to `end`, if that lies in the smaller window, and nothing else.
pub open spec fn steady(
    object: spec_fn(int, Interval) -> Option<HitRecord>,
    count: int,
    start: Scalar,
    end: Scalar,
) -> bool {
    forall|i: int, e: Scalar|
        0 <= i < count && e.at_most(end) ==> #[trigger] object(i, window(start, e)) == within(
            object(i, window(start, end)),
            e,
        )
}

/// What a sphere reports in a window that ends at `end`, from the
/// discriminant and the roots of its intersection equation: the record that
/// belongs to the root that counts.
pub open spec fn sphere_hit(
    discriminant: Scalar,
    near: Scalar,
    far: Scalar,
    record: spec_fn(Scalar) -> HitRecord,
    start: Scalar,
    end: Scalar,
) -> Option<HitRecord> {
    match Sphere::root_within(discriminant, near, far, window(start, end)) {
        Some(t) => Some(record(t)),
        None => None,
    }
}

/// A sphere has one hit to offer: what it reports in a window that ends
/// earlier is what it reports in the wider window, if that lies in the
/// smaller one, and nothing else.
pub proof fn lemma_sphere_is_steady(
    discriminant: Scalar,
    near: Scalar,
    far: Scalar,
    record: spec_fn(Scalar) -> HitRecord,
    start: Scalar,
    end: Scalar,
    e: Scalar,
)
    requires
        near.at_most(far),
        e.at_most(end),
        forall|t: Scalar| (#[trigger] record(t)).t == t,
    ensures
        sphere_hit(discriminant, near, far, record, start, e) == within(
            sphere_hit(discriminant, near, far, record, start, end),
            e,
        ),
{
    lemma_root_survives_shrinking(discriminant, near, far, window(start, end), e);
}

/// Whether no two of `count` objects are hit at the same ray parameter.
pub open spec fn no_ties(
    object: spec_fn(int, Interval) -> Option<HitRecord>,
    count: int,
    start: Scalar,
    end: Scalar,
) -> bool {
    forall|i: int, j: int|
        0 <= i < count && 0 <= j < count && i != j ==> match (
            #[trigger] object(i, window(start, end)),
            #[trigger] object(j, window(start, end)),
        ) {
            (Some(a), Some(b)) => !a.t.same(b.t),
            _ => true,
        }
}

/// Whether the boxes of a tree are reported as crossed wherever something in
/// them is hit: if an object under fork `k` is hit within a window, the box
/// of fork `k` is crossed within that window.
pub open spec fn conservative(
    tree: BVHNode,
    bounds: spec_fn(int, Interval) -> bool,
    object: spec_fn(int, Interval) -> Option<HitRecord>,
    start: Scalar,
    end: Scalar,
) -> bool {
    forall|k: int, n: int, e: Scalar|
        0 <= k < tree.forks@.len() && 0 <= n < tree.leaves(Link::Fork(k as usize)).len()
            && e.at_most(end) && (#[trigger] object(
            tree.leaves(Link::Fork(k as usize))[n],
            window(start, e),
        )) is Some ==> #[trigger] bounds(k, window(start, e))
}

/// Whether `found` is the nearest of the hits that the objects listed in
/// `among` have to offer before `end`: none if none has one, else a hit of
/// one of them that lies before `end` and no farther than any other.
pub open spec fn is_nearest(
    found: Option<HitRecord>,
    among: Seq<int>,
    offer: spec_fn(int) -> Option<HitRecord>,
    end: Scalar,
) -> bool {
    match found {
        None => forall|n: int| 0 <= n < among.len() ==> within(offer(#[trigger] among[n]), end) is None,
        Some(rec) => {
            &&& rec.t.less(end)
            &&& exists|n: int| 0 <= n < among.len() && offer(#[trigger] among[n]) == Some(rec)
            &&& forall|n: int|
                0 <= n < among.len() ==> (offer(#[trigger] among[n]) matches Some(other)
                    ==> rec.t.at_most(other.t))
        },
    }
}

/// The nearest hit is the same for two lists of the same objects, when no
/// two objects are hit at the same parameter.
pub proof fn lemma_nearest_is_unique(
    a: Option<HitRecord>,
    b: Option<HitRecord>,
    first: Seq<int>,
    second: Seq<int>,
    offer: spec_fn(int) -> Option<HitRecord>,
    end: Scalar,
)
    requires
        is_nearest(a, first, offer, end),
        is_nearest(b, second, offer, end),
        forall|x: int| first.contains(x) <==> second.contains(x),
        forall|x: int, y: int|
            first.contains(x) && first.contains(y) && x != y ==> match (
                #[trigger] offer(x),
                #[trigger] offer(y),
            ) {
                (Some(p), Some(q)) => !p.t.same(q.t),
                _ => true,
            },
    ensures
        a == b,
{
    match (a, b) {
        (None, None) => {},
        (Some(r), None) => {
            let n = choose|n: int| 0 <= n < first.len() && offer(#[trigger] first[n]) == Some(r);
            assert(first.contains(first[n]));
            assert(second.contains(first[n]));
            let m = choose|m: int| 0 <= m < second.len() && second[m] == first[n];
            assert(within(offer(second[m]), end) is None);
        },
        (None, Some(q)) => {
            let n = choose|n: int| 0 <= n < second.len() && offer(#[trigger] second[n]) == Some(q);
            assert(second.contains(second[n]));
            assert(first.contains(second[n]));
            let m = choose|m: int| 0 <= m < first.len() && first[m] == second[n];
            assert(within(offer(first[m]), end) is None);
        },
        (Some(r), Some(q)) => {
            let n = choose|n: int| 0 <= n < first.len() && offer(#[trigger] first[n]) == Some(r);
            let m = choose|m: int| 0 <= m < second.len() && offer(#[trigger] second[m]) == Some(q);
            let x = first[n];
            let y = second[m];
            assert(first.contains(x));
            assert(second.contains(y));
            assert(first.contains(y));
            assert(second.contains(x));
            let m2 = choose|m2: int| 0 <= m2 < first.len() && first[m2] == y;
            let n2 = choose|n2: int| 0 <= n2 < second.len() && second[n2] == x;
            assert(offer(first[m2]) == Some(q));
            assert(r.t.at_most(q.t));
            assert(offer(second[n2]) == Some(r));
            assert(q.t.at_most(r.t));
            if x != y {
                assert(!r.t.same(q.t));
            }
        },
    }
}

/// Whether `offer` gives for each of `count` objects what it reports in the
/// window up to `end`.
pub open spec fn offers(
    offer: spec_fn(int) -> Option<HitRecord>,
    object: spec_fn(int, Interval) -> Option<HitRecord>,
    count: int,
    start: Scalar,
    end: Scalar,
) -> bool {
    forall|i: int| 0 <= i < count ==> #[trigger] offer(i) == object(i, window(start, end))
}

/// What steady objects report lies before the end of the window.
proof fn lemma_offer_before_end(
    offer: spec_fn(int) -> Option<HitRecord>,
    object: spec_fn(int, Interval) -> Option<HitRecord>,
    count: int,
    start: Scalar,
    end: Scalar,
    i: int,
)
    requires
        !end.nan(),
        steady(object, count, start, end),
        offers(offer, object, count, start, end),
        0 <= i < count,
    ensures
        offer(i) matches Some(rec) ==> rec.t.less(end),
        forall|e: Scalar| e.at_most(end) ==> #[trigger] object(i, window(start, e)) == within(offer(i), e),
{
    assert(end.at_most(end));
    assert(object(i, window(start, end)) == within(object(i, window(start, end)), end));
    assert(offer(i) == object(i, window(start, end)));
}

/// The linear search ends with the nearest hit of all objects.
pub proof fn lemma_scan_finds_nearest(
    scan: Scan,
    offer: spec_fn(int) -> Option<HitRecord>,
    object: spec_fn(int, Interval) -> Option<HitRecord>,
    end: Scalar,
)
    requires
        !end.nan(),
        scan.index <= scan.count,
        scan.closest_so_far == BVHNode::pulled(end, scan.found),
        steady(object, scan.count as int, scan.start, end),
        offers(offer, object, scan.count as int, scan.start, end),
        is_nearest(scan.found, Seq::new(scan.index as nat, |i: int| i), offer, end),
    ensures
        is_nearest(scan.outcome(object), Seq::new(scan.count as nat, |i: int| i), offer, end),
    decreases scan.count - scan.index,
{
    if scan.index < scan.count {
        let k = scan.index as int;
        let seen = Seq::new(scan.index as nat, |i: int| i);
        let more = Seq::new((scan.index + 1) as nat, |i: int| i);
        lemma_offer_before_end(offer, object, scan.count as int, scan.start, end, k);
        assert(scan.closest_so_far.at_most(end));
        let probe = object(k, scan.window());
        assert(scan.window() == window(scan.start, scan.closest_so_far));
        assert(probe == within(offer(k), scan.closest_so_far));
        let next = scan.after(probe);
        assert(is_nearest(next.found, more, offer, end)) by {
            assert forall|n: int| 0 <= n < k implies more[n] == seen[n] by {}
            assert(more[k] == k);
            match probe {
                Some(rec) => {
                    assert(offer(more[k]) == Some(rec));
                    assert forall|n: int| 0 <= n < more.len() implies (offer(#[trigger] more[n]) matches Some(
                        other,
                    ) ==> rec.t.at_most(other.t)) by {
                        if n < k {
                            lemma_offer_before_end(
                                offer,
                                object,
                                scan.count as int,
                                scan.start,
                                end,
                                n,
                            );
                            assert(seen[n] == n);
                            if scan.found is None {
                                assert(within(offer(seen[n]), end) is None);
                            }
                        }
                    }
                },
                None => {
                    match scan.found {
                        None => {
                            assert forall|n: int| 0 <= n < more.len() implies within(
                                offer(#[trigger] more[n]),
                                end,
                            ) is None by {
                                if n < k {
                                    assert(seen[n] == n);
                                }
                            }
                        },
                        Some(f) => {
                            let w = choose|w: int| 0 <= w < seen.len() && offer(#[trigger] seen[w]) == Some(f);
                            assert(offer(more[w]) == Some(f));
                            assert forall|n: int| 0 <= n < more.len() implies (offer(
                                #[trigger] more[n],
                            ) matches Some(other) ==> f.t.at_most(other.t)) by {
                                if n < k {
                                    assert(seen[n] == n);
                                }
                            }
                        },
                    }
                },
            }
        }
        lemma_scan_finds_nearest(next, offer, object, end);
    } else {
        assert(Seq::new(scan.index as nat, |i: int| i) =~= Seq::new(scan.count as nat, |i: int| i));
    }
}

/// Whether a link names an object or a fork of the tree.
pub open spec fn valid_link(tree: BVHNode, link: Link) -> bool {
    match link {
        Link::Leaf(i) => i < tree.objects@.len(),
        Link::Fork(k) => k < tree.forks@.len(),
    }
}

/// The nearest of two groups, from the nearest of the first and the nearest
/// of the second in the window that ends at the hit in the first.
proof fn lemma_nearest_of_joined(
    left: Option<HitRecord>,
    right: Option<HitRecord>,
    first: Seq<int>,
    second: Seq<int>,
    offer: spec_fn(int) -> Option<HitRecord>,
    e: Scalar,
    end: Scalar,
)
    requires
        e.at_most(end),
        is_nearest(left, first, offer, e),
        is_nearest(right, second, offer, BVHNode::pulled(e, left)),
        forall|n: int| 0 <= n < first.len() ==> (offer(#[trigger] first[n]) matches Some(rec) ==> rec.t.less(end)),
        forall|n: int| 0 <= n < second.len() ==> (offer(#[trigger] second[n]) matches Some(rec) ==> rec.t.less(end)),
    ensures
        is_nearest(
            if right is Some {
                right
            } else {
                left
            },
            first + second,
            offer,
            e,
        ),
{
    let both = first + second;
    assert forall|n: int| 0 <= n < both.len() implies #[trigger] both[n] == (if n < first.len() {
        first[n]
    } else {
        second[n - first.len()]
    }) by {}
    match right {
        Some(r) => {
            let w = choose|w: int| 0 <= w < second.len() && offer(#[trigger] second[w]) == Some(r);
            assert(both[first.len() + w] == second[w]);
            assert(offer(both[first.len() + w]) == Some(r));
            assert forall|n: int| 0 <= n < both.len() implies (offer(#[trigger] both[n]) matches Some(
                other,
            ) ==> r.t.at_most(other.t)) by {
                if n < first.len() {
                    assert(both[n] == first[n]);
                    if left is None {
                        assert(within(offer(first[n]), e) is None);
                    }
                } else {
                    assert(both[n] == second[n - first.len()]);
                }
            }
        },
        None => {
            match left {
                Some(l) => {
                    let w = choose|w: int| 0 <= w < first.len() && offer(#[trigger] first[w]) == Some(l);
                    assert(both[w] == first[w]);
                    assert(offer(both[w]) == Some(l));
                    assert forall|n: int| 0 <= n < both.len() implies (offer(
                        #[trigger] both[n],
                    ) matches Some(other) ==> l.t.at_most(other.t)) by {
                        if n < first.len() {
                            assert(both[n] == first[n]);
                        } else {
                            assert(both[n] == second[n - first.len()]);
                            assert(within(offer(second[n - first.len()]), l.t) is None);
                        }
                    }
                },
                None => {
                    assert forall|n: int| 0 <= n < both.len() implies within(
                        offer(#[trigger] both[n]),
                        e,
                    ) is None by {
                        if n < first.len() {
                            assert(both[n] == first[n]);
                        } else {
                            assert(both[n] == second[n - first.len()]);
                        }
                    }
                },
            }
        },
    }
}

/// The objects under a valid link are objects of the tree.
pub proof fn lemma_leaves_are_objects(tree: BVHNode, link: Link, n: int)
    requires
        valid_link(tree, link),
        0 <= n < tree.leaves(link).len(),
    ensures
        0 <= tree.leaves(link)[n] < tree.objects@.len(),
    decreases tree.height(link),
{
    match link {
        Link::Leaf(_) => {},
        Link::Fork(k) => {
            let fork = tree.forks@[k as int];
            let first = tree.leaves(fork.left);
            if n < first.len() {
                lemma_leaves_are_objects(tree, fork.left, n);
            } else {
                lemma_leaves_are_objects(tree, fork.right, n - first.len());
            }
        },
    }
}

/// The search down the tree finds, under any link, the nearest hit of the
/// objects under it.
pub proof fn lemma_tree_finds_nearest(
    tree: BVHNode,
    link: Link,
    start: Scalar,
    e: Scalar,
    end: Scalar,
    bounds: spec_fn(int, Interval) -> bool,
    object: spec_fn(int, Interval) -> Option<HitRecord>,
    offer: spec_fn(int) -> Option<HitRecord>,
)
    requires
        valid_link(tree, link),
        !end.nan(),
        e.at_most(end),
        steady(object, tree.objects@.len() as int, start, end),
        offers(offer, object, tree.objects@.len() as int, start, end),
        conservative(tree, bounds, object, start, end),
    ensures
        is_nearest(tree.hit_under(link, start, e, bounds, object), tree.leaves(link), offer, e),
    decreases tree.height(link),
{
    let count = tree.objects@.len() as int;
    let among = tree.leaves(link);
    assert forall|n: int| 0 <= n < among.len() implies 0 <= #[trigger] among[n] < count && (offer(
        among[n],
    ) matches Some(rec) ==> rec.t.less(end)) && object(among[n], window(start, e)) == within(
        offer(among[n]),
        e,
    ) by {
        lemma_leaves_are_objects(tree, link, n);
        lemma_offer_before_end(offer, object, count, start, end, among[n]);
    }
    match link {
        Link::Leaf(i) => {
            assert(among[0] == i);
            assert(tree.hit_under(link, start, e, bounds, object) == object(i as int, window(start, e)));
        },
        Link::Fork(k) => {
            let fork = tree.forks@[k as int];
            if tree.link_ok(k as int, fork.left) && tree.link_ok(k as int, fork.right) {
                if bounds(k as int, window(start, e)) {
                    let left = tree.hit_under(fork.left, start, e, bounds, object);
                    let e2 = BVHNode::pulled(e, left);
                    lemma_tree_finds_nearest(tree, fork.left, start, e, end, bounds, object, offer);
                    assert(e2.at_most(end));
                    lemma_tree_finds_nearest(tree, fork.right, start, e2, end, bounds, object, offer);
                    let right = tree.hit_under(fork.right, start, e2, bounds, object);
                    let first = tree.leaves(fork.left);
                    let second = tree.leaves(fork.right);
                    assert(among == first + second);
                    assert forall|n: int| 0 <= n < first.len() implies (offer(
                        #[trigger] first[n],
                    ) matches Some(rec) ==> rec.t.less(end)) by {
                        assert(among[n] == first[n]);
                    }
                    assert forall|n: int| 0 <= n < second.len() implies (offer(
                        #[trigger] second[n],
                    ) matches Some(rec) ==> rec.t.less(end)) by {
                        assert(among[first.len() + n] == second[n]);
                    }
                    lemma_nearest_of_joined(left, right, first, second, offer, e, end);
                } else {
                    assert forall|n: int| 0 <= n < among.len() implies within(
                        offer(#[trigger] among[n]),
                        e,
                    ) is None by {
                        if object(among[n], window(start, e)) is Some {
                            let kk = k as int;
                            assert(Link::Fork(kk as usize) == link);
                            assert(object(
                                tree.leaves(Link::Fork(kk as usize))[n],
                                window(start, e),
                            ) is Some);
                            assert(bounds(kk, window(start, e)));
                        }
                    }
                }
            } else {
                assert(among.len() == 0);
            }
        },
    }
}

/// The search down a hierarchy and the linear search through its objects
/// find the same hit. This holds for objects that have one hit to offer,
/// no two of them at the same ray parameter, and for boxes that are reported
/// as crossed wherever something in them is hit.
pub proof fn lemma_hierarchy_matches_scan(
    tree: BVHNode,
    ray_t: Interval,
    bounds: spec_fn(int, Interval) -> bool,
    object: spec_fn(int, Interval) -> Option<HitRecord>,
)
    requires
        tree.wf(),
        tree.built(0, Seq::new(tree.objects@.len(), |i: int| i as usize)),
        !ray_t.end.nan(),
        steady(object, tree.objects@.len() as int, ray_t.start, ray_t.end),
        no_ties(object, tree.objects@.len() as int, ray_t.start, ray_t.end),
        conservative(tree, bounds, object, ray_t.start, ray_t.end),
    ensures
        tree.hit_under(Link::Fork(0), ray_t.start, ray_t.end, bounds, object) == Scan::begun(
            tree.objects@.len(),
            ray_t,
        ).outcome(object),
{
    let count = tree.objects.len();
    let start = ray_t.start;
    let end = ray_t.end;
    let offer = |i: int| object(i, window(start, end));
    let scan = Scan::begun(tree.objects@.len(), ray_t);
    assert(scan.count == count);
    let all = Seq::new(count as nat, |i: int| i);
    let none = Seq::new(0, |i: int| i);
    assert(is_nearest(scan.found, none, offer, end));
    lemma_scan_finds_nearest(scan, offer, object, end);
    lemma_tree_finds_nearest(tree, Link::Fork(0), start, end, end, bounds, object, offer);
    let under = tree.leaves(Link::Fork(0));
    let members = Seq::new(tree.objects@.len(), |i: int| i as usize);
    assert forall|x: int| under.contains(x) <==> all.contains(x) by {
        if under.contains(x) {
            let n = choose|n: int| 0 <= n < under.len() && under[n] == x;
            lemma_leaves_are_objects(tree, Link::Fork(0), n);
            assert(all[x] == x);
        }
        if all.contains(x) {
            let n = choose|n: int| 0 <= n < all.len() && all[n] == x;
            assert(0 <= x < count);
            assert(members[x] == x as usize);
            assert(members.contains(x as usize));
            lemma_built_covers(tree, 0, members, x as usize);
        }
    }
    assert forall|x: int| all.contains(x) implies 0 <= x < count by {
        let n = choose|n: int| 0 <= n < all.len() && all[n] == x;
    }
    assert forall|x: int, y: int| under.contains(x) && under.contains(y) && x != y implies match (
        #[trigger] offer(x),
        #[trigger] offer(y),
    ) {
        (Some(p), Some(q)) => !p.t.same(q.t),
        _ => true,
    } by {
        assert(all.contains(x) && all.contains(y));
        assert(offer(x) == object(x, window(start, end)));
        assert(offer(y) == object(y, window(start, end)));
    }
    lemma_nearest_is_unique(
        tree.hit_under(Link::Fork(0), start, end, bounds, object),
        scan.outcome(object),
        under,
        all,
        offer,
        end,
    );
}

} // verus!
