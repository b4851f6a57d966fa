use w2::hittable::aabb::AABB;
use w2::hittable::axis_sort::sort_range;
use w2::hittable::bvh::{BVHNode, Link, Probe};
use w2::hittable::hittable_list::HittableList;
use w2::hittable::sphere::Sphere;
use w2::hittable::HitRecord;
use w2::hittable::Hittable;
use w2::primitive::interval::Interval;
use w2::primitive::scalar::Scalar;
use w2::primitive::vec3::Vec3;

fn s(x: f64) -> Scalar {
    Scalar::from_bits(x.to_bits())
}

fn f(x: Scalar) -> f64 {
    f64::from_bits(x.to_bits())
}

fn v(p: [f64; 3]) -> Vec3 {
    Vec3::new(s(p[0]), s(p[1]), s(p[2]))
}

fn a(p: Vec3) -> [f64; 3] {
    [f(p.x), f(p.y), f(p.z)]
}

fn iv(lo: f64, hi: f64) -> Interval {
    Interval::new(s(lo), s(hi))
}

struct Lcg(u64);

impl Lcg {
    fn next(&mut self) -> f64 {
        self.0 = self.0.wrapping_mul(6364136223846793005).wrapping_add(1442695040888963407);
        ((self.0 >> 11) as f64) / ((1u64 << 53) as f64)
    }
}

fn ball(center: [f64; 3], radius: f64, material: usize) -> Sphere {
    let lo = [center[0] - radius, center[1] - radius, center[2] - radius];
    let hi = [center[0] + radius, center[1] + radius, center[2] + radius];
    Sphere::new(v(center), s(radius), material, v(lo), v(hi))
}

fn hit_sphere(sp: &Sphere, origin: [f64; 3], dir: [f64; 3], ray_t: Interval) -> Option<HitRecord> {
    let center = a(sp.center0);
    let radius = f(sp.radius);
    let oc = [origin[0] - center[0], origin[1] - center[1], origin[2] - center[2]];
    let aa = dir[0] * dir[0] + dir[1] * dir[1] + dir[2] * dir[2];
    let half_b = oc[0] * dir[0] + oc[1] * dir[1] + oc[2] * dir[2];
    let c = oc[0] * oc[0] + oc[1] * oc[1] + oc[2] * oc[2] - radius * radius;
    let discriminant = half_b * half_b - aa * c;
    let sqrtd = discriminant.sqrt();
    let near = (-half_b - sqrtd) / aa;
    let far = (-half_b + sqrtd) / aa;
    let t = f(Sphere::nearest_root(s(discriminant), s(near), s(far), ray_t)?);
    let p = [origin[0] + t * dir[0], origin[1] + t * dir[1], origin[2] + t * dir[2]];
    let n = [(p[0] - center[0]) / radius, (p[1] - center[1]) / radius, (p[2] - center[2]) / radius];
    let facing = dir[0] * n[0] + dir[1] * n[1] + dir[2] * n[2];
    Some(HitRecord::new(v(p), s(facing), v(n), s(t), s(0.0), s(0.0), sp.material))
}

fn crosses(b: &AABB, origin: [f64; 3], dir: [f64; 3], ray_t: Interval) -> bool {
    let mut seen = [iv(0.0, 0.0); 3];
    for i in 0..3 {
        let axis = b.axis_interval(i);
        let adinv = 1.0 / dir[i];
        seen[i] = iv((f(axis.start) - origin[i]) * adinv, (f(axis.end) - origin[i]) * adinv);
    }
    AABB::new(seen[0], seen[1], seen[2]).hit(ray_t)
}

fn hit_any(h: &Hittable, origin: [f64; 3], dir: [f64; 3], ray_t: Interval) -> Option<HitRecord> {
    match h {
        Hittable::Sphere(sp) => hit_sphere(sp, origin, dir, ray_t),
        Hittable::List(l) => hit_list(l, origin, dir, ray_t),
        Hittable::Tree(t) => hit_tree(t, origin, dir, ray_t),
    }
}

fn hit_list(list: &HittableList, origin: [f64; 3], dir: [f64; 3], ray_t: Interval) -> Option<HitRecord> {
    let mut scan = list.hit(ray_t);
    while let Some((i, window)) = scan.pending() {
        scan.record(hit_any(&list.objects[i], origin, dir, window));
    }
    scan.finish()
}

fn hit_tree(tree: &BVHNode, origin: [f64; 3], dir: [f64; 3], ray_t: Interval) -> Option<HitRecord> {
    let mut walk = tree.hit(ray_t);
    while let Some(probe) = walk.pending() {
        match probe {
            Probe::Bounds(k, window) => {
                let crossed = crosses(&tree.forks[k].bbox, origin, dir, window);
                walk.bounds(tree, crossed);
            }
            Probe::Object(i, window) => {
                walk.object(hit_any(&tree.objects[i], origin, dir, window));
            }
        }
    }
    walk.finish()
}

fn extent(b: &AABB) -> Vec3 {
    v([f(b.x.end) - f(b.x.start), f(b.y.end) - f(b.y.start), f(b.z.end) - f(b.z.start)])
}

fn build(list: HittableList) -> BVHNode {
    let mut builder = BVHNode::from(list);
    while let Some(bbox) = builder.pending() {
        assert!(builder.split_longest(&extent(&bbox)));
    }
    builder.finish()
}

fn list_of(spheres: &[Sphere]) -> HittableList {
    let mut l = HittableList::new();
    for sp in spheres {
        l.add(Hittable::Sphere(*sp));
    }
    l
}

fn scattered_spheres(n: usize, seed: u64) -> Vec<Sphere> {
    let mut rng = Lcg(seed);
    let mut out = Vec::new();
    let side = (n as f64).cbrt().ceil() as usize;
    let mut k = 0;
    'outer: for ix in 0..side {
        for iy in 0..side {
            for iz in 0..side {
                if k == n {
                    break 'outer;
                }
                let c = [
                    3.0 * ix as f64 + rng.next() - 0.5,
                    3.0 * iy as f64 + rng.next() - 0.5,
                    3.0 * iz as f64 + rng.next() - 0.5,
                ];
                out.push(ball(c, 0.2 + 0.7 * rng.next(), k));
                k += 1;
            }
        }
    }
    out
}

fn leaves_under(tree: &BVHNode, link: Link, out: &mut Vec<usize>) {
    match link {
        Link::Leaf(i) => out.push(i),
        Link::Fork(k) => {
            leaves_under(tree, tree.forks[k].left, out);
            leaves_under(tree, tree.forks[k].right, out);
        }
    }
}

#[test]
fn list_grows_its_box_with_each_object() {
    let mut l = HittableList::new();
    assert!(l.bounding_box().equals(&AABB::empty()));
    assert_eq!(l.objects.len(), 0);
    l.add(Hittable::Sphere(ball([0.0, 0.0, 0.0], 1.0, 0)));
    let b = l.bounding_box();
    assert_eq!((f(b.x.start), f(b.x.end)), (-1.0, 1.0));
    l.add(Hittable::Sphere(ball([4.0, 1.0, -2.0], 2.0, 1)));
    let b = l.bounding_box();
    assert_eq!((f(b.x.start), f(b.x.end)), (-1.0, 6.0));
    assert_eq!((f(b.y.start), f(b.y.end)), (-1.0, 3.0));
    assert_eq!((f(b.z.start), f(b.z.end)), (-4.0, 1.0));
    assert_eq!(l.objects.len(), 2);
    let d = HittableList::default();
    assert_eq!(d.objects.len(), 0);
    assert!(d.bounding_box().equals(&AABB::empty()));
}

#[test]
fn scan_keeps_the_nearest_and_narrows_the_window() {
    let l = list_of(&[ball([0.0; 3], 1.0, 0), ball([0.0; 3], 1.0, 1), ball([0.0; 3], 1.0, 2)]);
    let mut scan = l.hit(iv(0.001, f64::INFINITY));
    let rec = |t: f64, m: usize| {
        Some(HitRecord::new(v([0.0; 3]), s(-1.0), v([0.0, 1.0, 0.0]), s(t), s(0.0), s(0.0), m))
    };
    let (i, w) = scan.pending().unwrap();
    assert_eq!(i, 0);
    assert_eq!((f(w.start), f(w.end)), (0.001, f64::INFINITY));
    scan.record(rec(5.0, 0));
    let (i, w) = scan.pending().unwrap();
    assert_eq!(i, 1);
    assert_eq!((f(w.start), f(w.end)), (0.001, 5.0));
    // a hit that is not nearer is not taken
    scan.record(rec(5.0, 1));
    let (i, w) = scan.pending().unwrap();
    assert_eq!(i, 2);
    assert_eq!(f(w.end), 5.0);
    scan.record(rec(2.0, 2));
    assert!(scan.pending().is_none());
    let found = scan.finish().unwrap();
    assert_eq!(found.material, 2);
    assert_eq!(f(found.t), 2.0);
}

#[test]
fn scan_of_nothing_finds_nothing() {
    let l = HittableList::new();
    let scan = l.hit(iv(0.001, f64::INFINITY));
    assert!(scan.pending().is_none());
    assert!(scan.finish().is_none());
}

#[test]
fn list_finds_the_nearest_sphere() {
    let l = list_of(&[ball([0.0, 0.0, -10.0], 1.0, 0), ball([0.0, 0.0, -4.0], 1.0, 1), ball([5.0, 0.0, -4.0], 1.0, 2)]);
    let rec = hit_list(&l, [0.0; 3], [0.0, 0.0, -1.0], iv(0.001, f64::INFINITY)).unwrap();
    assert_eq!(rec.material, 1);
    assert_eq!(f(rec.t), 3.0);
    assert!(hit_list(&l, [0.0; 3], [0.0, 1.0, 0.0], iv(0.001, f64::INFINITY)).is_none());
}

#[test]
fn node_of_two_has_one_fork() {
    let left = ball([0.0; 3], 1.0, 0);
    let right = ball([4.0, 0.0, 0.0], 1.0, 1);
    let node = BVHNode::new(Hittable::Sphere(left), Hittable::Sphere(right));
    assert_eq!(node.objects.len(), 2);
    assert_eq!(node.forks.len(), 1);
    assert!(matches!(node.forks[0].left, Link::Leaf(0)));
    assert!(matches!(node.forks[0].right, Link::Leaf(1)));
    let b = node.bounding_box();
    assert_eq!((f(b.x.start), f(b.x.end)), (-1.0, 5.0));
    let rec = hit_tree(&node, [10.0, 0.0, 0.0], [-1.0, 0.0, 0.0], iv(0.001, f64::INFINITY)).unwrap();
    assert_eq!(rec.material, 1);
    assert_eq!(f(rec.t), 5.0);
}

#[test]
fn hierarchy_of_one_has_the_object_on_both_sides() {
    let tree = build(list_of(&[ball([1.0, 2.0, 3.0], 1.0, 0)]));
    assert_eq!(tree.forks.len(), 1);
    assert!(matches!(tree.forks[0].left, Link::Leaf(0)));
    assert!(matches!(tree.forks[0].right, Link::Leaf(0)));
    assert!(tree.bounding_box().equals(&ball([1.0, 2.0, 3.0], 1.0, 0).bounding_box()));
}

#[test]
fn hierarchy_of_two_keeps_their_order() {
    let tree = build(list_of(&[ball([9.0, 0.0, 0.0], 1.0, 0), ball([0.0, 0.0, 0.0], 1.0, 1)]));
    assert_eq!(tree.forks.len(), 1);
    assert!(matches!(tree.forks[0].left, Link::Leaf(0)));
    assert!(matches!(tree.forks[0].right, Link::Leaf(1)));
    let b = tree.bounding_box();
    assert_eq!((f(b.x.start), f(b.x.end)), (-1.0, 10.0));
}

#[test]
fn hierarchy_of_three_is_sorted_along_the_longest_axis_and_cut() {
    // spread along y: sorted by the start of the box on y the order is 2, 0, 1
    let tree = build(list_of(&[
        ball([0.0, 5.0, 0.0], 1.0, 0),
        ball([0.0, 9.0, 0.0], 1.0, 1),
        ball([0.0, 1.0, 0.0], 1.0, 2),
    ]));
    assert_eq!(tree.forks.len(), 3);
    let root = tree.forks[0];
    let (l, r) = match (root.left, root.right) {
        (Link::Fork(l), Link::Fork(r)) => (l, r),
        _ => panic!("the root of three has forks for children"),
    };
    // the left half is the lower one object, on both sides of its fork
    assert!(matches!(tree.forks[l].left, Link::Leaf(2)));
    assert!(matches!(tree.forks[l].right, Link::Leaf(2)));
    assert!(matches!(tree.forks[r].left, Link::Leaf(0)));
    assert!(matches!(tree.forks[r].right, Link::Leaf(1)));
    let b = tree.bounding_box();
    assert_eq!((f(b.y.start), f(b.y.end)), (0.0, 10.0));
    assert_eq!((f(tree.forks[r].bbox.y.start), f(tree.forks[r].bbox.y.end)), (4.0, 10.0));
}

#[test]
fn builder_hands_out_the_box_of_the_next_group() {
    let spheres = scattered_spheres(5, 11);
    let mut builder = BVHNode::from(list_of(&spheres));
    let first = builder.pending().expect("five objects are to be split");
    let mut want = AABB::empty();
    for sp in &spheres {
        want = AABB::surrounding_box(&sp.bounding_box(), &want);
    }
    assert!(first.equals(&want));
    builder.split(0);
    // five are cut into two and three: the three wait next
    let next = builder.pending().expect("three objects are to be split");
    assert!(!next.equals(&want) || spheres.len() < 3);
    builder.split(1);
    assert!(builder.pending().is_none());
    let tree = builder.finish();
    assert_eq!(tree.forks.len(), 5);
}

#[test]
fn sort_is_stable_and_leaves_the_rest() {
    // starts on x: 3, 1, 3, 1, 2, 0
    let xs = [3.0, 1.0, 3.0, 1.0, 2.0, 0.0];
    let objects: Vec<Hittable> =
        xs.iter().enumerate().map(|(i, &x)| Hittable::Sphere(ball([x + 1.0, 0.0, 0.0], 1.0, i))).collect();
    let mut order: Vec<usize> = vec![5, 0, 1, 2, 3, 4];
    sort_range(&mut order, &objects, 0, 1, 6);
    assert_eq!(order, vec![5, 1, 3, 4, 0, 2]);
    let mut whole: Vec<usize> = vec![0, 1, 2, 3, 4, 5];
    sort_range(&mut whole, &objects, 0, 0, 6);
    assert_eq!(whole, vec![5, 1, 3, 4, 0, 2]);
    let mut by_y: Vec<usize> = vec![4, 2, 0];
    sort_range(&mut by_y, &objects, 1, 0, 3);
    assert_eq!(by_y, vec![4, 2, 0]);
    let mut none: Vec<usize> = vec![2, 1];
    sort_range(&mut none, &objects, 0, 1, 1);
    assert_eq!(none, vec![2, 1]);
}

#[test]
fn sort_agrees_with_the_standard_stable_sort() {
    let mut rng = Lcg(5);
    for round in 0..40 {
        let n = 1 + (round % 17);
        let objects: Vec<Hittable> = (0..n)
            .map(|i| {
                let c = [(rng.next() * 4.0).floor(), (rng.next() * 3.0).floor(), rng.next()];
                Hittable::Sphere(ball(c, 0.5, i))
            })
            .collect();
        for axis in 0..3 {
            let mut got: Vec<usize> = (0..n).collect();
            sort_range(&mut got, &objects, axis, 0, n);
            let mut want: Vec<usize> = (0..n).collect();
            want.sort_by(|&p, &q| {
                let kp = f(objects[p].bounding_box().axis_interval(axis).start);
                let kq = f(objects[q].bounding_box().axis_interval(axis).start);
                kp.partial_cmp(&kq).unwrap()
            });
            assert_eq!(got, want);
        }
    }
}

#[test]
fn every_object_hangs_in_the_hierarchy() {
    for n in 1..40usize {
        let spheres = scattered_spheres(n, 100 + n as u64);
        let tree = build(list_of(&spheres));
        assert_eq!(tree.objects.len(), n);
        let mut leaves = Vec::new();
        leaves_under(&tree, Link::Fork(0), &mut leaves);
        let mut seen = vec![false; n];
        for &i in &leaves {
            seen[i] = true;
        }
        assert!(seen.iter().all(|&x| x), "{n} objects");
        for (k, fork) in tree.forks.iter().enumerate() {
            for link in [fork.left, fork.right] {
                match link {
                    Link::Leaf(i) => assert!(i < n),
                    Link::Fork(j) => assert!(k < j && j < tree.forks.len()),
                }
            }
        }
        let mut want = AABB::empty();
        for sp in &spheres {
            want = AABB::surrounding_box(&sp.bounding_box(), &want);
        }
        if n > 2 {
            assert!(tree.bounding_box().equals(&want));
        }
    }
}

#[test]
fn hierarchy_and_scan_find_the_same_hit() {
    let mut rng = Lcg(2024);
    let mut hits = 0;
    for &n in &[1usize, 2, 3, 7, 20, 64, 150] {
        let spheres = scattered_spheres(n, 7 * n as u64 + 1);
        let list = list_of(&spheres);
        let tree = build(list_of(&spheres));
        for _ in 0..400 {
            let origin = [rng.next() * 30.0 - 10.0, rng.next() * 30.0 - 10.0, rng.next() * 30.0 - 10.0];
            let toward = &spheres[(rng.next() * n as f64) as usize % n];
            let c = a(toward.center0);
            let dir = [
                c[0] - origin[0] + (rng.next() - 0.5) * 2.0,
                c[1] - origin[1] + (rng.next() - 0.5) * 2.0,
                c[2] - origin[2] + (rng.next() - 0.5) * 2.0,
            ];
            let w = iv(0.001, f64::INFINITY);
            let by_scan = hit_list(&list, origin, dir, w);
            let by_tree = hit_tree(&tree, origin, dir, w);
            match (by_scan, by_tree) {
                (None, None) => {}
                (Some(p), Some(q)) => {
                    hits += 1;
                    assert!((f(p.t) - f(q.t)).abs() <= 1e-9);
                    assert_eq!(p.material, q.material);
                }
                _ => panic!("one search found a hit and the other did not"),
            }
        }
    }
    assert!(hits > 500);
}

#[test]
fn a_list_may_hold_a_hierarchy() {
    let spheres = scattered_spheres(30, 3);
    let flat = list_of(&spheres);
    let mut world = HittableList::new();
    world.add(Hittable::Tree(build(list_of(&spheres))));
    assert!(world.bounding_box().equals(&flat.bounding_box()));
    let mut rng = Lcg(9);
    for _ in 0..200 {
        let origin = [-5.0, rng.next() * 9.0, rng.next() * 9.0];
        let dir = [1.0, rng.next() - 0.5, rng.next() - 0.5];
        let w = iv(0.001, f64::INFINITY);
        let p = hit_list(&flat, origin, dir, w);
        let q = hit_list(&world, origin, dir, w);
        assert_eq!(p.map(|r| (r.material, r.t.to_bits())), q.map(|r| (r.material, r.t.to_bits())));
    }
}

#[test]
fn descent_visits_left_before_right_and_skips_missed_boxes() {
    let tree = build(list_of(&[
        ball([0.0, 5.0, 0.0], 1.0, 0),
        ball([0.0, 9.0, 0.0], 1.0, 1),
        ball([0.0, 1.0, 0.0], 1.0, 2),
    ]));
    let w = iv(0.001, f64::INFINITY);
    let mut walk = tree.hit(w);
    assert!(matches!(walk.pending(), Some(Probe::Bounds(0, _))));
    walk.bounds(&tree, true);
    let left = match tree.forks[0].left {
        Link::Fork(k) => k,
        _ => panic!(),
    };
    let right = match tree.forks[0].right {
        Link::Fork(k) => k,
        _ => panic!(),
    };
    match walk.pending() {
        Some(Probe::Bounds(k, _)) => assert_eq!(k, left),
        _ => panic!("the left child comes first"),
    }
    walk.bounds(&tree, false);
    match walk.pending() {
        Some(Probe::Bounds(k, _)) => assert_eq!(k, right),
        _ => panic!("then the right child"),
    }
    walk.bounds(&tree, true);
    assert!(matches!(walk.pending(), Some(Probe::Object(0, _))));
    let rec = HitRecord::new(v([0.0; 3]), s(-1.0), v([0.0, 1.0, 0.0]), s(4.0), s(0.0), s(0.0), 0);
    walk.object(Some(rec));
    match walk.pending() {
        Some(Probe::Object(1, win)) => assert_eq!(f(win.end), 4.0),
        _ => panic!("the other object comes next, in a window that ends at the hit"),
    }
    walk.object(None);
    assert!(walk.pending().is_none());
    assert_eq!(walk.finish().unwrap().material, 0);
}

#[test]
fn builder_tells_whether_the_next_group_can_be_sorted() {
    let mut spheres = scattered_spheres(4, 21);
    // the box of one object starts at no number on y
    spheres[2].bbox.y = iv(f64::NAN, 1.0);
    let mut builder = BVHNode::from(list_of(&spheres));
    assert!(builder.sortable(0));
    assert!(!builder.sortable(1));
    assert!(builder.sortable(2));
    let forks = builder.forks.len();
    // y is the longest axis: nothing is split, and nothing changes
    assert!(!builder.split_longest(&v([1.0, 5.0, 2.0])));
    assert_eq!(builder.forks.len(), forks);
    assert_eq!(builder.order, vec![0, 1, 2, 3]);
    assert!(builder.pending().is_some());
    // x is the longest axis: the group is split
    assert!(builder.split_longest(&v([5.0, 1.0, 2.0])));
    assert_eq!(builder.forks.len(), forks + 2);
    assert!(builder.pending().is_none());
    // nothing is left to split
    assert!(!builder.sortable(0));
    assert!(!builder.split_longest(&v([5.0, 1.0, 2.0])));
    let tree = builder.finish();
    assert_eq!(tree.forks.len(), 3);
}

#[test]
fn split_longest_takes_the_first_of_the_longest_axes() {
    // four objects whose order differs on each axis
    let spheres = [
        ball([3.0, 0.0, 1.0], 0.5, 0),
        ball([2.0, 1.0, 0.0], 0.5, 1),
        ball([1.0, 2.0, 3.0], 0.5, 2),
        ball([0.0, 3.0, 2.0], 0.5, 3),
    ];
    let sorted_by = |extent: [f64; 3]| {
        let mut builder = BVHNode::from(list_of(&spheres));
        assert!(builder.split_longest(&v(extent)));
        builder.order.clone()
    };
    // equally long on all axes: sorted along x
    assert_eq!(sorted_by([4.0, 4.0, 4.0]), vec![3, 2, 1, 0]);
    // y and z equally long above x: sorted along y
    assert_eq!(sorted_by([1.0, 4.0, 4.0]), vec![0, 1, 2, 3]);
    // z alone the longest
    assert_eq!(sorted_by([1.0, 2.0, 4.0]), vec![1, 0, 3, 2]);
}
