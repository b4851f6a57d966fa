//! Ordering objects along an axis.
use vstd::prelude::*;
use vstd::seq_lib::lemma_multiset_commutative;
use crate::hittable::Hittable;
use crate::primitive::scalar::Scalar;

verus! {

/// The number by which object `v` is ordered along `axis`: the start of its
/// box on that axis.
pub open spec fn key(objects: Seq<Hittable>, axis: int, v: usize) -> Scalar {
    objects[v as int].bounds().axis(axis).start
}

/// Whether every entry names an object whose key on `axis` is a number.
pub open spec fn keyed(objects: Seq<Hittable>, axis: int, s: Seq<usize>) -> bool {
    forall|i: int|
        0 <= i < s.len() ==> (#[trigger] s[i]) < objects.len() && !key(objects, axis, s[i]).nan()
}

/// Whether the keys never fall from one entry to the next.
pub open spec fn sorted_on(objects: Seq<Hittable>, axis: int, s: Seq<usize>) -> bool {
    forall|i: int, j: int|
        0 <= i < j < s.len() ==> key(objects, axis, #[trigger] s[i]).at_most(
            key(objects, axis, #[trigger] s[j]),
        )
}

/// Whether `a` stands somewhere before `b` in `s`.
pub open spec fn precedes(s: Seq<usize>, a: usize, b: usize) -> bool {
    exists|i: int, j: int| 0 <= i < j < s.len() && s[i] == a && s[j] == b
}

/// Whether entries of `t` with equal keys stand in the order that they have
/// in `s`.
pub open spec fn keeps_ties(objects: Seq<Hittable>, axis: int, s: Seq<usize>, t: Seq<usize>) -> bool {
    forall|i: int, j: int|
        0 <= i < j < t.len() && key(objects, axis, #[trigger] t[i]).same(
            key(objects, axis, #[trigger] t[j]),
        ) ==> precedes(s, t[i], t[j])
}

/// Whether `t` is `s` sorted by key along `axis`, entries with equal keys
/// staying in their order: the one arrangement that a stable sort gives.
#[verifier::opaque]
pub open spec fn is_stable_sort(
    objects: Seq<Hittable>,
    axis: int,
    s: Seq<usize>,
    t: Seq<usize>,
) -> bool {
    &&& t.len() == s.len()
    &&& t.to_multiset() == s.to_multiset()
    &&& sorted_on(objects, axis, t)
    &&& keeps_ties(objects, axis, s, t)
}

/// A sorted arrangement holds the entries that were sorted, and no others.
pub proof fn lemma_sort_keeps_entries(
    objects: Seq<Hittable>,
    axis: int,
    s: Seq<usize>,
    t: Seq<usize>,
    x: usize,
)
    requires
        is_stable_sort(objects, axis, s, t),
    ensures
        s.contains(x) <==> t.contains(x),
{
    reveal(is_stable_sort);
    s.to_multiset_ensures();
    t.to_multiset_ensures();
    assert(s.to_multiset().count(x) == t.to_multiset().count(x));
    if s.contains(x) {
        assert(s.to_multiset().count(x) > 0);
        assert(t.to_multiset().count(x) > 0);
    }
    if t.contains(x) {
        assert(t.to_multiset().count(x) > 0);
        assert(s.to_multiset().count(x) > 0);
    }
}

/// The key of an object, read off its box.
pub fn key_of(objects: &Vec<Hittable>, axis: usize, v: usize) -> (k: Scalar)
    requires
        axis < 3,
        v < objects@.len(),
    ensures
        k == key(objects@, axis as int, v),
{
    objects[v].bounding_box().axis_interval(axis).start
}

/// Whether `out` is the two sorted runs `a` and `b` merged, `origin` telling
/// of each entry from which run it came (true for `a`) and from which place
/// there: each run keeps its order, and an entry of `b` stands before an
/// entry of `a` only where its key is smaller.
pub open spec fn merged(
    objects: Seq<Hittable>,
    axis: int,
    a: Seq<usize>,
    b: Seq<usize>,
    out: Seq<usize>,
    origin: Seq<(bool, int)>,
) -> bool {
    &&& out.len() == a.len() + b.len()
    &&& origin.len() == out.len()
    &&& forall|k: int|
        0 <= k < out.len() ==> if (#[trigger] origin[k]).0 {
            0 <= origin[k].1 < a.len() && out[k] == a[origin[k].1]
        } else {
            0 <= origin[k].1 < b.len() && out[k] == b[origin[k].1]
        }
    &&& forall|k1: int, k2: int|
        0 <= k1 < k2 < out.len() && (#[trigger] origin[k1]).0 == (#[trigger] origin[k2]).0
            ==> origin[k1].1 < origin[k2].1
    &&& forall|k1: int, k2: int|
        0 <= k1 < k2 < out.len() && !(#[trigger] origin[k1]).0 && (#[trigger] origin[k2]).0 ==> key(
            objects,
            axis,
            out[k1],
        ).less(key(objects, axis, out[k2]))
    &&& sorted_on(objects, axis, out)
    &&& out.to_multiset() == a.to_multiset().add(b.to_multiset())
}

/// Copies the entries from `lo` up to `hi`.
fn copy_range(order: &Vec<usize>, lo: usize, hi: usize) -> (run: Vec<usize>)
    requires
        lo <= hi <= order@.len(),
    ensures
        run@ == order@.subrange(lo as int, hi as int),
{
    let mut run: Vec<usize> = Vec::new();
    let mut i: usize = lo;
    while i < hi
        invariant
            lo <= i <= hi <= order@.len(),
            run@ == order@.subrange(lo as int, i as int),
        decreases hi - i,
    {
        run.push(order[i]);
        i = i + 1;
        assert(run@ =~= order@.subrange(lo as int, i as int));
    }
    run
}

/// Whether the next entry of the merged range is to come from the left run:
/// the right run is used up, or the left run's next key is not above the
/// right run's.
fn left_comes_next(
    left: &Vec<usize>,
    right: &Vec<usize>,
    objects: &Vec<Hittable>,
    axis: usize,
    i: usize,
    j: usize,
) -> (r: bool)
    requires
        axis < 3,
        i <= left@.len(),
        j <= right@.len(),
        i < left@.len() || j < right@.len(),
        forall|n: int| 0 <= n < left@.len() ==> (#[trigger] left@[n]) < objects@.len(),
        forall|n: int| 0 <= n < right@.len() ==> (#[trigger] right@[n]) < objects@.len(),
    ensures
        r ==> i < left@.len(),
        !r ==> j < right@.len(),
        i < left@.len() && j < right@.len() ==> r == !key(objects@, axis as int, right@[j as int]).less(
            key(objects@, axis as int, left@[i as int]),
        ),
{
    if j >= right.len() {
        true
    } else if i >= left.len() {
        false
    } else {
        let l = key_of(objects, axis, left[i]);
        let r = key_of(objects, axis, right[j]);
        !r.lt(&l)
    }
}

/// Merges the sorted runs from `lo` up to `mid` and from `mid` up to `hi`
/// into one sorted run. Of two entries with equal keys the one of the left
/// run comes first.
fn merge(
    order: &mut Vec<usize>,
    objects: &Vec<Hittable>,
    axis: usize,
    lo: usize,
    mid: usize,
    hi: usize,
) -> (origin: Ghost<Seq<(bool, int)>>)
    requires
        axis < 3,
        lo <= mid <= hi <= old(order)@.len(),
        keyed(objects@, axis as int, old(order)@.subrange(lo as int, mid as int)),
        keyed(objects@, axis as int, old(order)@.subrange(mid as int, hi as int)),
        sorted_on(objects@, axis as int, old(order)@.subrange(lo as int, mid as int)),
        sorted_on(objects@, axis as int, old(order)@.subrange(mid as int, hi as int)),
    ensures
        final(order)@.len() == old(order)@.len(),
        forall|n: int| 0 <= n < lo || hi <= n < old(order)@.len() ==> final(order)@[n] == old(order)@[n],
        merged(
            objects@,
            axis as int,
            old(order)@.subrange(lo as int, mid as int),
            old(order)@.subrange(mid as int, hi as int),
            final(order)@.subrange(lo as int, hi as int),
            origin@,
        ),
{
    let ghost before = order@;
    let left = copy_range(order, lo, mid);
    let right = copy_range(order, mid, hi);
    let ghost a = left@;
    let ghost b = right@;
    let mut i: usize = 0;
    let mut j: usize = 0;
    let mut k: usize = lo;
    let ghost mut origin: Seq<(bool, int)> = Seq::empty();
    proof {
        assert(order@.subrange(lo as int, lo as int) =~= Seq::<usize>::empty());
        assert(a.take(0) =~= Seq::<usize>::empty());
        assert(b.take(0) =~= Seq::<usize>::empty());
        assert(Seq::<usize>::empty().to_multiset() =~= Seq::<usize>::empty().to_multiset().add(
            Seq::<usize>::empty().to_multiset(),
        )) by {
            Seq::<usize>::empty().to_multiset_ensures();
        }
    }
    while k < hi
        invariant
            axis < 3,
            lo <= mid <= hi <= order@.len(),
            order@.len() == before.len(),
            a == before.subrange(lo as int, mid as int),
            b == before.subrange(mid as int, hi as int),
            left@ == a,
            right@ == b,
            keyed(objects@, axis as int, a),
            keyed(objects@, axis as int, b),
            sorted_on(objects@, axis as int, a),
            sorted_on(objects@, axis as int, b),
            i <= a.len(),
            j <= b.len(),
            k == lo + i + j,
            forall|n: int| 0 <= n < lo || hi <= n < before.len() ==> order@[n] == before[n],
            origin.len() == i + j,
            forall|n: int|
                0 <= n < i + j ==> if (#[trigger] origin[n]).0 {
                    0 <= origin[n].1 < i && order@[lo + n] == a[origin[n].1]
                } else {
                    0 <= origin[n].1 < j && order@[lo + n] == b[origin[n].1]
                },
            forall|n1: int, n2: int|
                0 <= n1 < n2 < i + j && (#[trigger] origin[n1]).0 == (#[trigger] origin[n2]).0
                    ==> origin[n1].1 < origin[n2].1,
            forall|n1: int, n2: int|
                0 <= n1 < n2 < i + j && !(#[trigger] origin[n1]).0 && (#[trigger] origin[n2]).0
                    ==> key(objects@, axis as int, order@[lo + n1]).less(
                    key(objects@, axis as int, order@[lo + n2]),
                ),
            // what was taken from the right lies below what the left offers next
            forall|m: int|
                0 <= m < j && i < a.len() ==> key(objects@, axis as int, #[trigger] b[m]).less(
                    key(objects@, axis as int, a[i as int]),
                ),
            // what was merged is sorted and lies at most at what either run offers next
            forall|n1: int, n2: int|
                0 <= n1 < n2 < i + j ==> key(objects@, axis as int, #[trigger] order@[lo + n1]).at_most(
                    key(objects@, axis as int, #[trigger] order@[lo + n2]),
                ),
            forall|n: int|
                0 <= n < i + j && i < a.len() ==> key(objects@, axis as int, #[trigger] order@[lo + n]).at_most(
                    key(objects@, axis as int, a[i as int]),
                ),
            forall|n: int|
                0 <= n < i + j && j < b.len() ==> key(objects@, axis as int, #[trigger] order@[lo + n]).at_most(
                    key(objects@, axis as int, b[j as int]),
                ),
            order@.subrange(lo as int, k as int).to_multiset() == a.take(i as int).to_multiset().add(
                b.take(j as int).to_multiset(),
            ),
        decreases hi - k,
    {
        let ghost cur = order@;
        let ghost done = order@.subrange(lo as int, k as int);
        if left_comes_next(&left, &right, objects, axis, i, j) {
            let x = left[i];
            order.set(k, x);
            proof {
                origin = origin.push((true, i as int));
                assert(order@.subrange(lo as int, k + 1) =~= done.push(x));
                assert(a.take(i + 1) =~= a.take(i as int).push(x));
                done.to_multiset_ensures();
                a.take(i as int).to_multiset_ensures();
                assert(done.push(x).to_multiset() =~= a.take(i + 1).to_multiset().add(
                    b.take(j as int).to_multiset(),
                ));
                assert forall|n: int| 0 <= n < i + j + 1 implies if (#[trigger] origin[n]).0 {
                    0 <= origin[n].1 < i + 1 && order@[lo + n] == a[origin[n].1]
                } else {
                    0 <= origin[n].1 < j && order@[lo + n] == b[origin[n].1]
                } by {
                    if n < i + j {
                        assert(order@[lo + n] == cur[lo + n]);
                    }
                }
                assert forall|m: int| 0 <= m < j && i + 1 < a.len() implies key(
                    objects@,
                    axis as int,
                    #[trigger] b[m],
                ).less(key(objects@, axis as int, a[i + 1])) by {
                    assert(key(objects@, axis as int, a[i as int]).at_most(
                        key(objects@, axis as int, a[i + 1]),
                    ));
                }
                assert forall|n1: int, n2: int|
                    0 <= n1 < n2 < i + j + 1 && !(#[trigger] origin[n1]).0 && (
                    #[trigger] origin[n2]).0 implies key(objects@, axis as int, order@[lo + n1]).less(
                    key(objects@, axis as int, order@[lo + n2]),
                ) by {
                    assert(order@[lo + n1] == cur[lo + n1]);
                    if n2 < i + j {
                        assert(order@[lo + n2] == cur[lo + n2]);
                    } else {
                        assert(cur[lo + n1] == b[origin[n1].1]);
                    }
                }
                assert forall|n1: int, n2: int| 0 <= n1 < n2 < i + j + 1 implies key(
                    objects@,
                    axis as int,
                    #[trigger] order@[lo + n1],
                ).at_most(key(objects@, axis as int, #[trigger] order@[lo + n2])) by {
                    assert(order@[lo + n1] == cur[lo + n1]);
                    if n2 < i + j {
                        assert(order@[lo + n2] == cur[lo + n2]);
                    }
                }
                assert forall|n: int| 0 <= n < i + j + 1 && i + 1 < a.len() implies key(
                    objects@,
                    axis as int,
                    #[trigger] order@[lo + n],
                ).at_most(key(objects@, axis as int, a[i + 1])) by {
                    assert(key(objects@, axis as int, a[i as int]).at_most(
                        key(objects@, axis as int, a[i + 1]),
                    ));
                    if n < i + j {
                        assert(order@[lo + n] == cur[lo + n]);
                    }
                }
                assert forall|n: int| 0 <= n < i + j + 1 && j < b.len() implies key(
                    objects@,
                    axis as int,
                    #[trigger] order@[lo + n],
                ).at_most(key(objects@, axis as int, b[j as int])) by {
                    if n < i + j {
                        assert(order@[lo + n] == cur[lo + n]);
                    }
                }
            }
            i = i + 1;
        } else {
            let y = right[j];
            order.set(k, y);
            proof {
                origin = origin.push((false, j as int));
                assert(order@.subrange(lo as int, k + 1) =~= done.push(y));
                assert(b.take(j + 1) =~= b.take(j as int).push(y));
                done.to_multiset_ensures();
                b.take(j as int).to_multiset_ensures();
                assert(done.push(y).to_multiset() =~= a.take(i as int).to_multiset().add(
                    b.take(j + 1).to_multiset(),
                ));
                assert forall|n: int| 0 <= n < i + j + 1 implies if (#[trigger] origin[n]).0 {
                    0 <= origin[n].1 < i && order@[lo + n] == a[origin[n].1]
                } else {
                    0 <= origin[n].1 < j + 1 && order@[lo + n] == b[origin[n].1]
                } by {
                    if n < i + j {
                        assert(order@[lo + n] == cur[lo + n]);
                    }
                }
                assert forall|n1: int, n2: int|
                    0 <= n1 < n2 < i + j + 1 && !(#[trigger] origin[n1]).0 && (
                    #[trigger] origin[n2]).0 implies key(objects@, axis as int, order@[lo + n1]).less(
                    key(objects@, axis as int, order@[lo + n2]),
                ) by {
                    assert(order@[lo + n1] == cur[lo + n1]);
                    assert(order@[lo + n2] == cur[lo + n2]);
                }
                assert forall|n1: int, n2: int| 0 <= n1 < n2 < i + j + 1 implies key(
                    objects@,
                    axis as int,
                    #[trigger] order@[lo + n1],
                ).at_most(key(objects@, axis as int, #[trigger] order@[lo + n2])) by {
                    assert(order@[lo + n1] == cur[lo + n1]);
                    if n2 < i + j {
                        assert(order@[lo + n2] == cur[lo + n2]);
                    }
                }
                assert forall|n: int| 0 <= n < i + j + 1 && i < a.len() implies key(
                    objects@,
                    axis as int,
                    #[trigger] order@[lo + n],
                ).at_most(key(objects@, axis as int, a[i as int])) by {
                    if n < i + j {
                        assert(order@[lo + n] == cur[lo + n]);
                    }
                }
                assert forall|n: int| 0 <= n < i + j + 1 && j + 1 < b.len() implies key(
                    objects@,
                    axis as int,
                    #[trigger] order@[lo + n],
                ).at_most(key(objects@, axis as int, b[j + 1])) by {
                    assert(key(objects@, axis as int, b[j as int]).at_most(
                        key(objects@, axis as int, b[j + 1]),
                    ));
                    if n < i + j {
                        assert(order@[lo + n] == cur[lo + n]);
                    }
                }
            }
            j = j + 1;
        }
        k = k + 1;
    }
    proof {
        let out = order@.subrange(lo as int, hi as int);
        assert(a.take(a.len() as int) =~= a);
        assert(b.take(b.len() as int) =~= b);
        assert forall|n: int| 0 <= n < out.len() implies if (#[trigger] origin[n]).0 {
            0 <= origin[n].1 < a.len() && out[n] == a[origin[n].1]
        } else {
            0 <= origin[n].1 < b.len() && out[n] == b[origin[n].1]
        } by {
            assert(out[n] == order@[lo + n]);
        }
        assert forall|n1: int, n2: int|
            0 <= n1 < n2 < out.len() && !(#[trigger] origin[n1]).0 && (
            #[trigger] origin[n2]).0 implies key(objects@, axis as int, out[n1]).less(
            key(objects@, axis as int, out[n2]),
        ) by {
            assert(out[n1] == order@[lo + n1] && out[n2] == order@[lo + n2]);
        }
        assert forall|n1: int, n2: int| 0 <= n1 < n2 < out.len() implies key(
            objects@,
            axis as int,
            #[trigger] out[n1],
        ).at_most(key(objects@, axis as int, #[trigger] out[n2])) by {
            assert(out[n1] == order@[lo + n1] && out[n2] == order@[lo + n2]);
        }
    }
    Ghost(origin)
}

/// Entries of the left half of a sequence stand before those of the right.
proof fn lemma_halves_precede(source: Seq<usize>, cut: int, x: usize, y: usize)
    requires
        0 <= cut <= source.len(),
        source.take(cut).contains(x),
        source.skip(cut).contains(y),
    ensures
        precedes(source, x, y),
{
    let i = choose|i: int| 0 <= i < source.take(cut).len() && source.take(cut)[i] == x;
    let j = choose|j: int| 0 <= j < source.skip(cut).len() && source.skip(cut)[j] == y;
    assert(source[i] == x);
    assert(source[cut + j] == y);
}

/// What precedes within a part of a sequence precedes within the whole.
proof fn lemma_part_precedes(source: Seq<usize>, from: int, to: int, x: usize, y: usize)
    requires
        0 <= from <= to <= source.len(),
        precedes(source.subrange(from, to), x, y),
    ensures
        precedes(source, x, y),
{
    let part = source.subrange(from, to);
    let (i, j) = choose|i: int, j: int| 0 <= i < j < part.len() && part[i] == x && part[j] == y;
    assert(source[from + i] == x);
    assert(source[from + j] == y);
}

/// Two halves sorted each for itself and then merged are the whole sorted.
proof fn lemma_merged_is_sorted(
    objects: Seq<Hittable>,
    axis: int,
    source: Seq<usize>,
    cut: int,
    a: Seq<usize>,
    b: Seq<usize>,
    out: Seq<usize>,
    origin: Seq<(bool, int)>,
)
    requires
        0 <= cut <= source.len(),
        is_stable_sort(objects, axis, source.take(cut), a),
        is_stable_sort(objects, axis, source.skip(cut), b),
        keyed(objects, axis, a),
        keyed(objects, axis, b),
        merged(objects, axis, a, b, out, origin),
    ensures
        is_stable_sort(objects, axis, source, out),
        keyed(objects, axis, out),
{
    reveal(is_stable_sort);
    let left = source.take(cut);
    let right = source.skip(cut);
    assert(source =~= left + right);
    lemma_multiset_commutative(left, right);
    assert forall|p: int, q: int|
        0 <= p < q < out.len() && key(objects, axis, #[trigger] out[p]).same(
            key(objects, axis, #[trigger] out[q]),
        ) implies precedes(source, out[p], out[q]) by {
        let x = out[p];
        let y = out[q];
        if origin[p].0 && origin[q].0 {
            assert(a[origin[p].1] == x && a[origin[q].1] == y);
            assert(precedes(left, x, y));
            assert(left =~= source.subrange(0, cut));
            lemma_part_precedes(source, 0, cut, x, y);
        } else if !origin[p].0 && !origin[q].0 {
            assert(b[origin[p].1] == x && b[origin[q].1] == y);
            assert(precedes(right, x, y));
            assert(right =~= source.subrange(cut, source.len() as int));
            lemma_part_precedes(source, cut, source.len() as int, x, y);
        } else if origin[p].0 {
            assert(a[origin[p].1] == x);
            assert(b[origin[q].1] == y);
            assert(a.contains(x));
            assert(b.contains(y));
            lemma_sort_keeps_entries(objects, axis, left, a, x);
            lemma_sort_keeps_entries(objects, axis, right, b, y);
            lemma_halves_precede(source, cut, x, y);
        } else {
            assert(key(objects, axis, out[p]).less(key(objects, axis, out[q])));
        }
    }
    assert forall|n: int| 0 <= n < out.len() implies (#[trigger] out[n]) < objects.len() && !key(
        objects,
        axis,
        out[n],
    ).nan() by {
        if origin[n].0 {
            assert(out[n] == a[origin[n].1]);
        } else {
            assert(out[n] == b[origin[n].1]);
        }
    }
}

/// Sorts the entries from `lo` up to `hi` by key along `axis`. Entries with
/// equal keys keep their order, and the entries outside the range stay.
pub fn sort_range(order: &mut Vec<usize>, objects: &Vec<Hittable>, axis: usize, lo: usize, hi: usize)
    requires
        axis < 3,
        lo <= hi <= old(order)@.len(),
        keyed(objects@, axis as int, old(order)@.subrange(lo as int, hi as int)),
    ensures
        final(order)@.len() == old(order)@.len(),
        forall|i: int| 0 <= i < lo || hi <= i < old(order)@.len() ==> final(order)@[i] == old(order)@[i],
        forall|i: int| lo <= i < hi ==> (#[trigger] final(order)@[i]) < objects@.len(),
        keyed(objects@, axis as int, final(order)@.subrange(lo as int, hi as int)),
        is_stable_sort(
            objects@,
            axis as int,
            old(order)@.subrange(lo as int, hi as int),
            final(order)@.subrange(lo as int, hi as int),
        ),
    decreases hi - lo,
{
    let ghost before = order@;
    let ghost source = order@.subrange(lo as int, hi as int);
    if hi - lo < 2 {
        proof {
            reveal(is_stable_sort);
            assert forall|i: int| lo <= i < hi implies (#[trigger] order@[i]) < objects@.len() by {
                assert(source[i - lo] == order@[i]);
            }
        }
        return ;
    }
    let mid = lo + (hi - lo) / 2;
    proof {
        let left = before.subrange(lo as int, mid as int);
        let right = before.subrange(mid as int, hi as int);
        assert forall|n: int| 0 <= n < left.len() implies (#[trigger] left[n]) < objects@.len()
            && !key(objects@, axis as int, left[n]).nan() by {
            assert(left[n] == source[n]);
        }
        assert forall|n: int| 0 <= n < right.len() implies (#[trigger] right[n]) < objects@.len()
            && !key(objects@, axis as int, right[n]).nan() by {
            assert(right[n] == source[mid - lo + n]);
        }
    }
    sort_range(order, objects, axis, lo, mid);
    let ghost first = order@;
    proof {
        assert(first.subrange(mid as int, hi as int) =~= before.subrange(mid as int, hi as int));
    }
    sort_range(order, objects, axis, mid, hi);
    let ghost second = order@;
    proof {
        assert(second.subrange(lo as int, mid as int) =~= first.subrange(lo as int, mid as int));
        reveal(is_stable_sort);
    }
    let origin = merge(order, objects, axis, lo, mid, hi);
    proof {
        let a = second.subrange(lo as int, mid as int);
        let b = second.subrange(mid as int, hi as int);
        let out = order@.subrange(lo as int, hi as int);
        assert(source.take(mid - lo) =~= before.subrange(lo as int, mid as int));
        assert(source.skip(mid - lo) =~= before.subrange(mid as int, hi as int));
        lemma_merged_is_sorted(objects@, axis as int, source, mid - lo, a, b, out, origin@);
        assert forall|i: int| lo <= i < hi implies (#[trigger] order@[i]) < objects@.len() by {
            assert(out[i - lo] == order@[i]);
        }
        assert forall|i: int| 0 <= i < lo || hi <= i < before.len() implies order@[i] == before[i] by {
            assert(second[i] == first[i]);
            assert(first[i] == before[i]);
        }
    }
}

} // verus!
