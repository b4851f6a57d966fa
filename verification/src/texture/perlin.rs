//! The lattice of Perlin noise.
use vstd::prelude::*;
use vstd::arithmetic::div_mod::lemma_mod_multiples_vanish;
use vstd::seq_lib::to_multiset_update;
use crate::primitive::point3::Point3;
use crate::primitive::vec3::Vec3;

verus! {

/// The number of gradients, and the length of each permutation table.
pub const POINT_CNT: usize = 256;

/// Noise over the lattice of points with whole coordinates: a table of 256
/// gradients, and for each axis a permutation of 0..256 that scrambles the
/// coordinate on that axis.
#[derive(Debug)]
pub struct Perlin {
    pub randvec: Vec<Vec3>,
    pub perm_x: Vec<usize>,
    pub perm_y: Vec<usize>,
    pub perm_z: Vec<usize>,
}

/// A number drawn by `rand::random`. Nothing is said of its value.
#[verifier::external_body]
fn random_usize() -> usize {
    rand::random::<usize>()
}

impl Perlin {
    /// Whether a table holds each of 0..256 exactly once.
    pub open spec fn is_permutation(s: Seq<usize>) -> bool {
        &&& s.len() == 256
        &&& forall|i: int| 0 <= i < 256 ==> #[trigger] s[i] < 256
        &&& forall|i: int, j: int| 0 <= i < j < 256 ==> s[i] != s[j]
    }

    /// Whether `v` is among the first `n` entries of a table.
    pub open spec fn occurs(s: Seq<usize>, n: int, v: usize) -> bool {
        exists|b: int| 0 <= b < n && s[b] == v
    }

    /// The table 0, 1, 2, .. up to `n`.
    pub open spec fn identity(n: nat) -> Seq<usize> {
        Seq::new(n, |i: int| i as usize)
    }

    /// 256 gradients and three permutations.
    pub open spec fn wf(self) -> bool {
        &&& self.randvec@.len() == 256
        &&& Self::is_permutation(self.perm_x@)
        &&& Self::is_permutation(self.perm_y@)
        &&& Self::is_permutation(self.perm_z@)
    }

    /// The place in the gradient table of the lattice point (i, j, k): each
    /// coordinate is taken modulo 256 and scrambled by the permutation of its
    /// axis, and the three results are combined by exclusive or.
    pub open spec fn slot(self, i: int, j: int, k: int) -> int {
        (self.perm_x@[i % 256] ^ self.perm_y@[j % 256] ^ self.perm_z@[k % 256]) as int
    }

    /// The gradient of the lattice point (i, j, k).
    pub open spec fn gradient(self, i: int, j: int, k: int) -> Vec3 {
        self.randvec@[self.slot(i, j, k)]
    }

    /// The whole coordinate of the lattice cell that a coordinate lies in.
    pub open spec fn cell_of(s: crate::primitive::scalar::Scalar) -> int {
        s.floor_within(i32::MIN as int, i32::MAX as int)
    }

    /// Noise over the given gradients, with three permutations drawn afresh.
    pub fn new(randvec: Vec<Vec3>) -> (p: Perlin)
        requires
            randvec@.len() == 256,
        ensures
            p.randvec == randvec,
            p.wf(),
            Self::is_shuffle_of(Self::identity(256), 256, p.perm_x@),
            Self::is_shuffle_of(Self::identity(256), 256, p.perm_y@),
            Self::is_shuffle_of(Self::identity(256), 256, p.perm_z@),
    {
        let perm_x = Self::generate_perm();
        let perm_y = Self::generate_perm();
        let perm_z = Self::generate_perm();
        Perlin { randvec, perm_x, perm_y, perm_z }
    }

    /// Whether a table holds each of 0..256 exactly once.
    pub fn holds_each_once(table: &Vec<usize>) -> (r: bool)
        ensures
            r == Self::is_permutation(table@),
    {
        if table.len() != POINT_CNT {
            return false;
        }
        let mut seen: Vec<bool> = Vec::new();
        let mut k: usize = 0;
        while k < POINT_CNT
            invariant
                k <= POINT_CNT,
                seen@.len() == k,
                forall|v: int| 0 <= v < k ==> !(#[trigger] seen@[v]),
            decreases POINT_CNT - k,
        {
            seen.push(false);
            k = k + 1;
        }
        let mut i: usize = 0;
        while i < POINT_CNT
            invariant
                i <= POINT_CNT,
                table@.len() == 256,
                seen@.len() == 256,
                forall|j: int| 0 <= j < i ==> (#[trigger] table@[j]) < 256,
                forall|a: int, b: int| 0 <= a < b < i ==> table@[a] != table@[b],
                forall|v: int|
                    0 <= v < 256 ==> (#[trigger] seen@[v]) == Self::occurs(table@, i as int, v as usize),
            decreases POINT_CNT - i,
        {
            let v = table[i];
            if v >= POINT_CNT {
                return false;
            }
            if seen[v] {
                proof {
                    assert(Self::occurs(table@, i as int, v));
                    let b = choose|b: int| 0 <= b < i && table@[b] == v;
                    assert(table@[b] == table@[i as int]);
                }
                return false;
            }
            let ghost before = seen@;
            seen.set(v, true);
            proof {
                assert forall|a: int, b: int| 0 <= a < b < i + 1 implies table@[a] != table@[b] by {
                    if b == i {
                        if table@[a] == v {
                            assert(Self::occurs(table@, i as int, v));
                        }
                    }
                }
                assert forall|w: int| 0 <= w < 256 implies (#[trigger] seen@[w]) == Self::occurs(
                    table@,
                    i + 1,
                    w as usize,
                ) by {
                    if w == v {
                        assert(table@[i as int] == w as usize);
                    } else {
                        assert(seen@[w] == before[w]);
                        if Self::occurs(table@, i + 1, w as usize) {
                            let b = choose|b: int| 0 <= b < i + 1 && table@[b] == w as usize;
                            assert(b < i);
                        }
                        if Self::occurs(table@, i as int, w as usize) {
                            let b = choose|b: int| 0 <= b < i && table@[b] == w as usize;
                            assert(0 <= b < i + 1 && table@[b] == w as usize);
                        }
                    }
                }
            }
            i = i + 1;
        }
        true
    }

    /// Whether the noise has its 256 gradients and three permutations, so
    /// that the lattice can be read.
    pub fn is_well_formed(&self) -> (r: bool)
        ensures
            r == self.wf(),
    {
        self.randvec.len() == POINT_CNT && Self::holds_each_once(&self.perm_x)
            && Self::holds_each_once(&self.perm_y) && Self::holds_each_once(&self.perm_z)
    }

    /// A coordinate, moved by 0 or 1, modulo 256.
    fn wrap(i: i32, di: i32) -> (r: usize)
        requires
            0 <= di <= 1,
        ensures
            r == (i + di) % 256,
            r < 256,
    {
        let shifted: i64 = i as i64 + 0x8000_0000 + di as i64;
        let lifted: u64 = shifted as u64;
        proof {
            lemma_mod_multiples_vanish(0x80_0000, i + di, 256);
        }
        (lifted % 256) as usize
    }

    /// The gradient of the lattice point whose coordinates are those of the
    /// cell (i, j, k) moved by (di, dj, dk).
    pub fn corner(&self, i: i32, j: i32, k: i32, di: i32, dj: i32, dk: i32) -> (g: Vec3)
        requires
            self.wf(),
            0 <= di <= 1,
            0 <= dj <= 1,
            0 <= dk <= 1,
        ensures
            g == self.gradient(i + di, j + dj, k + dk),
    {
        let a: usize = self.perm_x[Self::wrap(i, di)];
        let b: usize = self.perm_y[Self::wrap(j, dj)];
        let c: usize = self.perm_z[Self::wrap(k, dk)];
        assert(a ^ b ^ c < 256) by (bit_vector)
            requires
                a < 256,
                b < 256,
                c < 256,
        ;
        self.randvec[a ^ b ^ c]
    }

    /// The gradients of the eight corners of the lattice cell that holds
    /// `p`: the entry at [di][dj][dk] belongs to the corner that lies di, dj
    /// and dk steps up the three axes from the cell's lowest corner.
    pub fn corners(&self, p: &Point3) -> (c: [[[Vec3; 2]; 2]; 2])
        requires
            self.wf(),
        ensures
            forall|di: int, dj: int, dk: int|
                0 <= di < 2 && 0 <= dj < 2 && 0 <= dk < 2 ==> #[trigger] c[di][dj][dk]
                    == self.gradient(
                    Self::cell_of(p.x) + di,
                    Self::cell_of(p.y) + dj,
                    Self::cell_of(p.z) + dk,
                ),
    {
        let i: i32 = p.x.floor_i32();
        let j: i32 = p.y.floor_i32();
        let k: i32 = p.z.floor_i32();
        [
            [
                [self.corner(i, j, k, 0, 0, 0), self.corner(i, j, k, 0, 0, 1)],
                [self.corner(i, j, k, 0, 1, 0), self.corner(i, j, k, 0, 1, 1)],
            ],
            [
                [self.corner(i, j, k, 1, 0, 0), self.corner(i, j, k, 1, 0, 1)],
                [self.corner(i, j, k, 1, 1, 0), self.corner(i, j, k, 1, 1, 1)],
            ],
        ]
    }

    /// A permutation of 0..256 drawn at random.
    pub fn generate_perm() -> (p: Vec<usize>)
        ensures
            Self::is_shuffle_of(Self::identity(256), 256, p@),
            Self::is_permutation(p@),
            p@.to_multiset() == Self::identity(256).to_multiset(),
    {
        let mut p: Vec<usize> = Vec::new();
        let mut i: usize = 0;
        while i < POINT_CNT
            invariant
                i <= POINT_CNT,
                p@ == Self::identity(i as nat),
            decreases POINT_CNT - i,
        {
            p.push(i);
            i = i + 1;
            assert(p@ =~= Self::identity(i as nat));
        }
        let shuffled = Self::permute(p, POINT_CNT);
        proof {
            assert forall|a: int| 0 <= a < 256 implies #[trigger] shuffled@[a] < 256 by {
                assert(Self::occurs(p@, 256, shuffled@[a]));
                let b = choose|b: int| 0 <= b < 256 && p@[b] == shuffled@[a];
                assert(p@[b] == b);
            }
            assert forall|a: int, b: int| 0 <= a < b < 256 implies shuffled@[a] != shuffled@[b] by {
            }
        }
        shuffled
    }

    /// A table after entry `i` has changed places with the entry that a
    /// number drawn picks among those up to it.
    pub open spec fn exchanged(s: Seq<usize>, i: int, drawn: int) -> Seq<usize> {
        let target = drawn % (i + 1);
        s.update(i, s[target]).update(target, s[i])
    }

    /// Exchanges entry `i` with the entry at `drawn` modulo `i + 1`: one
    /// step of a shuffle.
    pub fn exchange(p: &mut Vec<usize>, i: usize, drawn: usize)
        requires
            i < old(p)@.len(),
        ensures
            final(p)@ == Self::exchanged(old(p)@, i as int, drawn as int),
            final(p)@.to_multiset() == old(p)@.to_multiset(),
    {
        let ghost s0 = p@;
        let len: usize = p.len();
        let target: usize = drawn % (i + 1);
        let x: usize = p[i];
        let y: usize = p[target];
        p.set(i, y);
        p.set(target, x);
        proof {
            let s1 = s0.update(i as int, y);
            to_multiset_update(s0, i as int, y);
            to_multiset_update(s1, target as int, x);
            assert(s1[target as int] == y);
            assert(s0.to_multiset().count(x) > 0) by {
                s0.to_multiset_ensures();
                assert(s0.contains(x));
            }
            assert(s0.to_multiset().count(y) > 0) by {
                s0.to_multiset_ensures();
                assert(s0.contains(y));
            }
            assert(p@.to_multiset() =~= s0.to_multiset());
        }
    }

    /// The first `n` entries of a table in a random order: from the last of
    /// them down, each entry changes places with one drawn at random among
    /// those up to it. The entries from `n` on stay.
    pub fn permute(p: Vec<usize>, n: usize) -> (r: Vec<usize>)
        requires
            n <= p@.len(),
        ensures
            Self::is_shuffle_of(p@, n as int, r@),
            r@.len() == p@.len(),
            r@.to_multiset() == p@.to_multiset(),
            forall|i: int| n <= i < p@.len() ==> r@[i] == p@[i],
            forall|a: int| 0 <= a < n ==> Self::occurs(p@, n as int, #[trigger] r@[a]),
            (forall|a: int, b: int| 0 <= a < b < n ==> p@[a] != p@[b]) ==> (forall|a: int, b: int|
                0 <= a < b < n ==> r@[a] != r@[b]),
    {
        let mut draws: Vec<usize> = Vec::new();
        let mut k: usize = 0;
        while k < n
            invariant
                k <= n,
                draws@.len() == k,
            decreases n - k,
        {
            draws.push(random_usize());
            k = k + 1;
        }
        let r = Self::shuffle(p, n, &draws);
        proof {
            assert(draws@.len() == n && r@ == Self::shuffled(p@, n as int, draws@, n as int));
        }
        r
    }

    /// The table after the first `k` steps of a shuffle of its first `n`
    /// entries by the numbers `draws`. The steps go from the last of the
    /// entries down: step `m`, counted from 0, exchanges entry `n - 1 - m`
    /// with the entry that `draws[m]` picks among those up to it.
    pub open spec fn shuffled(s: Seq<usize>, n: int, draws: Seq<usize>, k: int) -> Seq<usize>
        decreases k,
    {
        if k <= 0 {
            s
        } else {
            Self::exchanged(Self::shuffled(s, n, draws, k - 1), n - k, draws[k - 1] as int)
        }
    }

    /// Whether `r` is the table `s` with its first `n` entries shuffled by
    /// some `n` numbers.
    pub open spec fn is_shuffle_of(s: Seq<usize>, n: int, r: Seq<usize>) -> bool {
        exists|draws: Seq<usize>|
            #![trigger Self::shuffled(s, n, draws, n)]
            draws.len() == n && r == Self::shuffled(s, n, draws, n)
    }

    /// The first `n` entries of a table shuffled by the numbers `draws`,
    /// which stand for what was drawn: from the last entry down, each
    /// changes places with the one that the next number picks among those
    /// up to it. The entries from `n` on stay.
    pub fn shuffle(p: Vec<usize>, n: usize, draws: &Vec<usize>) -> (r: Vec<usize>)
        requires
            n <= p@.len(),
            n <= draws@.len(),
        ensures
            r@ == Self::shuffled(p@, n as int, draws@, n as int),
            r@.len() == p@.len(),
            r@.to_multiset() == p@.to_multiset(),
            forall|i: int| n <= i < p@.len() ==> r@[i] == p@[i],
            forall|a: int| 0 <= a < n ==> Self::occurs(p@, n as int, #[trigger] r@[a]),
            (forall|a: int, b: int| 0 <= a < b < n ==> p@[a] != p@[b]) ==> (forall|a: int, b: int|
                0 <= a < b < n ==> r@[a] != r@[b]),
    {
        let ghost before = p@;
        let mut p = p;
        let mut k: usize = 0;
        assert forall|a: int| 0 <= a < n implies Self::occurs(before, n as int, #[trigger] p@[a]) by {
            assert(before[a] == p@[a]);
        }
        while k < n
            invariant
                k <= n <= p@.len(),
                n <= draws@.len(),
                p@ == Self::shuffled(before, n as int, draws@, k as int),
                p@.len() == before.len(),
                p@.to_multiset() == before.to_multiset(),
                forall|a: int| n <= a < before.len() ==> p@[a] == before[a],
                forall|a: int| 0 <= a < n ==> Self::occurs(before, n as int, #[trigger] p@[a]),
                (forall|a: int, b: int| 0 <= a < b < n ==> before[a] != before[b]) ==> (forall|
                    a: int,
                    b: int,
                | 0 <= a < b < n ==> p@[a] != p@[b]),
            decreases n - k,
        {
            let i: usize = n - 1 - k;
            let ghost s0 = p@;
            let drawn = draws[k];
            Self::exchange(&mut p, i, drawn);
            proof {
                let target = drawn as int % (i + 1);
                assert forall|a: int| 0 <= a < n implies Self::occurs(
                    before,
                    n as int,
                    #[trigger] p@[a],
                ) by {
                    if a == i as int {
                        assert(p@[a] == s0[target]);
                    } else if a == target {
                        assert(p@[a] == s0[i as int]);
                    } else {
                        assert(p@[a] == s0[a]);
                    }
                }
            }
            k = k + 1;
        }
        p
    }
}

} // verus!
