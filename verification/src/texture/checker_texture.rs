//! A checkerboard in space.
use vstd::prelude::*;
use crate::primitive::point3::Point3;
use crate::primitive::scalar::Scalar;

verus! {

/// Space cut into cubes of one edge length, alternating between two
/// textures: a cube takes the even texture when the sum of its three whole
/// coordinates is even. The texture coordinates of the surface play no part.
#[derive(Clone, Copy, Debug)]
pub struct CheckerTexture {
    /// One over the edge length of a cube.
    pub inv_scale: Scalar,
    /// The two textures, by their places in the scene's table.
    pub even: usize,
    pub odd: usize,
}

impl CheckerTexture {
    /// Whether the cube with the whole coordinates `x`, `y`, `z` is an even
    /// one.
    pub open spec fn even_cell(x: int, y: int, z: int) -> bool {
        (x + y + z) % 2 == 0
    }

    /// The whole coordinate of the cube that a scaled coordinate lies in.
    pub open spec fn cell_of(scaled: Scalar) -> int {
        scaled.floor_within(i32::MIN as int, i32::MAX as int)
    }

    /// The texture of the cube in which a scaled point lies.
    pub open spec fn chosen(self, scaled: Point3) -> usize {
        if Self::even_cell(
            Self::cell_of(scaled.x),
            Self::cell_of(scaled.y),
            Self::cell_of(scaled.z),
        ) {
            self.even
        } else {
            self.odd
        }
    }

    /// A checkerboard of cubes whose edge is one over `inv_scale`.
    pub fn new(inv_scale: Scalar, even: usize, odd: usize) -> (t: CheckerTexture)
        ensures
            t.inv_scale == inv_scale,
            t.even == even,
            t.odd == odd,
    {
        CheckerTexture { inv_scale, even, odd }
    }

    /// The texture to take the colour from. `scaled` is the point that was
    /// hit with every coordinate multiplied by `inv_scale`.
    pub fn value(&self, scaled: &Point3) -> (texture: usize)
        ensures
            texture == self.chosen(*scaled),
    {
        let x_int: i64 = scaled.x.floor_i32() as i64;
        let y_int: i64 = scaled.y.floor_i32() as i64;
        let z_int: i64 = scaled.z.floor_i32() as i64;
        let sum: i64 = x_int + y_int + z_int;
        // The remainder of a negative sum is 0 or -1: only 0 means even.
        let is_even = sum % 2 == 0;
        if is_even {
            self.even
        } else {
            self.odd
        }
    }
}

/// Two points in one cube take the same texture, wherever they lie in it.
pub proof fn lemma_same_cell_same_texture(t: CheckerTexture, p: Point3, q: Point3)
    requires
        CheckerTexture::cell_of(p.x) == CheckerTexture::cell_of(q.x),
        CheckerTexture::cell_of(p.y) == CheckerTexture::cell_of(q.y),
        CheckerTexture::cell_of(p.z) == CheckerTexture::cell_of(q.z),
    ensures
        t.chosen(p) == t.chosen(q),
{
}

/// Two points whose cubes have sums of the same parity take the same
/// texture.
pub proof fn lemma_same_parity_same_texture(t: CheckerTexture, p: Point3, q: Point3)
    requires
        (CheckerTexture::cell_of(p.x) + CheckerTexture::cell_of(p.y) + CheckerTexture::cell_of(p.z))
            % 2 == (CheckerTexture::cell_of(q.x) + CheckerTexture::cell_of(q.y)
            + CheckerTexture::cell_of(q.z)) % 2,
    ensures
        t.chosen(p) == t.chosen(q),
{
}

/// Cubes that share a face alternate: one step along any one axis turns an
/// even cube into an odd one and back.
pub proof fn lemma_adjacent_cells_alternate(x: int, y: int, z: int)
    ensures
        CheckerTexture::even_cell(x + 1, y, z) != CheckerTexture::even_cell(x, y, z),
        CheckerTexture::even_cell(x, y + 1, z) != CheckerTexture::even_cell(x, y, z),
        CheckerTexture::even_cell(x, y, z + 1) != CheckerTexture::even_cell(x, y, z),
{
}

} // verus!
