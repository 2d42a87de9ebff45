use vstd::prelude::*;

verus! {

/// Whether a checker texture shows its even texture at the cell `(ix, iy, iz)`
/// (the coordinates of a point scaled and rounded down): exactly where the
/// three cell coordinates add up to an even number.
pub fn checker_is_even(ix: i32, iy: i32, iz: i32) -> (r: bool)
    requires
        i32::MIN <= ix + iy <= i32::MAX,
        i32::MIN <= ix + iy + iz <= i32::MAX,
    ensures
        r == ((ix + iy + iz) % 2 == 0),
{
    let sum: i32 = ix + iy + iz;
    sum % 2 == 0
}

/// Neighbouring cells of a checker texture alternate: stepping one cell along
/// x, y or z switches between the even and the odd texture.
pub proof fn lemma_neighbouring_cells_alternate(ix: int, iy: int, iz: int)
    ensures
        ((ix + 1 + iy + iz) % 2 == 0) != ((ix + iy + iz) % 2 == 0),
        ((ix + (iy + 1) + iz) % 2 == 0) != ((ix + iy + iz) % 2 == 0),
        ((ix + iy + (iz + 1)) % 2 == 0) != ((ix + iy + iz) % 2 == 0),
{
}

/// The position of pixel `(i, j)` in the row-major pixels of an image `width`
/// pixels wide holding `len` pixels, or `None` where that position lies past
/// the end.
pub fn texel_index(i: usize, j: usize, width: u32, len: usize) -> (r: Option<usize>)
    requires
        j * width + i <= usize::MAX,
    ensures
        j * width + i < len ==> r == Some((j * width + i) as usize),
        j * width + i >= len ==> r is None,
{
    proof {
        assert(0 <= j * width) by (nonlinear_arith);
    }
    let index: usize = j * (width as usize) + i;
    if index >= len {
        None
    } else {
        Some(index)
    }
}

} // verus!
