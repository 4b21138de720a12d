//! Row-major index helpers, used to compare a Morton-ordered buffer with a
//! plain one.
use vstd::prelude::*;

verus! {

/// Row-major offset of `(x, y)` in a grid whose rows are `stride` long.
pub open spec fn row_major_index(x: int, y: int, stride: int) -> int {
    stride * y + x
}

/// Row-major offset of the coordinate pair `xy` in a grid whose rows are
/// `stride` long.
pub fn idx_tile_tuple(xy: (u16, u16), stride: usize) -> (r: usize)
    requires
        row_major_index(xy.0 as int, xy.1 as int, stride as int) <= usize::MAX,
    ensures
        r == row_major_index(xy.0 as int, xy.1 as int, stride as int),
{
    let (x, y) = xy;
    stride * y as usize + x as usize
}

/// Row-major offset of `(x, y)` in a grid whose rows are `stride` long.
pub fn idx_tile(x: usize, y: usize, stride: usize) -> (r: usize)
    requires
        row_major_index(x as int, y as int, stride as int) <= usize::MAX,
    ensures
        r == row_major_index(x as int, y as int, stride as int),
{
    stride * y + x
}

} // verus!
