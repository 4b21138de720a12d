//! Repacking a row-major grid into square tiles, each ordered by Morton key.
use vstd::prelude::*;
use vstd::arithmetic::div_mod::{
    lemma_fundamental_div_mod, lemma_fundamental_div_mod_converse, lemma_small_mod,
};

use crate::codec::{
    compact, deinterleave_morton, lemma_decode_encode, lemma_encode_decode,
    lemma_morton_coords_compact, lemma_morton_key_spread, morton_coords, morton_key, spread,
};

verus! {

/// The largest tile side: a tile-local coordinate must fit in 16 bits.
pub const MAX_TILE_SIDE: usize = 65536;

/// `n` is a power of two.
pub open spec fn is_pow2(n: int) -> bool
    decreases n,
{
    if n <= 0 {
        false
    } else if n == 1 {
        true
    } else {
        n % 2 == 0 && is_pow2(n / 2)
    }
}

/// `side` can tile a `width` x `height` grid: a power of two no larger than
/// `MAX_TILE_SIDE` that divides both dimensions.
pub open spec fn fits_grid(width: int, height: int, side: int) -> bool {
    &&& is_pow2(side)
    &&& side <= MAX_TILE_SIDE
    &&& width % side == 0
    &&& height % side == 0
}

/// `side` is the tile side of a `width` x `height` grid: the largest side
/// that fits it.
pub open spec fn is_tile_side(width: int, height: int, side: int) -> bool {
    &&& fits_grid(width, height, side)
    &&& forall|p: int| #[trigger] fits_grid(width, height, p) ==> p <= side
}

/// Of two powers of two, the larger is at least twice the smaller.
proof fn lemma_pow2_gap(p: int, s: int)
    requires
        is_pow2(p),
        is_pow2(s),
        p > s,
    ensures
        p >= 2 * s,
    decreases s,
{
    if s != 1 {
        lemma_pow2_gap(p / 2, s / 2);
    }
}

/// A positive number is no smaller than any of its divisors.
proof fn lemma_divisor_le(n: int, p: int)
    requires
        n > 0,
        p > 0,
        n % p == 0,
    ensures
        p <= n,
{
    if p > n {
        lemma_small_mod(n as nat, p as nat);
    }
}

/// Two tile sides of one grid are equal: the tile side is determined by the
/// dimensions.
pub proof fn lemma_tile_side_unique(width: int, height: int, s1: int, s2: int)
    requires
        is_tile_side(width, height, s1),
        is_tile_side(width, height, s2),
    ensures
        s1 == s2,
{
    assert(fits_grid(width, height, s1));
    assert(fits_grid(width, height, s2));
}

/// A square grid whose side `n` is a power of two no larger than
/// `MAX_TILE_SIDE` is a single tile: its tile side is `n`.
pub proof fn lemma_square_pow2_tile_side(n: int)
    requires
        is_pow2(n),
        n <= MAX_TILE_SIDE,
    ensures
        is_tile_side(n, n, n),
{
    assert(n % n == 0) by (nonlinear_arith)
        requires
            n > 0,
    ;
    assert forall|p: int| #[trigger] fits_grid(n, n, p) implies p <= n by {
        lemma_divisor_le(n, p);
    }
}

/// The tile side of a `width` x `height` grid: the largest power of two, at
/// most `MAX_TILE_SIDE`, that divides both dimensions.
pub fn derive_tile_side(width: usize, height: usize) -> (side: usize)
    requires
        width > 0,
        height > 0,
    ensures
        is_tile_side(width as int, height as int, side as int),
{
    let bound = if width < height {
        width
    } else {
        height
    };
    let bound = if bound < MAX_TILE_SIDE {
        bound
    } else {
        MAX_TILE_SIDE
    };
    let mut side: usize = 1;
    while side <= bound / 2
        invariant
            1 <= side <= bound,
            bound <= width,
            bound <= height,
            bound <= MAX_TILE_SIDE,
            is_pow2(side as int),
        decreases bound - side,
    {
        side = side * 2;
    }
    assert forall|p: int| #[trigger] fits_grid(width as int, height as int, p) implies p
        <= side by {
        lemma_divisor_le(width as int, p);
        lemma_divisor_le(height as int, p);
        if p > side {
            lemma_pow2_gap(p, side as int);
        }
    }
    while !(width % side == 0 && height % side == 0)
        invariant
            1 <= side <= MAX_TILE_SIDE,
            is_pow2(side as int),
            forall|p: int| #[trigger] fits_grid(width as int, height as int, p) ==> p <= side,
        decreases side,
    {
        let half = side / 2;
        assert forall|p: int| #[trigger] fits_grid(width as int, height as int, p) implies p
            <= half by {
            if p > half {
                lemma_pow2_gap(p, half as int);
            }
        }
        side = half;
    }
    side
}

/// A power of two up to `MAX_TILE_SIDE` is `1 << k` for some `k <= 16`.
proof fn lemma_pow2_exponent(n: int) -> (k: u64)
    requires
        is_pow2(n),
        n <= MAX_TILE_SIDE,
    ensures
        k <= 16,
        n == (1u64 << k),
    decreases n,
{
    if n == 1 {
        assert((1u64 << 0u64) == 1) by (bit_vector);
        0
    } else {
        let j = lemma_pow2_exponent(n / 2);
        assert(j <= 15 && (1u64 << ((j + 1) as u64)) == 2 * (1u64 << j)) by (bit_vector)
            requires
                j <= 16,
                (1u64 << j) <= 32768,
        ;
        (j + 1) as u64
    }
}

/// Tile-local coordinates have a Morton key inside the tile.
proof fn lemma_local_key_bound(side: int, lx: u16, ly: u16)
    requires
        is_pow2(side),
        side <= MAX_TILE_SIDE,
        lx < side,
        ly < side,
    ensures
        morton_key(lx, ly) < side * side,
{
    let k = lemma_pow2_exponent(side);
    lemma_morton_key_spread(lx, ly);
    let z = spread(lx as u32) | (spread(ly as u32) << 1);
    assert((z as u64) < (1u64 << ((2 * k) as u64)) && (1u64 << k) * (1u64 << k) == (1u64 << ((2
        * k) as u64))) by (bit_vector)
        requires
            k <= 16,
            (lx as u64) < (1u64 << k),
            (ly as u64) < (1u64 << k),
            z == spread(lx as u32) | (spread(ly as u32) << 1),
    ;
}

/// A Morton key inside a tile holds tile-local coordinates.
proof fn lemma_local_coords_bound(side: int, m: u32)
    requires
        is_pow2(side),
        side <= MAX_TILE_SIDE,
        m < side * side,
    ensures
        morton_coords(m).0 < side,
        morton_coords(m).1 < side,
{
    let k = lemma_pow2_exponent(side);
    lemma_morton_coords_compact(m);
    assert((1u64 << k) * (1u64 << k) == (1u64 << ((2 * k) as u64))) by (bit_vector)
        requires
            k <= 16,
    ;
    assert(((compact(m) as u16) as u64) < (1u64 << k) && ((compact(m >> 1) as u16) as u64) < (1u64
        << k)) by (bit_vector)
        requires
            k <= 16,
            (m as u64) < (1u64 << ((2 * k) as u64)),
    ;
}

/// Where the cell `(x, y)` of a grid `width` wide goes in the tiled buffer:
/// the base of its tile, tiles taken row by row, plus the Morton key of its
/// coordinates inside the tile.
pub open spec fn dest_index(width: int, side: int, x: int, y: int) -> int {
    ((y / side) * (width / side) + x / side) * (side * side) + morton_key(
        (x % side) as u16,
        (y % side) as u16,
    ) as int
}

/// The column of the grid cell stored at offset `d` of the tiled buffer: the
/// column of its tile's corner plus the `x` decoded from its local key.
pub open spec fn source_x(width: int, side: int, d: int) -> int {
    (d / (side * side)) % (width / side) * side + morton_coords((d % (side * side)) as u32).0 as int
}

/// The row of the grid cell stored at offset `d` of the tiled buffer: the row
/// of its tile's corner plus the `y` decoded from its local key.
pub open spec fn source_y(width: int, side: int, d: int) -> int {
    (d / (side * side)) / (width / side) * side + morton_coords((d % (side * side)) as u32).1 as int
}

/// Row-major offset of the grid cell stored at offset `d` of the tiled buffer.
pub open spec fn source_index(width: int, side: int, d: int) -> int {
    source_y(width, side, d) * width + source_x(width, side, d)
}

/// Offset in the tiled buffer of the grid cell at row-major offset `s`.
pub open spec fn placement(width: int, side: int, s: int) -> int {
    dest_index(width, side, s % width, s / width)
}

proof fn lemma_mul_bounds(q: int, n: int, r: int, d: int)
    by (nonlinear_arith)
    requires
        0 <= q < n,
        0 <= r < d,
    ensures
        0 <= q * d + r < n * d,
        q * d <= q * d + r,
{
}

proof fn lemma_quotient_bound(x: int, q: int, r: int, d: int, n: int)
    by (nonlinear_arith)
    requires
        d > 0,
        0 <= r,
        x == d * q + r,
        x < n * d,
    ensures
        q < n,
{
}

/// The dimensions of a grid that `side` fits, counted in tiles.
pub(crate) proof fn lemma_grid_in_tiles(width: int, height: int, side: int)
    requires
        width > 0,
        height > 0,
        fits_grid(width, height, side),
    ensures
        side > 0,
        width == (width / side) * side,
        height == (height / side) * side,
        width / side > 0,
        height / side > 0,
        width * height == ((height / side) * (width / side)) * (side * side),
{
    lemma_fundamental_div_mod(width, side);
    lemma_fundamental_div_mod(height, side);
    let tx = width / side;
    let ty = height / side;
    assert(width * height == (ty * tx) * (side * side)) by (nonlinear_arith)
        requires
            width == side * tx,
            height == side * ty,
    ;
    assert(tx > 0 && ty > 0) by (nonlinear_arith)
        requires
            width == side * tx,
            height == side * ty,
            width > 0,
            height > 0,
            side > 0,
    ;
}

/// Placing the grid cell `(x, y)` and reading back its coordinates gives
/// `(x, y)`.
proof fn lemma_coords_round_trip(width: int, height: int, side: int, x: int, y: int)
    requires
        width > 0,
        height > 0,
        fits_grid(width, height, side),
        0 <= x < width,
        0 <= y < height,
    ensures
        0 <= dest_index(width, side, x, y) < width * height,
        source_x(width, side, dest_index(width, side, x, y)) == x,
        source_y(width, side, dest_index(width, side, x, y)) == y,
{
    lemma_grid_in_tiles(width, height, side);
    let tx = width / side;
    let ty = height / side;
    let a = side * side;
    lemma_fundamental_div_mod(x, side);
    lemma_fundamental_div_mod(y, side);
    let cx = x / side;
    let lx = x % side;
    let cy = y / side;
    let ly = y % side;
    lemma_quotient_bound(x, cx, lx, side, tx);
    lemma_quotient_bound(y, cy, ly, side, ty);
    lemma_local_key_bound(side, lx as u16, ly as u16);
    let m = morton_key(lx as u16, ly as u16) as int;
    let t = cy * tx + cx;
    lemma_mul_bounds(cy, ty, cx, tx);
    lemma_mul_bounds(t, ty * tx, m, a);
    let d = t * a + m;
    assert(d == dest_index(width, side, x, y));
    lemma_fundamental_div_mod_converse(d, a, t, m);
    lemma_fundamental_div_mod_converse(t, tx, cy, cx);
    lemma_decode_encode(lx as u16, ly as u16);
    assert(cx * side + lx == x && cy * side + ly == y) by (nonlinear_arith)
        requires
            x == side * cx + lx,
            y == side * cy + ly,
    ;
}

/// Reading the coordinates stored at offset `d` and placing them again gives
/// `d`.
proof fn lemma_offset_round_trip(width: int, height: int, side: int, d: int)
    requires
        width > 0,
        height > 0,
        fits_grid(width, height, side),
        0 <= d < width * height,
    ensures
        0 <= source_x(width, side, d) < width,
        0 <= source_y(width, side, d) < height,
        dest_index(width, side, source_x(width, side, d), source_y(width, side, d)) == d,
{
    lemma_grid_in_tiles(width, height, side);
    let tx = width / side;
    let ty = height / side;
    let a = side * side;
    assert(a > 0) by (nonlinear_arith)
        requires
            a == side * side,
            side > 0,
    ;
    lemma_fundamental_div_mod(d, a);
    let t = d / a;
    let m = d % a;
    lemma_quotient_bound(d, t, m, a, ty * tx);
    lemma_fundamental_div_mod(t, tx);
    let col = t % tx;
    let row = t / tx;
    lemma_quotient_bound(t, row, col, tx, ty);
    assert(a <= 0x1_0000_0000) by (nonlinear_arith)
        requires
            a == side * side,
            0 < side <= MAX_TILE_SIDE,
    ;
    let mu = m as u32;
    lemma_local_coords_bound(side, mu);
    let lx = morton_coords(mu).0 as int;
    let ly = morton_coords(mu).1 as int;
    let x = col * side + lx;
    let y = row * side + ly;
    lemma_mul_bounds(col, tx, lx, side);
    lemma_mul_bounds(row, ty, ly, side);
    assert(x == source_x(width, side, d));
    assert(y == source_y(width, side, d));
    lemma_fundamental_div_mod_converse(x, side, col, lx);
    lemma_fundamental_div_mod_converse(y, side, row, ly);
    lemma_encode_decode(mu);
    assert(row * tx + col == t) by (nonlinear_arith)
        requires
            t == tx * row + col,
    ;
}

/// Tiling is a bijection on grid coordinates: every cell `(x, y)` is placed
/// at an offset inside the buffer, and the tile corner plus the decoded local
/// key of that offset reproduces `(x, y)`; every offset of the buffer holds
/// one grid cell, which is placed back at that offset.
pub proof fn lemma_tiling_coords_bijection(width: int, height: int, side: int)
    requires
        width > 0,
        height > 0,
        fits_grid(width, height, side),
    ensures
        forall|x: int, y: int|
            0 <= x < width && 0 <= y < height ==> {
                let d = #[trigger] dest_index(width, side, x, y);
                &&& 0 <= d < width * height
                &&& source_x(width, side, d) == x
                &&& source_y(width, side, d) == y
            },
        forall|d: int|
            0 <= d < width * height ==> {
                &&& 0 <= #[trigger] source_x(width, side, d) < width
                &&& 0 <= source_y(width, side, d) < height
                &&& dest_index(width, side, source_x(width, side, d), source_y(width, side, d)) == d
            },
{
    assert forall|x: int, y: int| 0 <= x < width && 0 <= y < height implies {
        let d = #[trigger] dest_index(width, side, x, y);
        &&& 0 <= d < width * height
        &&& source_x(width, side, d) == x
        &&& source_y(width, side, d) == y
    } by {
        lemma_coords_round_trip(width, height, side, x, y);
    }
    assert forall|d: int| 0 <= d < width * height implies {
        &&& 0 <= #[trigger] source_x(width, side, d) < width
        &&& 0 <= source_y(width, side, d) < height
        &&& dest_index(width, side, source_x(width, side, d), source_y(width, side, d)) == d
    } by {
        lemma_offset_round_trip(width, height, side, d);
    }
}

/// Tiling permutes the buffer: `placement` sends the row-major offsets of a
/// `width` x `height` grid onto the offsets of the tiled buffer, and
/// `source_index` is its inverse, so every element lands exactly once.
pub proof fn lemma_tiling_is_permutation(width: int, height: int, side: int)
    requires
        width > 0,
        height > 0,
        fits_grid(width, height, side),
    ensures
        forall|s: int|
            0 <= s < width * height ==> {
                &&& 0 <= #[trigger] placement(width, side, s) < width * height
                &&& source_index(width, side, placement(width, side, s)) == s
            },
        forall|d: int|
            0 <= d < width * height ==> {
                &&& 0 <= #[trigger] source_index(width, side, d) < width * height
                &&& placement(width, side, source_index(width, side, d)) == d
            },
{
    assert forall|s: int| 0 <= s < width * height implies {
        &&& 0 <= #[trigger] placement(width, side, s) < width * height
        &&& source_index(width, side, placement(width, side, s)) == s
    } by {
        lemma_fundamental_div_mod(s, width);
        let x = s % width;
        let y = s / width;
        assert(y < height) by (nonlinear_arith)
            requires
                s == width * y + x,
                0 <= x,
                s < width * height,
                width > 0,
        ;
        lemma_coords_round_trip(width, height, side, x, y);
        assert(y * width + x == s) by (nonlinear_arith)
            requires
                s == width * y + x,
        ;
    }
    assert forall|d: int| 0 <= d < width * height implies {
        &&& 0 <= #[trigger] source_index(width, side, d) < width * height
        &&& placement(width, side, source_index(width, side, d)) == d
    } by {
        lemma_offset_round_trip(width, height, side, d);
        let x = source_x(width, side, d);
        let y = source_y(width, side, d);
        lemma_mul_bounds(y, height, x, width);
        lemma_fundamental_div_mod_converse(y * width + x, width, y, x);
    }
}

} // verus!
