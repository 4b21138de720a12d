//! A grid repacked into Morton-ordered square tiles, held in one buffer.
use vstd::prelude::*;

use crate::codec::{deinterleave_morton, interleave_morton};
use crate::tiling::{
    derive_tile_side, dest_index, is_tile_side, lemma_grid_in_tiles, lemma_tiling_coords_bijection,
    lemma_tiling_is_permutation, placement, source_index, source_x, source_y,
};

verus! {

/// The buffer handed to `build_tiled_layout` does not hold `width * height`
/// elements.
#[derive(Clone, Copy, Debug, PartialEq, Eq)]
pub struct DimensionMismatch {
    pub width: usize,
    pub height: usize,
    pub len: usize,
}

/// One tile of a layout: its column and row in the grid of tiles, and the
/// range `offset .. offset + len` of the layout's buffer that holds it.
#[derive(Clone, Copy, Debug, PartialEq, Eq)]
pub struct Tile {
    pub col: usize,
    pub row: usize,
    pub offset: usize,
    pub len: usize,
}

/// What a tiled layout holds: the grid's dimensions, the tile side, and the
/// tiled buffer.
pub struct LayoutView<T> {
    pub width: nat,
    pub height: nat,
    pub side: nat,
    pub cells: Seq<T>,
}

impl<T> LayoutView<T> {
    /// The tile side is the one that the dimensions give, and the buffer holds
    /// the whole grid.
    pub open spec fn wf(self) -> bool {
        &&& self.width > 0
        &&& self.height > 0
        &&& is_tile_side(self.width as int, self.height as int, self.side as int)
        &&& self.cells.len() == self.width * self.height
        &&& self.width * self.height <= usize::MAX
    }

    /// Number of tiles in a row of tiles.
    pub open spec fn tiles_across(self) -> nat {
        self.width / self.side
    }

    /// Number of tiles in the grid.
    pub open spec fn tile_count(self) -> nat {
        (self.width / self.side) * (self.height / self.side)
    }

    /// Number of elements in one tile.
    pub open spec fn tile_len(self) -> nat {
        self.side * self.side
    }

    /// The `t`-th tile, tiles taken row by row.
    pub open spec fn tile_at(self, t: int) -> Tile {
        Tile {
            col: (t % self.tiles_across() as int) as usize,
            row: (t / self.tiles_across() as int) as usize,
            offset: (t * self.tile_len()) as usize,
            len: self.tile_len() as usize,
        }
    }

    /// Counts in tiles, and the buffer's length in tiles.
    proof fn lemma_tile_counts(self)
        requires
            self.wf(),
        ensures
            self.side > 0,
            self.tiles_across() > 0,
            self.tile_len() > 0,
            self.tile_count() > 0,
            self.tile_count() * self.tile_len() == self.cells.len(),
            self.tile_count() <= self.cells.len(),
            self.tile_len() <= self.cells.len(),
            self.cells.len() <= usize::MAX,
    {
        let v = self;
        lemma_grid_in_tiles(v.width as int, v.height as int, v.side as int);
        assert(v.side * v.side > 0) by (nonlinear_arith)
            requires
                v.side > 0,
        ;
        assert(v.tile_count() > 0) by (nonlinear_arith)
            requires
                v.width / v.side > 0,
                v.height / v.side > 0,
                v.tile_count() == (v.width / v.side) * (v.height / v.side),
        ;
        assert(v.tile_count() <= v.tile_count() * v.tile_len() && v.tile_len() <= v.tile_count()
            * v.tile_len()) by (nonlinear_arith)
            requires
                v.tile_count() > 0,
                v.tile_len() > 0,
        ;
        assert(v.tile_count() * v.tile_len() == v.cells.len()) by (nonlinear_arith)
            requires
                v.cells.len() == v.width * v.height,
                v.width * v.height == ((v.height / v.side) * (v.width / v.side)) * (v.side * v.side),
                v.tile_count() == (v.width / v.side) * (v.height / v.side),
                v.tile_len() == v.side * v.side,
        ;
    }
}

/// A grid repacked into square tiles of side `side`: tiles follow each other
/// row by row in one buffer, and inside a tile elements follow their Morton
/// key. Built once by `build_tiled_layout`, read-only afterwards.
#[derive(Debug)]
pub struct TiledLayout<T> {
    width: usize,
    height: usize,
    side: usize,
    cells: Vec<T>,
}

impl<T> View for TiledLayout<T> {
    type V = LayoutView<T>;

    closed spec fn view(&self) -> LayoutView<T> {
        LayoutView {
            width: self.width as nat,
            height: self.height as nat,
            side: self.side as nat,
            cells: self.cells@,
        }
    }
}

impl<T> TiledLayout<T> {
    #[verifier::type_invariant]
    spec fn inv(&self) -> bool {
        self@.wf()
    }

    /// Width of the grid.
    pub fn width(&self) -> (r: usize)
        ensures
            r == self@.width,
    {
        self.width
    }

    /// Height of the grid.
    pub fn height(&self) -> (r: usize)
        ensures
            r == self@.height,
    {
        self.height
    }

    /// Side of every tile.
    pub fn side(&self) -> (r: usize)
        ensures
            r == self@.side,
            is_tile_side(self@.width as int, self@.height as int, r as int),
    {
        proof {
            use_type_invariant(self);
        }
        self.side
    }

    /// Number of elements in one tile.
    pub fn tile_len(&self) -> (r: usize)
        ensures
            r == self@.tile_len(),
    {
        proof {
            use_type_invariant(self);
            self@.lemma_tile_counts();
            assert(self@.tile_len() <= self@.tile_count() * self@.tile_len()) by (nonlinear_arith)
                requires
                    self@.tile_count() > 0,
            ;
        }
        self.side * self.side
    }

    /// Number of tiles: `(width / side) * (height / side)`.
    pub fn tile_count(&self) -> (r: usize)
        ensures
            r == self@.tile_count(),
    {
        proof {
            use_type_invariant(self);
            self@.lemma_tile_counts();
            assert(self@.tile_count() <= self@.tile_count() * self@.tile_len()) by (nonlinear_arith)
                requires
                    self@.tile_len() > 0,
            ;
        }
        (self.width / self.side) * (self.height / self.side)
    }

    /// The `t`-th tile, tiles taken row by row.
    pub fn tile(&self, t: usize) -> (r: Tile)
        requires
            t < self@.tile_count(),
        ensures
            r == self@.tile_at(t as int),
    {
        proof {
            use_type_invariant(self);
            self@.lemma_tile_counts();
            assert(t * self@.tile_len() < self@.tile_count() * self@.tile_len()) by (nonlinear_arith)
                requires
                    t < self@.tile_count(),
                    self@.tile_len() > 0,
            ;
        }
        let across = self.width / self.side;
        let len = self.side * self.side;
        Tile { col: t % across, row: t / across, offset: t * len, len }
    }

    /// Every tile, row by row.
    pub fn tiles(&self) -> (r: Vec<Tile>)
        ensures
            r@.len() == self@.tile_count(),
            forall|t: int| 0 <= t < r@.len() ==> r@[t] == self@.tile_at(t),
    {
        let count = self.tile_count();
        let mut r: Vec<Tile> = Vec::with_capacity(count);
        let mut t: usize = 0;
        while t < count
            invariant
                count == self@.tile_count(),
                t <= count,
                r@.len() == t,
                forall|u: int| 0 <= u < t ==> r@[u] == self@.tile_at(u),
            decreases count - t,
        {
            r.push(self.tile(t));
            t = t + 1;
        }
        r
    }

    /// Element `i` of tile `t`, in Morton order.
    pub fn tile_element(&self, t: usize, i: usize) -> (r: &T)
        requires
            t < self@.tile_count(),
            i < self@.tile_len(),
        ensures
            *r == self@.cells[t * self@.tile_len() + i],
    {
        proof {
            use_type_invariant(self);
            self@.lemma_tile_counts();
            assert(t * self@.tile_len() + i < self@.tile_count() * self@.tile_len())
                by (nonlinear_arith)
                requires
                    t < self@.tile_count(),
                    i < self@.tile_len(),
            ;
        }
        let len = self.side * self.side;
        &self.cells[t * len + i]
    }

    /// The element of the grid cell `(x, y)`.
    pub fn element_at(&self, x: usize, y: usize) -> (r: &T)
        requires
            x < self@.width,
            y < self@.height,
        ensures
            *r == self@.cells[dest_index(self@.width as int, self@.side as int, x as int, y as int)],
    {
        proof {
            use_type_invariant(self);
            self@.lemma_tile_counts();
            lemma_tiling_coords_bijection(self@.width as int, self@.height as int, self@.side as int);
        }
        let side = self.side;
        let across = self.width / side;
        let key = interleave_morton((x % side) as u16, (y % side) as u16);
        let ghost dest = dest_index(self@.width as int, self@.side as int, x as int, y as int);
        assert(dest == ((y / side) * across + x / side) * (side * side) + key);
        assert(0 <= (y / side) * across) by (nonlinear_arith)
            requires
                side > 0,
                across > 0,
        ;
        assert(0 <= (y / side) * across + x / side <= ((y / side) * across + x / side) * (side
            * side)) by (nonlinear_arith)
            requires
                side > 0,
                0 <= (y / side) * across,
        ;
        assert(dest < self@.cells.len());
        let tile = (y / side) * across + x / side;
        let d = tile * (side * side) + key as usize;
        &self.cells[d]
    }

    /// The whole tiled buffer: the tiles one after the other.
    pub fn as_slice(&self) -> (r: &[T])
        ensures
            r@ == self@.cells,
    {
        self.cells.as_slice()
    }
}

/// Repacks the row-major `width` x `height` grid `data` into square tiles of
/// side `derive_tile_side(width, height)`. Tiles follow each other row by
/// row; inside a tile, elements follow their Morton key. The elements are
/// moved, never copied. Fails when `data` does not hold `width * height`
/// elements.
pub fn build_tiled_layout<T>(width: usize, height: usize, data: Vec<T>) -> (r: Result<
    TiledLayout<T>,
    DimensionMismatch,
>)
    requires
        width > 0,
        height > 0,
    ensures
        r is Ok <==> data@.len() == width * height,
        r matches Ok(layout) ==> {
            &&& layout@.wf()
            &&& layout@.width == width
            &&& layout@.height == height
            &&& forall|d: int|
                0 <= d < data@.len() ==> #[trigger] layout@.cells[d] == data@[source_index(
                    width as int,
                    layout@.side as int,
                    d,
                )]
            &&& forall|x: int, y: int|
                0 <= x < width && 0 <= y < height ==> layout@.cells[#[trigger] dest_index(
                    width as int,
                    layout@.side as int,
                    x,
                    y,
                )] == data@[y * width + x]
        },
        r matches Err(e) ==> e == (DimensionMismatch { width, height, len: data@.len() as usize }),
{
    let n = match width.checked_mul(height) {
        Some(n) => n,
        None => {
            return Err(DimensionMismatch { width, height, len: data.len() });
        },
    };
    if data.len() != n {
        return Err(DimensionMismatch { width, height, len: data.len() });
    }
    let ghost src = data@;
    let side = derive_tile_side(width, height);
    proof {
        lemma_grid_in_tiles(width as int, height as int, side as int);
        lemma_tiling_coords_bijection(width as int, height as int, side as int);
        lemma_tiling_is_permutation(width as int, height as int, side as int);
        assert(0 < side * side <= n) by (nonlinear_arith)
            requires
                n == ((height / side) * (width / side)) * (side * side),
                width / side > 0,
                height / side > 0,
                side > 0,
        ;
        assert(side * side <= 0x1_0000_0000) by (nonlinear_arith)
            requires
                0 < side <= 0x1_0000,
        ;
    }
    let area = side * side;
    let across = width / side;

    let mut slots: Vec<Option<T>> = Vec::with_capacity(n);
    let mut i: usize = 0;
    while i < n
        invariant
            i <= n,
            slots@.len() == i,
        decreases n - i,
    {
        slots.push(None);
        i = i + 1;
    }
    let mut rest = data;
    while rest.len() > 0
        invariant
            slots@.len() == n,
            src.len() == n,
            rest@.len() <= n,
            rest@ == src.subrange(0, rest@.len() as int),
            forall|j: int| rest@.len() <= j < n ==> slots@[j] == Some(src[j]),
        decreases rest@.len(),
    {
        let v = rest.pop().unwrap();
        let k = rest.len();
        slots.set(k, Some(v));
    }

    let mut cells: Vec<T> = Vec::with_capacity(n);
    let mut d: usize = 0;
    while d < n
        invariant
            n == width * height,
            src.len() == n,
            is_tile_side(width as int, height as int, side as int),
            area == side * side,
            across == width / side,
            0 < area <= n,
            area <= 0x1_0000_0000,
            across > 0,
            d <= n,
            cells@.len() == d,
            slots@.len() == n,
            forall|j: int| 0 <= j < d ==> cells@[j] == src[source_index(width as int, side as int, j)],
            forall|s: int|
                0 <= s < n ==> slots@[s] == if placement(width as int, side as int, s) < d {
                    None
                } else {
                    Some(src[s])
                },
            forall|j: int|
                0 <= j < n ==> {
                    &&& 0 <= #[trigger] source_x(width as int, side as int, j) < width
                    &&& 0 <= source_y(width as int, side as int, j) < height
                },
            forall|s: int|
                0 <= s < n ==> {
                    &&& 0 <= #[trigger] placement(width as int, side as int, s) < n
                    &&& source_index(width as int, side as int, placement(width as int, side as int, s)) == s
                },
            forall|j: int|
                0 <= j < n ==> {
                    &&& 0 <= #[trigger] source_index(width as int, side as int, j) < n
                    &&& placement(width as int, side as int, source_index(width as int, side as int, j)) == j
                },
        decreases n - d,
    {
        let t = d / area;
        let m = d % area;
        let (lx, ly) = deinterleave_morton(m as u32);
        let col = t % across;
        let row = t / across;
        assert(source_x(width as int, side as int, d as int) == col * side + lx);
        assert(source_y(width as int, side as int, d as int) == row * side + ly);
        let x = col * side + lx as usize;
        let y = row * side + ly as usize;
        assert(source_index(width as int, side as int, d as int) == y * width + x);
        let s = y * width + x;
        let mut taken: Option<T> = None;
        slots.set_and_swap(s, &mut taken);
        proof {
            assert forall|s2: int| 0 <= s2 < n implies slots@[s2] == if placement(
                width as int,
                side as int,
                s2,
            ) < d + 1 {
                None
            } else {
                Some(src[s2])
            } by {
                if s2 != s {
                    assert(placement(width as int, side as int, s2) != d);
                }
            }
        }
        cells.push(taken.unwrap());
        d = d + 1;
    }
    proof {
        assert forall|x: int, y: int| 0 <= x < width && 0 <= y < height implies cells@[
            #[trigger] dest_index(width as int, side as int, x, y)] == src[y * width + x] by {
            let j = dest_index(width as int, side as int, x, y);
            assert(source_index(width as int, side as int, j) == y * width + x);
        }
    }
    Ok(TiledLayout { width, height, side, cells })
}

} // verus!
