//! Integer pixel geometry: points, half-open rectangles and the grid of
//! display tiles that the canvas is split into.

use vstd::prelude::*;
use vstd::arithmetic::div_mod::{lemma_fundamental_div_mod, lemma_fundamental_div_mod_converse};
use vstd::arithmetic::mul::lemma_mul_inequality;

verus! {

/// Edge length, in pixels, of a full display tile.
pub const TILE_SIZE: u32 = 256;

/// A pixel position or a pixel extent on the canvas.
#[derive(Clone, Copy, Debug, PartialEq, Eq, Structural)]
pub struct PixelVec {
    pub x: u32,
    pub y: u32,
}

/// A rectangle of pixels: `min` is the inclusive top-left pixel and `max` the
/// exclusive bottom-right one.
#[derive(Clone, Copy, Debug, PartialEq, Eq, Structural)]
pub struct PixelRect {
    pub min: PixelVec,
    pub max: PixelVec,
}

impl PixelRect {
    /// The pixel `(x, y)` lies inside the rectangle.
    pub open spec fn contains(self, x: int, y: int) -> bool {
        &&& self.min.x <= x < self.max.x
        &&& self.min.y <= y < self.max.y
    }

    /// The rectangle holds at least one pixel.
    pub open spec fn is_nonempty(self) -> bool {
        self.min.x < self.max.x && self.min.y < self.max.y
    }

    pub open spec fn overlaps(self, other: Self) -> bool {
        &&& self.min.x < other.max.x
        &&& self.max.x > other.min.x
        &&& self.min.y < other.max.y
        &&& self.max.y > other.min.y
    }

    /// Whether the two rectangles overlap on both axes.
    pub fn intersects(self, other: Self) -> (b: bool)
        ensures
            b == self.overlaps(other),
    {
        self.min.x < other.max.x && self.max.x > other.min.x && self.min.y < other.max.y
            && self.max.y > other.min.y
    }
}

/// Overlap is symmetric, and for rectangles that hold pixels it means exactly
/// that some pixel lies in both.
pub proof fn lemma_overlap_is_shared_pixel(a: PixelRect, b: PixelRect)
    requires
        a.is_nonempty(),
        b.is_nonempty(),
    ensures
        a.overlaps(b) == b.overlaps(a),
        a.overlaps(b) <==> exists|x: int, y: int| a.contains(x, y) && b.contains(x, y),
{
    if a.overlaps(b) {
        let x: int = if a.min.x < b.min.x { b.min.x as int } else { a.min.x as int };
        let y: int = if a.min.y < b.min.y { b.min.y as int } else { a.min.y as int };
        assert(a.contains(x, y) && b.contains(x, y));
    }
}

/// Number of tiles needed to cover `len` pixels along one axis.
pub open spec fn tiles_along(len: int) -> int {
    (len + TILE_SIZE - 1) / (TILE_SIZE as int)
}

/// Number of tile columns of a canvas of the given size.
pub open spec fn grid_columns(size: PixelVec) -> int {
    tiles_along(size.x as int)
}

/// Number of tile rows of a canvas of the given size.
pub open spec fn grid_rows(size: PixelVec) -> int {
    tiles_along(size.y as int)
}

/// Number of tiles of a canvas of the given size.
pub open spec fn grid_len(size: PixelVec) -> int {
    grid_columns(size) * grid_rows(size)
}

/// Left edge of tile `k`; tiles are numbered row by row from the top left.
pub open spec fn grid_origin_x(size: PixelVec, k: int) -> int {
    (k % grid_columns(size)) * TILE_SIZE
}

/// Top edge of tile `k`.
pub open spec fn grid_origin_y(size: PixelVec, k: int) -> int {
    (k / grid_columns(size)) * TILE_SIZE
}

pub open spec fn min_int(a: int, b: int) -> int {
    if a <= b { a } else { b }
}

/// Tile `k` has its origin at its grid cell and is a full tile, clipped by
/// the canvas edges.
pub open spec fn is_grid_tile(size: PixelVec, k: int, origin: PixelVec, extent: PixelVec) -> bool {
    &&& origin.x == grid_origin_x(size, k)
    &&& origin.y == grid_origin_y(size, k)
    &&& extent.x == min_int(TILE_SIZE as int, size.x - origin.x)
    &&& extent.y == min_int(TILE_SIZE as int, size.y - origin.y)
}

/// The pixel `(x, y)` lies in tile `k` of the grid.
pub open spec fn grid_tile_contains(size: PixelVec, k: int, x: int, y: int) -> bool {
    let ox = grid_origin_x(size, k);
    let oy = grid_origin_y(size, k);
    &&& ox <= x < ox + min_int(TILE_SIZE as int, size.x - ox)
    &&& oy <= y < oy + min_int(TILE_SIZE as int, size.y - oy)
}

/// The tile that holds a pixel: its column is `x / TILE_SIZE`, its row `y / TILE_SIZE`.
pub open spec fn grid_tile_of(size: PixelVec, x: int, y: int) -> int {
    (y / (TILE_SIZE as int)) * grid_columns(size) + x / (TILE_SIZE as int)
}

/// Tile `col + row * columns` sits in column `col` and row `row`.
pub proof fn lemma_grid_cell(size: PixelVec, col: int, row: int)
    requires
        size.x >= 1,
        0 <= col < grid_columns(size),
        0 <= row,
    ensures
        (row * grid_columns(size) + col) % grid_columns(size) == col,
        (row * grid_columns(size) + col) / grid_columns(size) == row,
{
    lemma_fundamental_div_mod_converse(
        row * grid_columns(size) + col,
        grid_columns(size),
        row,
        col,
    );
}

/// The tiles partition the canvas: every pixel of the canvas lies in exactly
/// one tile, the one in its column `x / TILE_SIZE` and row `y / TILE_SIZE`.
pub proof fn lemma_grid_partition(size: PixelVec, x: int, y: int)
    requires
        size.x >= 1,
        size.y >= 1,
        0 <= x < size.x,
        0 <= y < size.y,
    ensures
        0 <= grid_tile_of(size, x, y) < grid_len(size),
        grid_tile_contains(size, grid_tile_of(size, x, y), x, y),
        forall|j: int|
            0 <= j < grid_len(size) && #[trigger] grid_tile_contains(size, j, x, y) ==> j
                == grid_tile_of(size, x, y),
{
    let t = TILE_SIZE as int;
    let cols = grid_columns(size);
    let rows = grid_rows(size);
    let col = x / t;
    let row = y / t;
    assert(col < cols);
    assert(row < rows);
    lemma_grid_cell(size, col, row);
    let k = row * cols + col;
    assert(0 <= k < cols * rows) by {
        lemma_mul_inequality(row, rows - 1, cols);
        assert((rows - 1) * cols == rows * cols - cols) by (nonlinear_arith);
        assert(cols * rows == rows * cols) by (nonlinear_arith);
        assert(0 <= row * cols) by (nonlinear_arith)
            requires
                0 <= row,
                0 <= cols,
        ;
    }
    assert forall|j: int| 0 <= j < grid_len(size) && #[trigger] grid_tile_contains(size, j, x, y) implies j
        == k by {
        let jc = j % cols;
        let jr = j / cols;
        lemma_fundamental_div_mod(j, cols);
        assert(jc * t <= x < jc * t + t);
        assert(jr * t <= y < jr * t + t);
        assert(jc == col);
        assert(jr == row);
        assert(j == cols * jr + jc);
        assert(cols * jr == jr * cols) by (nonlinear_arith);
    }
}

} // verus!
