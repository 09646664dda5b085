//! The canvas as mathematical values, and what holds of it: where each tile
//! lies, which tiles a dab touches, and what a tile's image data holds.

use vstd::prelude::*;
use crate::canvas::{CANVAS_WIDTH, CANVAS_HEIGHT, PAPER};
use crate::geometry::{
    PixelVec, PixelRect, grid_len, is_grid_tile, grid_tile_contains, grid_tile_of,
    lemma_grid_partition, lemma_overlap_is_shared_pixel,
};
use vstd::arithmetic::div_mod::lemma_fundamental_div_mod;

verus! {

/// Where a tile lies on the canvas.
pub struct TilePlacement {
    pub origin: PixelVec,
    pub size: PixelVec,
}

impl TilePlacement {
    /// The canvas pixels that the tile shows.
    pub open spec fn rect(self) -> PixelRect {
        PixelRect {
            min: self.origin,
            max: PixelVec {
                x: (self.origin.x + self.size.x) as u32,
                y: (self.origin.y + self.size.y) as u32,
            },
        }
    }
}

/// What a canvas holds, as mathematical values.
pub struct CanvasModel {
    pub size: PixelVec,
    /// Row-major RGBA bytes, four per pixel.
    pub pixels: Seq<u8>,
    pub background: Seq<u8>,
    pub tiles: Seq<TilePlacement>,
    /// `dirty[k]`: tile `k` changed since its image was last refreshed.
    pub dirty: Seq<bool>,
    /// `keys[k]`: the store key of tile `k`'s image.
    pub keys: Seq<int>,
}

/// An image store, as its contents: for each key present, the image's pixel data.
pub type StoreContents = Map<int, Option<Seq<u8>>>;

/// Index of the first byte of pixel `(x, y)` in a row-major RGBA buffer of the given width.
pub open spec fn pixel_index(width: int, x: int, y: int) -> int {
    (y * width + x) * 4
}

/// `count` pixels of the colour `color`, as RGBA bytes.
pub open spec fn filled(color: Seq<u8>, count: int) -> Seq<u8> {
    Seq::new((count * 4) as nat, |i: int| color[i % 4])
}

/// The image data of a tile: its first `rows` rows of canvas pixels, top to bottom.
pub open spec fn tile_rows(pixels: Seq<u8>, width: int, tile: TilePlacement, rows: int) -> Seq<u8>
    decreases rows,
{
    if rows <= 0 {
        Seq::empty()
    } else {
        let start = pixel_index(width, tile.origin.x as int, tile.origin.y + (rows - 1));
        tile_rows(pixels, width, tile, rows - 1) + pixels.subrange(start, start + tile.size.x * 4)
    }
}

/// The new colour a dab gives pixel `(x, y)`, if any: the dab lists one entry
/// per pixel of `rect`, row by row.
pub open spec fn dab_shade(rect: PixelRect, shades: Seq<Option<[u8; 3]>>, x: int, y: int) -> Option<
    [u8; 3],
> {
    if rect.contains(x, y) {
        shades[(y - rect.min.y) * (rect.max.x - rect.min.x) + (x - rect.min.x)]
    } else {
        None
    }
}

/// Channel `c` of a pixel once a shade is applied: the shade's colour at full
/// opacity, or the old byte when there is no shade.
pub open spec fn shaded_byte(old: u8, shade: Option<[u8; 3]>, c: int) -> u8 {
    match shade {
        Some(rgb) => if c < 3 {
            rgb@[c]
        } else {
            255u8
        },
        None => old,
    }
}

/// The RGBA buffer of the given width after a dab over `rect`.
pub open spec fn dabbed(pixels: Seq<u8>, width: int, rect: PixelRect, shades: Seq<Option<[u8; 3]>>) -> Seq<
    u8,
> {
    Seq::new(
        pixels.len(),
        |i: int| shaded_byte(pixels[i], dab_shade(rect, shades, (i / 4) % width, (i / 4) / width), i % 4),
    )
}

/// Number of `true` entries.
pub open spec fn count_true(s: Seq<bool>) -> nat
    decreases s.len(),
{
    if s.len() == 0 {
        0
    } else {
        count_true(s.drop_last()) + if s.last() {
            1nat
        } else {
            0nat
        }
    }
}

impl CanvasModel {
    /// The canvas invariant: a `CANVAS_WIDTH` x `CANVAS_HEIGHT` canvas on
    /// paper, split into the tile grid, with one dirty flag and one image key
    /// per tile, no two tiles sharing a key.
    pub open spec fn wf(self) -> bool {
        &&& self.size == PixelVec { x: CANVAS_WIDTH, y: CANVAS_HEIGHT }
        &&& self.pixels.len() == self.size.x * self.size.y * 4
        &&& self.background == PAPER@
        &&& self.tiles.len() == grid_len(self.size)
        &&& self.dirty.len() == self.tiles.len()
        &&& self.keys.len() == self.tiles.len()
        &&& forall|k: int|
            0 <= k < self.tiles.len() ==> is_grid_tile(
                self.size,
                k,
                #[trigger] self.tiles[k].origin,
                self.tiles[k].size,
            )
        &&& forall|i: int, j: int|
            0 <= i < self.keys.len() && 0 <= j < self.keys.len() && i != j ==> #[trigger] self.keys[i]
                != #[trigger] self.keys[j]
    }

    /// The canvas kept the layout of `before`: size, background, tiles, image
    /// keys, and the lengths of its buffer and of its dirty flags.
    pub open spec fn keeps_layout(self, before: CanvasModel) -> bool {
        &&& self.size == before.size
        &&& self.background == before.background
        &&& self.tiles == before.tiles
        &&& self.keys == before.keys
        &&& self.pixels.len() == before.pixels.len()
        &&& self.dirty.len() == before.dirty.len()
    }

    /// The store shows the canvas: the image of every clean tile is present
    /// and holds exactly the tile's current data.
    pub open spec fn synced_with(self, store: StoreContents) -> bool {
        forall|k: int|
            0 <= k < self.tiles.len() && !#[trigger] self.dirty[k] ==> store.dom().contains(
                self.keys[k],
            ) && store[self.keys[k]] == Some(self.tile_data(k))
    }

    /// Tile `k` is dirty and its image is present in `store`: an upload refreshes it.
    pub open spec fn refreshes(self, store: StoreContents, k: int) -> bool {
        self.dirty[k] && store.dom().contains(self.keys[k])
    }

    /// The bytes of pixel `(x, y)`.
    pub open spec fn pixel(self, x: int, y: int) -> Seq<u8> {
        let i = pixel_index(self.size.x as int, x, y);
        self.pixels.subrange(i, i + 4)
    }

    /// The image data of tile `k`.
    pub open spec fn tile_data(self, k: int) -> Seq<u8> {
        tile_rows(self.pixels, self.size.x as int, self.tiles[k], self.tiles[k].size.y as int)
    }
}

/// Bytes an upload copies for the first `n` tiles: the size of each tile it
/// refreshes.
pub open spec fn uploaded_bytes(m: CanvasModel, store: StoreContents, n: int) -> int
    decreases n,
{
    if n <= 0 {
        0
    } else {
        uploaded_bytes(m, store, n - 1) + if m.refreshes(store, n - 1) {
            m.tiles[n - 1].size.x * m.tiles[n - 1].size.y * 4
        } else {
            0
        }
    }
}

/// The store after an upload of the first `n` tiles: each refreshed tile's
/// image holds the tile's data.
pub open spec fn uploaded_store(m: CanvasModel, store: StoreContents, n: int) -> StoreContents
    decreases n,
{
    if n <= 0 {
        store
    } else if m.refreshes(store, n - 1) {
        uploaded_store(m, store, n - 1).insert(m.keys[n - 1], Some(m.tile_data(n - 1)))
    } else {
        uploaded_store(m, store, n - 1)
    }
}

/// The store after the first `n` tiles gained a new image filled with `fill`,
/// each under its key.
pub open spec fn with_filled_tiles(
    store: StoreContents,
    keys: Seq<int>,
    tiles: Seq<TilePlacement>,
    fill: Seq<u8>,
    n: int,
) -> StoreContents
    decreases n,
{
    if n <= 0 {
        store
    } else {
        with_filled_tiles(store, keys, tiles, fill, n - 1).insert(
            keys[n - 1],
            Some(filled(fill, tiles[n - 1].size.x * tiles[n - 1].size.y)),
        )
    }
}

/// A tile's image data holds four bytes for each of its pixels.
pub proof fn lemma_tile_rows_len(pixels: Seq<u8>, width: int, tile: TilePlacement, rows: int)
    requires
        0 <= rows,
        forall|r: int|
            0 <= r < rows ==> 0 <= #[trigger] pixel_index(width, tile.origin.x as int, tile.origin.y + r)
                && pixel_index(width, tile.origin.x as int, tile.origin.y + r) + tile.size.x * 4
                <= pixels.len(),
    ensures
        tile_rows(pixels, width, tile, rows).len() == rows * (tile.size.x * 4),
    decreases rows,
{
    if rows > 0 {
        lemma_tile_rows_len(pixels, width, tile, rows - 1);
        let r = rows - 1;
        let start = pixel_index(width, tile.origin.x as int, tile.origin.y + r);
        assert(0 <= start && start + tile.size.x * 4 <= pixels.len());
        assert(tile_rows(pixels, width, tile, rows) == tile_rows(pixels, width, tile, rows - 1)
            + pixels.subrange(start, start + tile.size.x * 4));
        assert((rows - 1) * (tile.size.x * 4) + tile.size.x * 4 == rows * (tile.size.x * 4))
            by (nonlinear_arith);
    } else {
        assert(rows * (tile.size.x * 4) == 0) by (nonlinear_arith)
            requires
                rows == 0,
        ;
    }
}

/// The first `rows` rows of a tile's data depend only on the canvas bytes of
/// the tile's pixels in those rows.
pub proof fn lemma_tile_rows_frame(
    a: Seq<u8>,
    b: Seq<u8>,
    width: int,
    tile: TilePlacement,
    rows: int,
)
    requires
        0 <= rows,
        forall|r: int|
            0 <= r < rows ==> 0 <= #[trigger] pixel_index(width, tile.origin.x as int, tile.origin.y + r)
                && pixel_index(width, tile.origin.x as int, tile.origin.y + r) + tile.size.x * 4
                <= a.len(),
        a.len() == b.len(),
        forall|x: int, y: int, c: int|
            tile.origin.x <= x < tile.origin.x + tile.size.x && tile.origin.y <= y < tile.origin.y
                + rows && 0 <= c < 4 ==> #[trigger] a[pixel_index(width, x, y) + c]
                == b[pixel_index(width, x, y) + c],
    ensures
        tile_rows(a, width, tile, rows) == tile_rows(b, width, tile, rows),
    decreases rows,
{
    if rows > 0 {
        lemma_tile_rows_frame(a, b, width, tile, rows - 1);
        let r = rows - 1;
        let start = pixel_index(width, tile.origin.x as int, tile.origin.y + r);
        assert(0 <= start && start + tile.size.x * 4 <= a.len());
        assert forall|t: int| 0 <= t < tile.size.x * 4 implies #[trigger] a.subrange(
            start,
            start + tile.size.x * 4,
        )[t] == b.subrange(start, start + tile.size.x * 4)[t] by {
            let x = tile.origin.x + t / 4;
            let y = tile.origin.y + r;
            assert(start + t == pixel_index(width, x, y) + t % 4);
            assert(a[pixel_index(width, x, y) + t % 4] == b[pixel_index(width, x, y) + t % 4]);
        }
        assert(a.subrange(start, start + tile.size.x * 4) =~= b.subrange(
            start,
            start + tile.size.x * 4,
        ));
    }
}

/// Every tile of a well-formed canvas holds at least one pixel, lies inside
/// the canvas, and covers exactly its cell of the tile grid.
pub proof fn lemma_tile_in_canvas(m: CanvasModel, k: int)
    requires
        m.wf(),
        0 <= k < m.tiles.len(),
    ensures
        m.tiles[k].rect().is_nonempty(),
        m.tiles[k].origin.x + m.tiles[k].size.x <= m.size.x,
        m.tiles[k].origin.y + m.tiles[k].size.y <= m.size.y,
        forall|x: int, y: int|
            #[trigger] m.tiles[k].rect().contains(x, y) <==> grid_tile_contains(m.size, k, x, y),
{
    assert(is_grid_tile(m.size, k, m.tiles[k].origin, m.tiles[k].size));
    assert(grid_len(m.size) == 28);
    assert(k % 7 < 7);
    assert(k / 7 < 4);
}

/// A dab dirties exactly the tiles that hold one of its canvas pixels: the
/// rectangle overlaps tile `k` if and only if some pixel of the rectangle
/// that lies on the canvas belongs to tile `k`.
pub proof fn lemma_touched_tiles(m: CanvasModel, rect: PixelRect, k: int)
    requires
        m.wf(),
        rect.is_nonempty(),
        0 <= k < m.tiles.len(),
    ensures
        rect.overlaps(m.tiles[k].rect()) <==> exists|x: int, y: int|
            #[trigger] rect.contains(x, y) && 0 <= x < m.size.x && 0 <= y < m.size.y
                && grid_tile_of(m.size, x, y) == k,
{
    let tile = m.tiles[k].rect();
    lemma_tile_in_canvas(m, k);
    lemma_overlap_is_shared_pixel(rect, tile);
    if rect.overlaps(tile) {
        let (x, y) = choose|x: int, y: int| rect.contains(x, y) && tile.contains(x, y);
        assert(grid_tile_contains(m.size, k, x, y));
        lemma_grid_partition(m.size, x, y);
        assert(rect.contains(x, y) && 0 <= x < m.size.x && 0 <= y < m.size.y && grid_tile_of(
            m.size,
            x,
            y,
        ) == k);
    }
    if exists|x: int, y: int|
        #[trigger] rect.contains(x, y) && 0 <= x < m.size.x && 0 <= y < m.size.y && grid_tile_of(
            m.size,
            x,
            y,
        ) == k {
        let (x, y) = choose|x: int, y: int|
            #[trigger] rect.contains(x, y) && 0 <= x < m.size.x && 0 <= y < m.size.y
                && grid_tile_of(m.size, x, y) == k;
        lemma_grid_partition(m.size, x, y);
        assert(tile.contains(x, y));
    }
}

/// Byte `c` of pixel `(col, row)` of the first `rows` rows of a tile's data
/// is byte `c` of the canvas pixel at that offset from the tile's origin.
proof fn lemma_tile_rows_pixel(
    pixels: Seq<u8>,
    width: int,
    tile: TilePlacement,
    rows: int,
    col: int,
    row: int,
    c: int,
)
    requires
        0 <= col < tile.size.x,
        0 <= row < rows,
        0 <= c < 4,
        forall|r: int|
            0 <= r < rows ==> 0 <= #[trigger] pixel_index(width, tile.origin.x as int, tile.origin.y + r)
                && pixel_index(width, tile.origin.x as int, tile.origin.y + r) + tile.size.x * 4
                <= pixels.len(),
    ensures
        tile_rows(pixels, width, tile, rows)[(row * tile.size.x + col) * 4 + c] == pixels[pixel_index(
            width,
            tile.origin.x + col,
            tile.origin.y + row,
        ) + c],
    decreases rows,
{
    let tw = tile.size.x as int;
    lemma_tile_rows_len(pixels, width, tile, rows - 1);
    let r = rows - 1;
    let start = pixel_index(width, tile.origin.x as int, tile.origin.y + r);
    assert(0 <= start && start + tw * 4 <= pixels.len());
    assert(tile_rows(pixels, width, tile, rows) == tile_rows(pixels, width, tile, rows - 1)
        + pixels.subrange(start, start + tw * 4));
    if row < rows - 1 {
        assert((row * tw + col) * 4 + c < (rows - 1) * (tw * 4)) by (nonlinear_arith)
            requires
                0 <= col < tw,
                0 <= row < rows - 1,
                0 <= c < 4,
        ;
        lemma_tile_rows_pixel(pixels, width, tile, rows - 1, col, row, c);
    } else {
        assert((row * tw + col) * 4 + c == (rows - 1) * (tw * 4) + col * 4 + c) by (nonlinear_arith)
            requires
                row == rows - 1,
        ;
        assert(pixel_index(width, tile.origin.x + col, tile.origin.y + row) == start + col * 4);
    }
}

/// Upload copies a tile's own pixels: byte `c` of pixel `(col, row)` of tile
/// `k`'s image data is byte `c` of the canvas pixel at that offset from the
/// tile's origin.
pub proof fn lemma_tile_data_pixel(m: CanvasModel, k: int, col: int, row: int, c: int)
    requires
        m.wf(),
        0 <= k < m.tiles.len(),
        0 <= col < m.tiles[k].size.x,
        0 <= row < m.tiles[k].size.y,
        0 <= c < 4,
    ensures
        m.tile_data(k).len() == m.tiles[k].size.x * m.tiles[k].size.y * 4,
        m.tile_data(k)[(row * m.tiles[k].size.x + col) * 4 + c] == m.pixels[pixel_index(
            m.size.x as int,
            m.tiles[k].origin.x + col,
            m.tiles[k].origin.y + row,
        ) + c],
{
    let tile = m.tiles[k];
    lemma_tile_in_canvas(m, k);
    assert forall|r: int| 0 <= r < tile.size.y implies 0 <= #[trigger] pixel_index(
        m.size.x as int,
        tile.origin.x as int,
        tile.origin.y + r,
    ) && pixel_index(m.size.x as int, tile.origin.x as int, tile.origin.y + r) + tile.size.x * 4
        <= m.pixels.len() by {
        assert(tile.origin.y + r < 1000);
    }
    lemma_tile_rows_len(m.pixels, m.size.x as int, tile, tile.size.y as int);
    assert(tile.size.y * (tile.size.x * 4) == tile.size.x * tile.size.y * 4) by (nonlinear_arith);
    lemma_tile_rows_pixel(m.pixels, m.size.x as int, tile, tile.size.y as int, col, row, c);
}

/// An upload of the first `n` tiles changes only the images of the tiles it
/// refreshes, each to the tile's data, and no key comes or goes.
pub proof fn lemma_uploaded_store(m: CanvasModel, store: StoreContents, n: int)
    requires
        m.wf(),
        0 <= n <= m.tiles.len(),
    ensures
        uploaded_store(m, store, n).dom() == store.dom(),
        forall|k: int|
            0 <= k < n ==> #[trigger] uploaded_store(m, store, n)[m.keys[k]] == if m.refreshes(
                store,
                k,
            ) {
                Some(m.tile_data(k))
            } else {
                store[m.keys[k]]
            },
        forall|key: int|
            (forall|k: int| 0 <= k < n ==> #[trigger] m.keys[k] != key) ==> #[trigger] uploaded_store(
                m,
                store,
                n,
            )[key] == store[key],
    decreases n,
{
    if n > 0 {
        lemma_uploaded_store(m, store, n - 1);
        let prev = uploaded_store(m, store, n - 1);
        if m.refreshes(store, n - 1) {
            assert(prev.dom().insert(m.keys[n - 1]) =~= prev.dom());
        }
        assert forall|k: int| 0 <= k < n implies #[trigger] uploaded_store(m, store, n)[m.keys[k]]
            == if m.refreshes(store, k) {
            Some(m.tile_data(k))
        } else {
            store[m.keys[k]]
        } by {
            if k < n - 1 {
                assert(m.keys[k] != m.keys[n - 1]);
            }
        }
        assert forall|key: int|
            (forall|k: int| 0 <= k < n ==> #[trigger] m.keys[k] != key) implies #[trigger] uploaded_store(
            m,
            store,
            n,
        )[key] == store[key] by {
            assert(m.keys[n - 1] != key);
        }
    }
}

/// When no tile is dirty, an upload copies nothing and leaves the store as it was.
pub proof fn lemma_clean_canvas_uploads_nothing(m: CanvasModel, store: StoreContents, n: int)
    requires
        0 <= n <= m.dirty.len(),
        forall|k: int| 0 <= k < n ==> !#[trigger] m.dirty[k],
    ensures
        uploaded_bytes(m, store, n) == 0,
        uploaded_store(m, store, n) == store,
    decreases n,
{
    if n > 0 {
        lemma_clean_canvas_uploads_nothing(m, store, n - 1);
    }
}

/// The tiles cover the canvas exactly once: when every tile is dirty and its
/// image present, an upload copies each canvas byte once.
pub proof fn lemma_full_refresh_covers_canvas(m: CanvasModel, store: StoreContents)
    requires
        m.wf(),
        forall|k: int| 0 <= k < m.tiles.len() ==> #[trigger] m.refreshes(store, k),
    ensures
        uploaded_bytes(m, store, m.tiles.len() as int) == m.size.x * m.size.y * 4,
{
    assert(grid_len(m.size) == 28);
    assert forall|k: int| 0 <= k < 28 implies #[trigger] m.tiles[k].size.x * m.tiles[k].size.y * 4
        == (if k % 7 == 6 {
        64int
    } else {
        256int
    }) * (if k / 7 == 3 {
        232int
    } else {
        256int
    }) * 4 by {
        assert(is_grid_tile(m.size, k, m.tiles[k].origin, m.tiles[k].size));
    }
    assert forall|k: int| 0 <= k < 28 implies #[trigger] m.refreshes(store, k) by {}
    reveal_with_fuel(uploaded_bytes, 29);
}

/// A paper canvas's tiles hold paper: each tile's data is its pixel count of
/// the paper colour.
pub proof fn lemma_paper_tile_data(m: CanvasModel, k: int)
    requires
        m.wf(),
        m.pixels == filled(PAPER@, m.size.x * m.size.y),
        0 <= k < m.tiles.len(),
    ensures
        m.tile_data(k) == filled(PAPER@, m.tiles[k].size.x * m.tiles[k].size.y),
{
    let tile = m.tiles[k];
    let tw = tile.size.x as int;
    lemma_tile_in_canvas(m, k);
    lemma_tile_data_pixel(m, k, 0, 0, 0);
    let want = filled(PAPER@, tw * tile.size.y);
    assert(want.len() == tw * tile.size.y * 4);
    assert forall|j: int| 0 <= j < want.len() implies m.tile_data(k)[j] == want[j] by {
        let p = j / 4;
        let c = j % 4;
        lemma_fundamental_div_mod(p, tw);
        let row = p / tw;
        let col = p % tw;
        assert(0 <= p < tw * tile.size.y);
        assert(0 <= row < tile.size.y) by {
            vstd::arithmetic::div_mod::lemma_multiply_divide_lt(p, tw, tile.size.y as int);
        }
        assert(j == (row * tw + col) * 4 + c) by {
            assert(tw * row == row * tw) by (nonlinear_arith);
        }
        lemma_tile_data_pixel(m, k, col, row, c);
        let i = pixel_index(m.size.x as int, tile.origin.x + col, tile.origin.y + row);
        assert((i + c) % 4 == c);
    }
    assert(m.tile_data(k) =~= want);
}

/// A dab leaves alone the data of every tile it does not overlap.
pub proof fn lemma_dab_frame(
    m: CanvasModel,
    rect: PixelRect,
    shades: Seq<Option<[u8; 3]>>,
    k: int,
)
    requires
        m.wf(),
        rect.is_nonempty(),
        0 <= k < m.tiles.len(),
        !rect.overlaps(m.tiles[k].rect()),
    ensures
        tile_rows(dabbed(m.pixels, m.size.x as int, rect, shades), m.size.x as int, m.tiles[k], m.tiles[k].size.y as int)
            == m.tile_data(k),
{
    let tile = m.tiles[k];
    let w = m.size.x as int;
    let after = dabbed(m.pixels, w, rect, shades);
    lemma_tile_in_canvas(m, k);
    lemma_overlap_is_shared_pixel(rect, tile.rect());
    assert forall|r: int| 0 <= r < tile.size.y implies 0 <= #[trigger] pixel_index(
        w,
        tile.origin.x as int,
        tile.origin.y + r,
    ) && pixel_index(w, tile.origin.x as int, tile.origin.y + r) + tile.size.x * 4 <= after.len() by {
        assert(tile.origin.y + r < 1000);
    }
    assert forall|x: int, y: int, c: int|
        tile.origin.x <= x < tile.origin.x + tile.size.x && tile.origin.y <= y < tile.origin.y
            + tile.size.y && 0 <= c < 4 implies #[trigger] after[pixel_index(w, x, y) + c]
        == m.pixels[pixel_index(w, x, y) + c] by {
        let i = pixel_index(w, x, y) + c;
        assert(tile.rect().contains(x, y));
        assert(!rect.contains(x, y));
        assert(i / 4 == y * w + x);
        assert((i / 4) % w == x && (i / 4) / w == y);
        assert(0 <= i < m.pixels.len());
    }
    lemma_tile_rows_frame(after, m.pixels, w, tile, tile.size.y as int);
}

/// A clean tile shows the canvas: in a store synced with the canvas, the
/// image of a tile that is not dirty holds the tile's current data.
pub proof fn lemma_clean_tile_shows_canvas(m: CanvasModel, store: StoreContents, k: int)
    requires
        m.synced_with(store),
        0 <= k < m.tiles.len(),
        !m.dirty[k],
    ensures
        store.dom().contains(m.keys[k]),
        store[m.keys[k]] == Some(m.tile_data(k)),
{
}

/// Changed pixels lie in touched tiles: a pixel of the canvas whose bytes a
/// dab changes lies in the rectangle, and so in a tile that the dab overlaps
/// (one that the dab marks dirty).
pub proof fn lemma_changed_pixels_lie_in_touched_tiles(
    m: CanvasModel,
    rect: PixelRect,
    shades: Seq<Option<[u8; 3]>>,
    x: int,
    y: int,
)
    requires
        m.wf(),
        rect.is_nonempty(),
        0 <= x < m.size.x,
        0 <= y < m.size.y,
        ({
            let i = pixel_index(m.size.x as int, x, y);
            dabbed(m.pixels, m.size.x as int, rect, shades).subrange(i, i + 4) != m.pixels.subrange(
                i,
                i + 4,
            )
        }),
    ensures
        rect.contains(x, y),
        0 <= grid_tile_of(m.size, x, y) < m.tiles.len(),
        m.tiles[grid_tile_of(m.size, x, y)].rect().contains(x, y),
        rect.overlaps(m.tiles[grid_tile_of(m.size, x, y)].rect()),
{
    let w = m.size.x as int;
    let i = pixel_index(w, x, y);
    let after = dabbed(m.pixels, w, rect, shades);
    assert(w == 1600);
    assert(y * w == y * 1600);
    assert(m.size.x * m.size.y == 1600 * 1000);
    assert(i + 4 <= m.pixels.len());
    if !rect.contains(x, y) {
        assert forall|c: int| 0 <= c < 4 implies #[trigger] after.subrange(i, i + 4)[c]
            == m.pixels.subrange(i, i + 4)[c] by {
            assert((i + c) / 4 == y * w + x);
            assert(((i + c) / 4) % w == x && ((i + c) / 4) / w == y);
        }
        assert(after.subrange(i, i + 4) =~= m.pixels.subrange(i, i + 4));
    }
    lemma_grid_partition(m.size, x, y);
    let k = grid_tile_of(m.size, x, y);
    lemma_tile_in_canvas(m, k);
    lemma_overlap_is_shared_pixel(rect, m.tiles[k].rect());
    assert(rect.contains(x, y) && m.tiles[k].rect().contains(x, y));
}

/// The eraser restores the paper: a pixel that a dab gives the paper's
/// colour channels ends up exactly the paper colour, opacity included.
pub proof fn lemma_erasing_restores_paper(
    m: CanvasModel,
    rect: PixelRect,
    shades: Seq<Option<[u8; 3]>>,
    x: int,
    y: int,
    rgb: [u8; 3],
)
    requires
        m.wf(),
        0 <= x < m.size.x,
        0 <= y < m.size.y,
        dab_shade(rect, shades, x, y) == Some(rgb),
        rgb@ == m.background.subrange(0, 3),
    ensures
        ({
            let after = dabbed(m.pixels, m.size.x as int, rect, shades);
            let i = pixel_index(m.size.x as int, x, y);
            after.subrange(i, i + 4) == m.background
        }),
{
    let w = m.size.x as int;
    let after = dabbed(m.pixels, w, rect, shades);
    let i = pixel_index(w, x, y);
    assert(w == 1600);
    assert(y * w == y * 1600);
    assert(m.size.x * m.size.y == 1600 * 1000);
    assert(i + 4 <= m.pixels.len());
    assert(PAPER@[3] == 255);
    assert forall|c: int| 0 <= c < 4 implies #[trigger] after.subrange(i, i + 4)[c] == m.background[c] by {
        assert((i + c) / 4 == y * w + x);
        assert(((i + c) / 4) % w == x && ((i + c) / 4) / w == y);
        assert((i + c) % 4 == c);
    }
    assert(after.subrange(i, i + 4) =~= m.background);
}

/// Adding images for more tiles leaves the store built for the first `n` as it was.
pub proof fn lemma_with_filled_tiles_prefix(
    store: StoreContents,
    keys: Seq<int>,
    tiles: Seq<TilePlacement>,
    fill: Seq<u8>,
    n: int,
    key: int,
    tile: TilePlacement,
)
    requires
        0 <= n <= keys.len(),
        n <= tiles.len(),
    ensures
        with_filled_tiles(store, keys.push(key), tiles.push(tile), fill, n) == with_filled_tiles(
            store,
            keys,
            tiles,
            fill,
            n,
        ),
    decreases n,
{
    if n > 0 {
        lemma_with_filled_tiles_prefix(store, keys, tiles, fill, n - 1, key, tile);
        assert(keys.push(key)[n - 1] == keys[n - 1]);
        assert(tiles.push(tile)[n - 1] == tiles[n - 1]);
    }
}

/// With distinct keys, each of the first `n` tiles' keys holds that tile's
/// fill, and keys of the store that no tile uses are as they were.
pub proof fn lemma_with_filled_tiles_at(
    store: StoreContents,
    keys: Seq<int>,
    tiles: Seq<TilePlacement>,
    fill: Seq<u8>,
    n: int,
)
    requires
        0 <= n <= keys.len(),
        n <= tiles.len(),
        forall|i: int, j: int|
            0 <= i < n && 0 <= j < n && i != j ==> #[trigger] keys[i] != #[trigger] keys[j],
    ensures
        forall|k: int|
            0 <= k < n ==> with_filled_tiles(store, keys, tiles, fill, n).dom().contains(
                #[trigger] keys[k],
            ) && with_filled_tiles(store, keys, tiles, fill, n)[keys[k]] == Some(
                filled(fill, tiles[k].size.x * tiles[k].size.y),
            ),
        forall|key: int|
            #[trigger] store.dom().contains(key) ==> with_filled_tiles(
                store,
                keys,
                tiles,
                fill,
                n,
            ).dom().contains(key),
    decreases n,
{
    if n > 0 {
        lemma_with_filled_tiles_at(store, keys, tiles, fill, n - 1);
        assert forall|k: int| 0 <= k < n implies with_filled_tiles(store, keys, tiles, fill, n).dom().contains(
            #[trigger] keys[k],
        ) && with_filled_tiles(store, keys, tiles, fill, n)[keys[k]] == Some(
            filled(fill, tiles[k].size.x * tiles[k].size.y),
        ) by {
            if k < n - 1 {
                assert(keys[k] != keys[n - 1]);
            }
        }
    }
}

/// Over any run of canvas calls, each keeping the layout of the state before
/// it, every state keeps the layout the run started with, and so stays well
/// formed: the canvas stays `CANVAS_WIDTH` x `CANVAS_HEIGHT` with the same
/// tiles, keys, buffer length and number of dirty flags.
pub proof fn lemma_layout_kept_over_calls(run: Seq<CanvasModel>)
    requires
        run.len() >= 1,
        run[0].wf(),
        forall|i: int| 0 <= i < run.len() - 1 ==> #[trigger] run[i + 1].keeps_layout(run[i]),
    ensures
        forall|i: int| 0 <= i < run.len() ==> #[trigger] run[i].keeps_layout(run[0]) && run[i].wf(),
    decreases run.len(),
{
    if run.len() > 1 {
        let prefix = run.drop_last();
        assert forall|i: int| 0 <= i < prefix.len() - 1 implies #[trigger] prefix[i + 1].keeps_layout(
            prefix[i],
        ) by {
            assert(run[i + 1].keeps_layout(run[i]));
        }
        lemma_layout_kept_over_calls(prefix);
        assert forall|i: int| 0 <= i < run.len() implies #[trigger] run[i].keeps_layout(run[0])
            && run[i].wf() by {
            if i < run.len() - 1 {
                assert(prefix[i].keeps_layout(prefix[0]));
            } else {
                let j = i - 1;
                assert(prefix[j].keeps_layout(prefix[0]));
                assert(run[j + 1].keeps_layout(run[j]));
            }
        }
    }
}

/// A dab's changes lie in dirty tiles: after a dab, every canvas pixel whose
/// bytes it changed lies in a tile that is now dirty.
pub proof fn lemma_dab_changes_lie_in_dirty_tiles(
    before: CanvasModel,
    after: CanvasModel,
    rect: PixelRect,
    shades: Seq<Option<[u8; 3]>>,
    x: int,
    y: int,
)
    requires
        before.wf(),
        rect.is_nonempty(),
        after.pixels == dabbed(before.pixels, before.size.x as int, rect, shades),
        after.keeps_layout(before),
        forall|k: int|
            0 <= k < after.dirty.len() ==> #[trigger] after.dirty[k] == (before.dirty[k]
                || rect.overlaps(before.tiles[k].rect())),
        0 <= x < before.size.x,
        0 <= y < before.size.y,
        ({
            let i = pixel_index(before.size.x as int, x, y);
            after.pixels.subrange(i, i + 4) != before.pixels.subrange(i, i + 4)
        }),
    ensures
        0 <= grid_tile_of(before.size, x, y) < after.tiles.len(),
        after.tiles[grid_tile_of(before.size, x, y)].rect().contains(x, y),
        after.dirty[grid_tile_of(before.size, x, y)],
{
    lemma_changed_pixels_lie_in_touched_tiles(before, rect, shades, x, y);
}

/// What a dab does to one pixel of the canvas: a pixel of the rectangle whose
/// entry (row by row) is `Some(rgb)` becomes `rgb` at full opacity; every
/// other pixel, uncovered entries and pixels outside the rectangle alike,
/// keeps its four bytes.
pub proof fn lemma_dab_pixel(
    m: CanvasModel,
    rect: PixelRect,
    shades: Seq<Option<[u8; 3]>>,
    x: int,
    y: int,
)
    requires
        m.wf(),
        0 <= x < m.size.x,
        0 <= y < m.size.y,
    ensures
        ({
            let i = pixel_index(m.size.x as int, x, y);
            let after = dabbed(m.pixels, m.size.x as int, rect, shades);
            let entry = (y - rect.min.y) * (rect.max.x - rect.min.x) + (x - rect.min.x);
            &&& 0 <= i && i + 4 <= m.pixels.len()
            &&& (rect.contains(x, y) && shades[entry] is Some) ==> after.subrange(i, i + 4) == seq![
                shades[entry].unwrap()@[0],
                shades[entry].unwrap()@[1],
                shades[entry].unwrap()@[2],
                255u8,
            ]
            &&& !(rect.contains(x, y) && shades[entry] is Some) ==> after.subrange(i, i + 4)
                == m.pixels.subrange(i, i + 4)
        }),
{
    let w = m.size.x as int;
    let i = pixel_index(w, x, y);
    let after = dabbed(m.pixels, w, rect, shades);
    let entry = (y - rect.min.y) * (rect.max.x - rect.min.x) + (x - rect.min.x);
    assert(w == 1600);
    assert(y * w == y * 1600);
    assert(m.size.x * m.size.y == 1600 * 1000);
    assert(i + 4 <= m.pixels.len());
    assert forall|c: int| 0 <= c < 4 implies #[trigger] after.subrange(i, i + 4)[c] == after[i + c]
        && ((i + c) / 4) % w == x && ((i + c) / 4) / w == y && (i + c) % 4 == c by {
        assert((i + c) / 4 == y * w + x);
    }
    if rect.contains(x, y) && shades[entry] is Some {
        assert(after.subrange(i, i + 4) =~= seq![
            shades[entry].unwrap()@[0],
            shades[entry].unwrap()@[1],
            shades[entry].unwrap()@[2],
            255u8,
        ]);
    } else {
        assert(after.subrange(i, i + 4) =~= m.pixels.subrange(i, i + 4));
    }
}

} // verus!
