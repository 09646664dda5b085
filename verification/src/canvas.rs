//! The master canvas: one RGBA8 buffer in CPU memory, split into display
//! tiles whose images are refreshed only when a stroke has touched them.

use vstd::prelude::*;
use crate::geometry::{PixelVec, PixelRect, TILE_SIZE, grid_len, is_grid_tile, lemma_grid_cell};
use crate::model::{
    CanvasModel, StoreContents, TilePlacement, pixel_index, filled, tile_rows, dabbed, dab_shade,
    count_true, uploaded_bytes, uploaded_store, with_filled_tiles, lemma_paper_tile_data,
    lemma_dab_frame, lemma_dab_pixel, lemma_uploaded_store, lemma_with_filled_tiles_prefix,
    lemma_with_filled_tiles_at,
};
use crate::image_store::{
    ImageStore, TileImage, image_data, image_key, stored_images, linear_images, new_filled_image,
    use_linear_sampler, add_image, replace_image_data,
};
use crate::tool::Tool;

verus! {

/// Width of the canvas in pixels.
pub const CANVAS_WIDTH: u32 = 1600;

/// Height of the canvas in pixels.
pub const CANVAS_HEIGHT: u32 = 1000;

/// The paper colour, which the canvas starts as and the eraser restores.
pub const PAPER: [u8; 4] = [248, 247, 244, 255];

/// The pen's ink colour.
pub const INK: [u8; 4] = [24, 27, 32, 255];

/// One display tile: its image in the asset store and the part of the canvas
/// that it shows.
pub struct CanvasTile {
    pub image: TileImage,
    pub origin: PixelVec,
    pub size: PixelVec,
}

/// Where each tile lies on the canvas.
pub open spec fn tile_placements(tiles: Seq<CanvasTile>) -> Seq<TilePlacement> {
    tiles.map_values(|t: CanvasTile| TilePlacement { origin: t.origin, size: t.size })
}

/// The store key of each tile's image.
pub open spec fn tile_keys(tiles: Seq<CanvasTile>) -> Seq<int> {
    tiles.map_values(|t: CanvasTile| image_key(t.image))
}

/// The canvas: pixels, tiles and which tiles need their image refreshed.
pub struct PaintCanvas {
    tiles: Vec<CanvasTile>,
    pixels: Vec<u8>,
    size: PixelVec,
    background: [u8; 4],
    dirty_tiles: Vec<bool>,
}

impl View for PaintCanvas {
    type V = CanvasModel;

    closed spec fn view(&self) -> CanvasModel {
        CanvasModel {
            size: self.size,
            pixels: self.pixels@,
            background: self.background@,
            tiles: tile_placements(self.tiles@),
            dirty: self.dirty_tiles@,
            keys: tile_keys(self.tiles@),
        }
    }
}

/// Creates the images of the tile grid in `images`, row by row from the top
/// left, each filled with `fill`: the store gains one image per tile under a
/// key that was not in use, and changes nowhere else.
fn build_tiles(images: &mut ImageStore, fill: [u8; 4]) -> (tiles: Vec<CanvasTile>)
    ensures
        tiles.len() == grid_len(PixelVec { x: CANVAS_WIDTH, y: CANVAS_HEIGHT }),
        forall|k: int|
            0 <= k < tiles.len() ==> is_grid_tile(
                PixelVec { x: CANVAS_WIDTH, y: CANVAS_HEIGHT },
                k,
                #[trigger] tiles@[k].origin,
                tiles@[k].size,
            ),
        forall|i: int, j: int|
            0 <= i < tiles.len() && 0 <= j < tiles.len() && i != j ==> #[trigger] tile_keys(
                tiles@,
            )[i] != #[trigger] tile_keys(tiles@)[j],
        forall|k: int|
            0 <= k < tiles.len() ==> !stored_images(*old(images)).dom().contains(
                #[trigger] tile_keys(tiles@)[k],
            ),
        stored_images(*final(images)) == with_filled_tiles(
            stored_images(*old(images)),
            tile_keys(tiles@),
            tile_placements(tiles@),
            fill@,
            tiles.len() as int,
        ),
        forall|k: int|
            0 <= k < tiles.len() ==> linear_images(*final(images)).contains(
                #[trigger] tile_keys(tiles@)[k],
            ),
        forall|key: int|
            (forall|k: int| 0 <= k < tiles.len() ==> #[trigger] tile_keys(tiles@)[k] != key) ==> (
            linear_images(*final(images)).contains(key) == linear_images(*old(images)).contains(
                key,
            )),
{
    let ghost size = PixelVec { x: CANVAS_WIDTH, y: CANVAS_HEIGHT };
    let ghost start = stored_images(*images);
    assert(grid_len(size) == 28);
    let mut tiles: Vec<CanvasTile> = Vec::new();
    let mut row: u32 = 0;
    let mut y: u32 = 0;
    while y < CANVAS_HEIGHT
        invariant
            size == (PixelVec { x: CANVAS_WIDTH, y: CANVAS_HEIGHT }),
            start == stored_images(*old(images)),
            y == row * TILE_SIZE,
            row <= 4,
            tiles.len() == row * 7,
            forall|k: int|
                0 <= k < tiles.len() ==> is_grid_tile(
                    size,
                    k,
                    #[trigger] tiles@[k].origin,
                    tiles@[k].size,
                ),
            forall|i: int, j: int|
                0 <= i < tiles.len() && 0 <= j < tiles.len() && i != j ==> #[trigger] tile_keys(
                    tiles@,
                )[i] != #[trigger] tile_keys(tiles@)[j],
            forall|k: int|
                0 <= k < tiles.len() ==> !start.dom().contains(#[trigger] tile_keys(tiles@)[k])
                    && stored_images(*images).dom().contains(tile_keys(tiles@)[k]),
            forall|key: int|
                #[trigger] start.dom().contains(key) ==> stored_images(*images).dom().contains(key),
            stored_images(*images) == with_filled_tiles(
                start,
                tile_keys(tiles@),
                tile_placements(tiles@),
                fill@,
                tiles.len() as int,
            ),
            forall|k: int|
                0 <= k < tiles.len() ==> linear_images(*images).contains(
                    #[trigger] tile_keys(tiles@)[k],
                ),
            forall|key: int|
                (forall|k: int| 0 <= k < tiles.len() ==> #[trigger] tile_keys(tiles@)[k] != key)
                    ==> (linear_images(*images).contains(key) == linear_images(*old(images)).contains(
                    key,
                )),
        decreases 4 - row,
    {
        let mut col: u32 = 0;
        let mut x: u32 = 0;
        while x < CANVAS_WIDTH
            invariant
                size == (PixelVec { x: CANVAS_WIDTH, y: CANVAS_HEIGHT }),
                start == stored_images(*old(images)),
                y == row * TILE_SIZE,
                y < CANVAS_HEIGHT,
                row < 4,
                x == col * TILE_SIZE,
                col <= 7,
                tiles.len() == row * 7 + col,
                forall|k: int|
                    0 <= k < tiles.len() ==> is_grid_tile(
                        size,
                        k,
                        #[trigger] tiles@[k].origin,
                        tiles@[k].size,
                    ),
                forall|i: int, j: int|
                    0 <= i < tiles.len() && 0 <= j < tiles.len() && i != j ==> #[trigger] tile_keys(
                        tiles@,
                    )[i] != #[trigger] tile_keys(tiles@)[j],
                forall|k: int|
                    0 <= k < tiles.len() ==> !start.dom().contains(#[trigger] tile_keys(tiles@)[k])
                        && stored_images(*images).dom().contains(tile_keys(tiles@)[k]),
                forall|key: int|
                    #[trigger] start.dom().contains(key) ==> stored_images(*images).dom().contains(
                        key,
                    ),
                stored_images(*images) == with_filled_tiles(
                    start,
                    tile_keys(tiles@),
                    tile_placements(tiles@),
                    fill@,
                    tiles.len() as int,
                ),
                forall|k: int|
                    0 <= k < tiles.len() ==> linear_images(*images).contains(
                        #[trigger] tile_keys(tiles@)[k],
                    ),
                forall|key: int|
                    (forall|k: int| 0 <= k < tiles.len() ==> #[trigger] tile_keys(tiles@)[k] != key)
                        ==> (linear_images(*images).contains(key) == linear_images(
                        *old(images),
                    ).contains(key)),
            decreases 7 - col,
        {
            let width = if TILE_SIZE <= CANVAS_WIDTH - x {
                TILE_SIZE
            } else {
                CANVAS_WIDTH - x
            };
            let height = if TILE_SIZE <= CANVAS_HEIGHT - y {
                TILE_SIZE
            } else {
                CANVAS_HEIGHT - y
            };
            assert(width * height <= 65536) by (nonlinear_arith)
                requires
                    width <= 256,
                    height <= 256,
            ;
            let mut image = new_filled_image(width, height, fill);
            use_linear_sampler(&mut image);
            let ghost before = stored_images(*images);
            let ghost old_tiles = tiles@;
            let handle = add_image(images, image);
            proof {
                lemma_grid_cell(size, col as int, row as int);
            }
            let tile = CanvasTile {
                image: handle,
                origin: PixelVec { x, y },
                size: PixelVec { x: width, y: height },
            };
            let ghost key = image_key(tile.image);
            let ghost place = TilePlacement { origin: tile.origin, size: tile.size };
            tiles.push(tile);
            proof {
                assert(tile_keys(tiles@) =~= tile_keys(old_tiles).push(key));
                assert(tile_placements(tiles@) =~= tile_placements(old_tiles).push(place));
                lemma_with_filled_tiles_prefix(
                    start,
                    tile_keys(old_tiles),
                    tile_placements(old_tiles),
                    fill@,
                    old_tiles.len() as int,
                    key,
                    place,
                );
                assert forall|k: int| 0 <= k < old_tiles.len() implies tile_keys(tiles@)[k]
                    == tile_keys(old_tiles)[k] by {}
                assert forall|key: int|
                    (forall|k: int| 0 <= k < tiles.len() ==> #[trigger] tile_keys(tiles@)[k] != key) implies (
                    linear_images(*images).contains(key) == linear_images(*old(images)).contains(
                        key,
                    )) by {
                    assert(tile_keys(tiles@)[old_tiles.len() as int] != key);
                    assert forall|k: int| 0 <= k < old_tiles.len() implies #[trigger] tile_keys(
                        old_tiles,
                    )[k] != key by {
                        assert(tile_keys(tiles@)[k] != key);
                    }
                }
            }
            x = x + TILE_SIZE;
            col = col + 1;
        }
        y = y + TILE_SIZE;
        row = row + 1;
    }
    tiles
}

/// Index of the first byte of pixel `(x, y)` of the canvas.
fn byte_index(x: u32, y: u32) -> (i: usize)
    requires
        x < CANVAS_WIDTH,
        y < CANVAS_HEIGHT,
    ensures
        i == pixel_index(CANVAS_WIDTH as int, x as int, y as int),
        i + 4 <= CANVAS_WIDTH * CANVAS_HEIGHT * 4,
{
    let row: usize = y as usize;
    assert(row * 1600 <= 999 * 1600) by (nonlinear_arith)
        requires
            row <= 999,
    ;
    (row * 1600 + (x as usize)) * 4
}

impl PaintCanvas {
    /// The canvas invariant.
    pub open spec fn wf(&self) -> bool {
        self@.wf()
    }

    /// A canvas of `CANVAS_WIDTH` x `CANVAS_HEIGHT` paper-coloured pixels, no
    /// tile dirty. `images` gains one paper image per tile, of the tile's size,
    /// each under a key that was not in use, and changes nowhere else; the
    /// store then shows the canvas.
    pub fn new(images: &mut ImageStore) -> (canvas: Self)
        ensures
            canvas.wf(),
            canvas@.pixels == filled(PAPER@, CANVAS_WIDTH * CANVAS_HEIGHT),
            forall|k: int| 0 <= k < canvas@.dirty.len() ==> !#[trigger] canvas@.dirty[k],
            forall|k: int|
                0 <= k < canvas@.keys.len() ==> !stored_images(*old(images)).dom().contains(
                    #[trigger] canvas@.keys[k],
                ),
            stored_images(*final(images)) == with_filled_tiles(
                stored_images(*old(images)),
                canvas@.keys,
                canvas@.tiles,
                PAPER@,
                canvas@.tiles.len() as int,
            ),
            forall|k: int|
                0 <= k < canvas@.keys.len() ==> stored_images(*final(images)).dom().contains(
                    #[trigger] canvas@.keys[k],
                ) && stored_images(*final(images))[canvas@.keys[k]] == Some(
                    filled(PAPER@, canvas@.tiles[k].size.x * canvas@.tiles[k].size.y),
                ),
            forall|k: int|
                0 <= k < canvas@.keys.len() ==> linear_images(*final(images)).contains(
                    #[trigger] canvas@.keys[k],
                ),
            forall|key: int|
                (forall|k: int| 0 <= k < canvas@.keys.len() ==> #[trigger] canvas@.keys[k] != key)
                    ==> (linear_images(*final(images)).contains(key) == linear_images(
                    *old(images),
                ).contains(key)),
            canvas@.synced_with(stored_images(*final(images))),
    {
        let tiles = build_tiles(images, PAPER);
        let total: usize = (CANVAS_WIDTH as usize) * (CANVAS_HEIGHT as usize) * 4;
        let mut pixels: Vec<u8> = Vec::new();
        for i in 0..total
            invariant
                total == CANVAS_WIDTH * CANVAS_HEIGHT * 4,
                pixels.len() == i,
                forall|j: int| 0 <= j < i ==> #[trigger] pixels@[j] == PAPER@[j % 4],
        {
            pixels.push(PAPER[i % 4]);
        }
        let mut dirty_tiles: Vec<bool> = Vec::new();
        for k in 0..tiles.len()
            invariant
                dirty_tiles.len() == k,
                forall|j: int| 0 <= j < k ==> !#[trigger] dirty_tiles@[j],
        {
            dirty_tiles.push(false);
        }
        let canvas = PaintCanvas {
            tiles,
            pixels,
            size: PixelVec { x: CANVAS_WIDTH, y: CANVAS_HEIGHT },
            background: PAPER,
            dirty_tiles,
        };
        assert(canvas@.pixels =~= filled(PAPER@, CANVAS_WIDTH * CANVAS_HEIGHT));
        assert(canvas@.wf());
        proof {
            let m = canvas@;
            lemma_with_filled_tiles_at(
                stored_images(*old(images)),
                m.keys,
                m.tiles,
                PAPER@,
                m.tiles.len() as int,
            );
            assert forall|k: int| 0 <= k < m.tiles.len() && !#[trigger] m.dirty[k] implies stored_images(
                *images,
            ).dom().contains(m.keys[k]) && stored_images(*images)[m.keys[k]] == Some(m.tile_data(k)) by {
                lemma_paper_tile_data(m, k);
            }
        }
        canvas
    }

    /// The display tiles, row by row from the top left.
    pub fn tiles(&self) -> (tiles: &Vec<CanvasTile>)
        ensures
            tiles.len() == self@.tiles.len(),
            forall|k: int|
                0 <= k < tiles.len() ==> #[trigger] tiles@[k].origin == self@.tiles[k].origin
                    && tiles@[k].size == self@.tiles[k].size && image_key(tiles@[k].image)
                    == self@.keys[k],
    {
        &self.tiles
    }

    /// The canvas size in pixels.
    pub fn size(&self) -> (size: PixelVec)
        ensures
            size == self@.size,
    {
        self.size
    }

    /// Whether tile `k` changed since its image was last refreshed.
    pub fn is_tile_dirty(&self, k: usize) -> (dirty: bool)
        requires
            self.wf(),
            k < self@.tiles.len(),
        ensures
            dirty == self@.dirty[k as int],
    {
        self.dirty_tiles[k]
    }

    /// How many tiles changed since their images were last refreshed.
    pub fn dirty_tile_count(&self) -> (count: usize)
        requires
            self.wf(),
        ensures
            count == count_true(self@.dirty),
    {
        let mut count: usize = 0;
        for k in 0..self.dirty_tiles.len()
            invariant
                self.wf(),
                count == count_true(self@.dirty.take(k as int)),
                count <= k,
        {
            assert(self@.dirty.take(k + 1).drop_last() =~= self@.dirty.take(k as int));
            if self.dirty_tiles[k] {
                count = count + 1;
            }
        }
        assert(self@.dirty.take(self@.dirty.len() as int) =~= self@.dirty);
        count
    }

    /// The colour a tool lays down: ink for the pen, the background for the eraser.
    pub fn stroke_color(&self, tool: Tool) -> (color: [u8; 4])
        ensures
            color@ == (match tool {
                Tool::Pen => INK@,
                Tool::Eraser => self@.background,
            }),
    {
        match tool {
            Tool::Pen => INK,
            Tool::Eraser => self.background,
        }
    }

    /// Paints every pixel with the background colour and marks every tile dirty.
    pub fn clear(&mut self)
        requires
            old(self).wf(),
        ensures
            final(self).wf(),
            final(self)@.size == old(self)@.size,
            final(self)@.background == old(self)@.background,
            final(self)@.tiles == old(self)@.tiles,
            final(self)@.keys == old(self)@.keys,
            final(self)@.keeps_layout(old(self)@),
            forall|store: StoreContents|
                #[trigger] old(self)@.synced_with(store) ==> final(self)@.synced_with(store),
            final(self)@.pixels == filled(old(self)@.background, old(self)@.size.x * old(self)@.size.y),
            forall|k: int| 0 <= k < final(self)@.dirty.len() ==> #[trigger] final(self)@.dirty[k],
    {
        let m = self.dirty_tiles.len();
        for k in 0..m
            invariant
                self.wf(),
                m == self@.dirty.len(),
                self@.size == old(self)@.size,
                self@.background == old(self)@.background,
                self@.tiles == old(self)@.tiles,
                self@.keys == old(self)@.keys,
                self@.pixels == old(self)@.pixels,
                forall|j: int| 0 <= j < k ==> #[trigger] self@.dirty[j],
        {
            self.dirty_tiles.set(k, true);
        }
        let n = self.pixels.len();
        for i in 0..n
            invariant
                self@.wf(),
                n == self@.pixels.len(),
                self@.size == old(self)@.size,
                self@.background == old(self)@.background,
                self@.tiles == old(self)@.tiles,
                self@.keys == old(self)@.keys,
                forall|k: int| 0 <= k < m ==> #[trigger] self@.dirty[k],
                m == self@.dirty.len(),
                forall|j: int| 0 <= j < i ==> #[trigger] self@.pixels[j] == self@.background[j % 4],
        {
            let channel = self.background[i % 4];
            self.pixels.set(i, channel);
        }
        assert(self@.pixels =~= filled(old(self)@.background, old(self)@.size.x * old(self)@.size.y));
        assert forall|store: StoreContents| #[trigger] old(self)@.synced_with(store) implies self@.synced_with(
            store,
        ) by {}
    }

    /// Marks dirty every tile that overlaps `rect`; other flags stay as they were.
    pub fn mark_dirty(&mut self, rect: PixelRect)
        requires
            old(self).wf(),
        ensures
            final(self).wf(),
            final(self)@.size == old(self)@.size,
            final(self)@.pixels == old(self)@.pixels,
            final(self)@.background == old(self)@.background,
            final(self)@.tiles == old(self)@.tiles,
            final(self)@.keys == old(self)@.keys,
            final(self)@.keeps_layout(old(self)@),
            forall|store: StoreContents|
                #[trigger] old(self)@.synced_with(store) ==> final(self)@.synced_with(store),
            forall|k: int|
                0 <= k < final(self)@.dirty.len() ==> #[trigger] final(self)@.dirty[k] == (
                old(self)@.dirty[k] || rect.overlaps(old(self)@.tiles[k].rect())),
    {
        let n = self.tiles.len();
        for k in 0..n
            invariant
                self.wf(),
                n == self@.tiles.len(),
                self@.size == old(self)@.size,
                self@.pixels == old(self)@.pixels,
                self@.background == old(self)@.background,
                self@.tiles == old(self)@.tiles,
                self@.keys == old(self)@.keys,
                forall|j: int|
                    0 <= j < k ==> #[trigger] self@.dirty[j] == (old(self)@.dirty[j]
                        || rect.overlaps(old(self)@.tiles[j].rect())),
                forall|j: int| k <= j < n ==> #[trigger] self@.dirty[j] == old(self)@.dirty[j],
        {
            let origin = self.tiles[k].origin;
            let extent = self.tiles[k].size;
            assert(self@.tiles[k as int].origin == origin);
            let tile_rect = PixelRect {
                min: origin,
                max: PixelVec { x: origin.x + extent.x, y: origin.y + extent.y },
            };
            if rect.intersects(tile_rect) {
                self.dirty_tiles.set(k, true);
            }
        }
    }

    /// The bytes of pixel `(x, y)`.
    pub fn pixel(&self, x: u32, y: u32) -> (bytes: [u8; 4])
        requires
            self.wf(),
            x < self@.size.x,
            y < self@.size.y,
        ensures
            bytes@ == self@.pixel(x as int, y as int),
    {
        let i = byte_index(x, y);
        let bytes = [self.pixels[i], self.pixels[i + 1], self.pixels[i + 2], self.pixels[i + 3]];
        assert(bytes@ =~= self@.pixel(x as int, y as int));
        bytes
    }

    /// Lays one dab over `rect`: `shades` lists, row by row, the new colour of
    /// each pixel of `rect` (`None` leaves the pixel as it is); a new colour is
    /// written at full opacity. Every tile that overlaps `rect` is marked dirty.
    pub fn paint_dab(&mut self, rect: PixelRect, shades: &Vec<Option<[u8; 3]>>)
        requires
            old(self).wf(),
            rect.min.x < rect.max.x <= old(self)@.size.x,
            rect.min.y < rect.max.y <= old(self)@.size.y,
            shades.len() == (rect.max.x - rect.min.x) * (rect.max.y - rect.min.y),
        ensures
            final(self).wf(),
            final(self)@.size == old(self)@.size,
            final(self)@.background == old(self)@.background,
            final(self)@.tiles == old(self)@.tiles,
            final(self)@.keys == old(self)@.keys,
            final(self)@.keeps_layout(old(self)@),
            forall|store: StoreContents|
                #[trigger] old(self)@.synced_with(store) ==> final(self)@.synced_with(store),
            final(self)@.pixels == dabbed(old(self)@.pixels, old(self)@.size.x as int, rect, shades@),
            forall|x: int, y: int|
                0 <= x < old(self)@.size.x && 0 <= y < old(self)@.size.y
                    ==> #[trigger] final(self)@.pixel(x, y) == if rect.contains(x, y) && shades@[(y - rect.min.y) * (rect.max.x
                    - rect.min.x) + (x - rect.min.x)] is Some {
                    let rgb = shades@[(y - rect.min.y) * (rect.max.x - rect.min.x) + (x
                        - rect.min.x)].unwrap();
                    seq![rgb@[0], rgb@[1], rgb@[2], 255u8]
                } else {
                    old(self)@.pixel(x, y)
                },
            forall|k: int|
                0 <= k < final(self)@.dirty.len() ==> #[trigger] final(self)@.dirty[k] == (
                old(self)@.dirty[k] || rect.overlaps(old(self)@.tiles[k].rect())),
    {
        self.mark_dirty(rect);
        let ghost marked = self@;
        let ghost w = CANVAS_WIDTH as int;
        let ghost target = dabbed(marked.pixels, w, rect, shades@);
        let rw = rect.max.x - rect.min.x;
        let mut i: usize = 0;
        let mut y = rect.min.y;
        while y < rect.max.y
            invariant
                marked.wf(),
                self@.wf(),
                self@.size == marked.size,
                self@.tiles == marked.tiles,
                self@.dirty == marked.dirty,
                self@.keys == marked.keys,
                rect.min.x < rect.max.x <= CANVAS_WIDTH,
                rect.min.y <= y <= rect.max.y,
                rect.max.y <= CANVAS_HEIGHT,
                rw == rect.max.x - rect.min.x,
                shades.len() == rw * (rect.max.y - rect.min.y),
                i == (y - rect.min.y) * rw,
                w == CANVAS_WIDTH,
                target == dabbed(marked.pixels, w, rect, shades@),
                forall|j: int|
                    0 <= j < self@.pixels.len() ==> #[trigger] self@.pixels[j] == if (j / 4) / w < y {
                        target[j]
                    } else {
                        marked.pixels[j]
                    },
            decreases rect.max.y - y,
        {
            assert(i + rw <= shades.len()) by (nonlinear_arith)
                requires
                    i == (y - rect.min.y) * rw,
                    y < rect.max.y,
                    shades.len() == rw * (rect.max.y - rect.min.y),
            ;
            let mut x = rect.min.x;
            while x < rect.max.x
                invariant
                    marked.wf(),
                    self@.wf(),
                    self@.size == marked.size,
                    self@.tiles == marked.tiles,
                    self@.dirty == marked.dirty,
                    self@.keys == marked.keys,
                    rect.min.x <= x <= rect.max.x,
                    rect.max.x <= CANVAS_WIDTH,
                    rect.min.y <= y < rect.max.y,
                    rect.max.y <= CANVAS_HEIGHT,
                    rw == rect.max.x - rect.min.x,
                    i == (y - rect.min.y) * rw + (x - rect.min.x),
                    (y - rect.min.y) * rw + rw <= shades.len(),
                    w == CANVAS_WIDTH,
                    target == dabbed(marked.pixels, w, rect, shades@),
                    forall|j: int|
                        0 <= j < self@.pixels.len() ==> #[trigger] self@.pixels[j] == if (j / 4) / w
                            < y || ((j / 4) / w == y && (j / 4) % w < x) {
                            target[j]
                        } else {
                            marked.pixels[j]
                        },
                decreases rect.max.x - x,
            {
                let b = byte_index(x, y);
                let ghost before = self@.pixels;
                assert(dab_shade(rect, shades@, x as int, y as int) == shades@[i as int]);
                match shades[i] {
                    Some(rgb) => {
                        self.pixels.set(b, rgb[0]);
                        self.pixels.set(b + 1, rgb[1]);
                        self.pixels.set(b + 2, rgb[2]);
                        self.pixels.set(b + 3, 255);
                    },
                    None => {},
                }
                assert forall|j: int| 0 <= j < self@.pixels.len() implies #[trigger] self@.pixels[j]
                    == if (j / 4) / w < y || ((j / 4) / w == y && (j / 4) % w < x + 1) {
                    target[j]
                } else {
                    marked.pixels[j]
                } by {
                    if b <= j < b + 4 {
                        assert(j / 4 == y * w + x);
                        assert((j / 4) / w == y && (j / 4) % w == x);
                        assert(j % 4 == j - b);
                    } else {
                        assert(self@.pixels[j] == before[j]);
                        if (j / 4) / w == y && (j / 4) % w == x {
                            assert(j / 4 == y * w + x);
                        }
                    }
                }
                i = i + 1;
                x = x + 1;
            }
            assert(i == (y + 1 - rect.min.y) * rw) by (nonlinear_arith)
                requires
                    i == (y - rect.min.y) * rw + (x - rect.min.x),
                    x == rect.max.x,
                    rw == rect.max.x - rect.min.x,
            ;
            y = y + 1;
        }
        assert(self@.pixels =~= target);
        assert forall|x: int, y: int|
            0 <= x < old(self)@.size.x && 0 <= y < old(self)@.size.y implies #[trigger] self@.pixel(
            x,
            y,
        ) == if rect.contains(x, y) && shades@[(y - rect.min.y) * (rect.max.x - rect.min.x) + (x
            - rect.min.x)] is Some {
            let rgb = shades@[(y - rect.min.y) * (rect.max.x - rect.min.x) + (x
                - rect.min.x)].unwrap();
            seq![rgb@[0], rgb@[1], rgb@[2], 255u8]
        } else {
            old(self)@.pixel(x, y)
        } by {
            lemma_dab_pixel(old(self)@, rect, shades@, x, y);
        }
        assert forall|store: StoreContents| #[trigger] old(self)@.synced_with(store) implies self@.synced_with(
            store,
        ) by {
            assert forall|k: int| 0 <= k < self@.tiles.len() && !#[trigger] self@.dirty[k] implies store.dom().contains(
                self@.keys[k],
            ) && store[self@.keys[k]] == Some(self@.tile_data(k)) by {
                assert(!old(self)@.dirty[k]);
                lemma_dab_frame(marked, rect, shades@, k);
            }
        }
    }

    /// The image data of tile `k`: its rows of canvas pixels, top to bottom.
    pub fn tile_bytes(&self, k: usize) -> (data: Vec<u8>)
        requires
            self.wf(),
            k < self@.tiles.len(),
        ensures
            data@ == self@.tile_data(k as int),
            data@.len() == self@.tiles[k as int].size.x * self@.tiles[k as int].size.y * 4,
    {
        let origin = self.tiles[k].origin;
        let extent = self.tiles[k].size;
        let ghost tile = self@.tiles[k as int];
        assert(tile.origin == origin && tile.size == extent);
        let source_stride = (CANVAS_WIDTH as usize) * 4;
        let tile_stride = (extent.x as usize) * 4;
        let mut data: Vec<u8> = Vec::new();
        for row in 0..(extent.y as usize)
            invariant
                self.wf(),
                k < self@.tiles.len(),
                tile == self@.tiles[k as int],
                tile.origin == origin,
                tile.size == extent,
                source_stride == self@.size.x * 4,
                tile_stride == extent.x * 4,
                data@ == tile_rows(self@.pixels, self@.size.x as int, tile, row as int),
                data@.len() == row * tile_stride,
        {
            let line: usize = (origin.y as usize) + row;
            assert(line < CANVAS_HEIGHT);
            assert(line * 6400 <= 999 * 6400) by (nonlinear_arith)
                requires
                    line <= 999,
            ;
            let start = line * source_stride + (origin.x as usize) * 4;
            assert(start == pixel_index(self@.size.x as int, origin.x as int, origin.y + row));
            let ghost before = data@;
            for j in 0..tile_stride
                invariant
                    self.wf(),
                    tile_stride == extent.x * 4,
                    start + tile_stride <= self@.pixels.len(),
                    data@ == before + self@.pixels.subrange(start as int, start + j),
            {
                data.push(self.pixels[start + j]);
                assert(data@ =~= before + self@.pixels.subrange(start as int, start + j + 1));
            }
            assert((row + 1) * tile_stride == row * tile_stride + tile_stride) by (nonlinear_arith);
        }
        assert(extent.y * (extent.x * 4) == extent.x * extent.y * 4) by (nonlinear_arith);
        data
    }

    /// Refreshes the image of every dirty tile in `images` with the tile's
    /// current data, and returns how many bytes were copied. A dirty tile whose
    /// image the store holds ends clean; one whose image is gone stays dirty
    /// and copies nothing; clean tiles are left alone, and so is every other
    /// image of the store. A store that showed the canvas still does.
    pub fn upload_dirty(&mut self, images: &mut ImageStore) -> (uploaded: usize)
        requires
            old(self).wf(),
        ensures
            final(self).wf(),
            final(self)@.size == old(self)@.size,
            final(self)@.pixels == old(self)@.pixels,
            final(self)@.background == old(self)@.background,
            final(self)@.tiles == old(self)@.tiles,
            final(self)@.keys == old(self)@.keys,
            final(self)@.keeps_layout(old(self)@),
            forall|k: int|
                0 <= k < final(self)@.dirty.len() ==> #[trigger] final(self)@.dirty[k] == (old(
                    self,
                )@.dirty[k] && !stored_images(*old(images)).dom().contains(old(self)@.keys[k])),
            stored_images(*final(images)) == uploaded_store(
                old(self)@,
                stored_images(*old(images)),
                old(self)@.tiles.len() as int,
            ),
            uploaded == uploaded_bytes(
                old(self)@,
                stored_images(*old(images)),
                old(self)@.tiles.len() as int,
            ),
            linear_images(*final(images)) == linear_images(*old(images)),
            old(self)@.synced_with(stored_images(*old(images))) ==> final(self)@.synced_with(
                stored_images(*final(images)),
            ),
    {
        let ghost start = stored_images(*images);
        let ghost before = self@;
        let n = self.tiles.len();
        let mut uploaded: usize = 0;
        for i in 0..n
            invariant
                self.wf(),
                before == old(self)@,
                before.wf(),
                start == stored_images(*old(images)),
                n == self@.tiles.len(),
                n == 28,
                self@.size == before.size,
                self@.pixels == before.pixels,
                self@.background == before.background,
                self@.tiles == before.tiles,
                self@.keys == before.keys,
                forall|k: int|
                    0 <= k < i ==> #[trigger] self@.dirty[k] == (before.dirty[k]
                        && !start.dom().contains(before.keys[k])),
                forall|k: int| i <= k < n ==> #[trigger] self@.dirty[k] == before.dirty[k],
                stored_images(*images) == uploaded_store(before, start, i as int),
                linear_images(*images) == linear_images(*old(images)),
                uploaded == uploaded_bytes(before, start, i as int),
                uploaded <= i * 262144,
        {
            proof {
                lemma_uploaded_store(before, start, i as int);
            }
            if self.dirty_tiles[i] {
                let data = self.tile_bytes(i);
                let byte_len = data.len();
                let ghost tile = self@.tiles[i as int];
                assert(tile.size.x <= 256 && tile.size.y <= 256);
                assert(tile.size.x * tile.size.y * 4 <= 262144) by (nonlinear_arith)
                    requires
                        tile.size.x <= 256,
                        tile.size.y <= 256,
                ;
                assert(image_key(self.tiles@[i as int].image) == before.keys[i as int]);
                let stored = replace_image_data(images, &self.tiles[i].image, data);
                if stored {
                    self.dirty_tiles.set(i, false);
                    uploaded = uploaded + byte_len;
                }
            }
        }
        proof {
            lemma_uploaded_store(before, start, n as int);
            if before.synced_with(start) {
                let after = stored_images(*images);
                assert forall|k: int| 0 <= k < self@.tiles.len() && !#[trigger] self@.dirty[k] implies after.dom().contains(
                    self@.keys[k],
                ) && after[self@.keys[k]] == Some(self@.tile_data(k)) by {
                    if !before.dirty[k] {
                        assert(!before.refreshes(start, k));
                    }
                }
            }
        }
        uploaded
    }
}

} // verus!
