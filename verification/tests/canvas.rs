use bevy::asset::Assets;
use bevy::image::Image;
use tilt_paint::canvas::{PaintCanvas, CANVAS_HEIGHT, CANVAS_WIDTH, INK, PAPER};
use tilt_paint::geometry::{PixelRect, PixelVec, TILE_SIZE};
use tilt_paint::image_store::ImageStore;
use tilt_paint::tool::Tool;

fn rect(min_x: u32, min_y: u32, max_x: u32, max_y: u32) -> PixelRect {
    PixelRect {
        min: PixelVec { x: min_x, y: min_y },
        max: PixelVec { x: max_x, y: max_y },
    }
}

/// The pixel box a round dab of the given radius covers around a centre,
/// with the one-pixel margin the brush adds.
fn dab_rect(center_x: u32, center_y: u32, radius: u32) -> PixelRect {
    rect(
        center_x - radius - 1,
        center_y - radius - 1,
        center_x + radius + 2,
        center_y + radius + 2,
    )
}

fn paint_pixel(canvas: &mut PaintCanvas, x: u32, y: u32, rgb: [u8; 3]) {
    canvas.paint_dab(rect(x, y, x + 1, y + 1), &vec![Some(rgb)]);
}

fn new_canvas(assets: &mut Assets<Image>) -> PaintCanvas {
    PaintCanvas::new(&mut ImageStore(assets))
}

#[test]
fn a_new_canvas_is_paper_with_a_clean_tile_grid() {
    let mut assets = Assets::<Image>::default();
    let canvas = new_canvas(&mut assets);
    assert_eq!(canvas.size(), PixelVec { x: CANVAS_WIDTH, y: CANVAS_HEIGHT });
    assert_eq!(canvas.tiles().len(), 28);
    assert_eq!(canvas.dirty_tile_count(), 0);
    assert_eq!(canvas.pixel(0, 0), PAPER);
    assert_eq!(canvas.pixel(800, 500), PAPER);
    assert_eq!(canvas.pixel(1599, 999), PAPER);
    assert_eq!(assets.len(), 28);
}

#[test]
fn tiles_are_laid_out_row_by_row_and_clipped_at_the_edges() {
    let mut assets = Assets::<Image>::default();
    let canvas = new_canvas(&mut assets);
    let tiles = canvas.tiles();
    assert_eq!(tiles[0].origin, PixelVec { x: 0, y: 0 });
    assert_eq!(tiles[0].size, PixelVec { x: TILE_SIZE, y: TILE_SIZE });
    assert_eq!(tiles[6].origin, PixelVec { x: 1536, y: 0 });
    assert_eq!(tiles[6].size, PixelVec { x: 64, y: 256 });
    assert_eq!(tiles[7].origin, PixelVec { x: 0, y: 256 });
    assert_eq!(tiles[27].origin, PixelVec { x: 1536, y: 768 });
    assert_eq!(tiles[27].size, PixelVec { x: 64, y: 232 });
    let area: u32 = tiles.iter().map(|tile| tile.size.x * tile.size.y).sum();
    assert_eq!(area, CANVAS_WIDTH * CANVAS_HEIGHT);
}

#[test]
fn a_small_dab_rect_marks_only_its_tile() {
    let mut assets = Assets::<Image>::default();
    let mut canvas = new_canvas(&mut assets);
    canvas.mark_dirty(dab_rect(400, 400, 9));
    assert_eq!(canvas.dirty_tile_count(), 1);
    assert!(canvas.is_tile_dirty(8));
}

#[test]
fn distant_dab_rects_do_not_dirty_tiles_between_them() {
    let mut assets = Assets::<Image>::default();
    let mut canvas = new_canvas(&mut assets);
    canvas.mark_dirty(dab_rect(100, 100, 9));
    canvas.mark_dirty(dab_rect(1500, 900, 9));
    assert_eq!(canvas.dirty_tile_count(), 2);
    assert!(canvas.is_tile_dirty(0));
    assert!(canvas.is_tile_dirty(26));
}

#[test]
fn a_rect_across_a_tile_corner_marks_all_four_tiles() {
    let mut assets = Assets::<Image>::default();
    let mut canvas = new_canvas(&mut assets);
    canvas.mark_dirty(rect(250, 250, 260, 260));
    assert_eq!(canvas.dirty_tile_count(), 4);
    for k in [0, 1, 7, 8] {
        assert!(canvas.is_tile_dirty(k));
    }
}

#[test]
fn a_rect_ending_at_a_tile_edge_does_not_touch_the_next_tile() {
    let mut assets = Assets::<Image>::default();
    let mut canvas = new_canvas(&mut assets);
    canvas.mark_dirty(rect(200, 10, 256, 20));
    assert_eq!(canvas.dirty_tile_count(), 1);
    assert!(canvas.is_tile_dirty(0));
}

#[test]
fn uploading_a_dirty_tile_copies_it_once_and_then_goes_idle() {
    let mut assets = Assets::<Image>::default();
    let mut canvas = new_canvas(&mut assets);
    paint_pixel(&mut canvas, 400, 400, [1, 2, 3]);
    assert_eq!(
        canvas.upload_dirty(&mut ImageStore(&mut assets)),
        (TILE_SIZE * TILE_SIZE * 4) as usize
    );
    assert_eq!(canvas.dirty_tile_count(), 0);
    assert_eq!(canvas.upload_dirty(&mut ImageStore(&mut assets)), 0);
}

#[test]
fn upload_writes_the_tile_data_into_its_image() {
    let mut assets = Assets::<Image>::default();
    let mut canvas = new_canvas(&mut assets);
    paint_pixel(&mut canvas, 300, 260, [10, 20, 30]);
    canvas.upload_dirty(&mut ImageStore(&mut assets));
    let handle = canvas.tiles()[8].image.0.clone();
    let data = assets.get(&handle).unwrap().data.clone().unwrap();
    assert_eq!(data, canvas.tile_bytes(8));
    let offset = (((260 - 256) * 256 + (300 - 256)) * 4) as usize;
    assert_eq!(&data[offset..offset + 4], &[10, 20, 30, 255]);
    assert_eq!(&data[0..4], &PAPER);
}

#[test]
fn a_tile_whose_image_is_gone_stays_dirty() {
    let mut assets = Assets::<Image>::default();
    let mut canvas = new_canvas(&mut assets);
    let handle = canvas.tiles()[0].image.0.clone();
    assets.remove(&handle);
    canvas.mark_dirty(rect(0, 0, 300, 10));
    assert_eq!(
        canvas.upload_dirty(&mut ImageStore(&mut assets)),
        (TILE_SIZE * TILE_SIZE * 4) as usize
    );
    assert_eq!(canvas.dirty_tile_count(), 1);
    assert!(canvas.is_tile_dirty(0));
}

#[test]
fn tile_bytes_hold_the_tile_rows_of_the_canvas() {
    let mut assets = Assets::<Image>::default();
    let mut canvas = new_canvas(&mut assets);
    paint_pixel(&mut canvas, 1599, 999, [7, 8, 9]);
    let data = canvas.tile_bytes(27);
    assert_eq!(data.len(), 64 * 232 * 4);
    let offset = (((999 - 768) * 64 + (1599 - 1536)) * 4) as usize;
    assert_eq!(&data[offset..offset + 4], &[7, 8, 9, 255]);
}

#[test]
fn painting_a_pixel_changes_only_that_pixel() {
    let mut assets = Assets::<Image>::default();
    let mut canvas = new_canvas(&mut assets);
    paint_pixel(&mut canvas, 800, 500, [24, 27, 32]);
    assert_eq!(canvas.pixel(800, 500), [24, 27, 32, 255]);
    assert_eq!(canvas.pixel(801, 500), PAPER);
    assert_eq!(canvas.pixel(800, 501), PAPER);
    assert_eq!(canvas.dirty_tile_count(), 1);
    assert!(canvas.is_tile_dirty(1 * 7 + 3));
}

#[test]
fn erasing_with_the_stroke_color_restores_the_paper_color() {
    let mut assets = Assets::<Image>::default();
    let mut canvas = new_canvas(&mut assets);
    let ink = canvas.stroke_color(Tool::Pen);
    assert_eq!(ink, INK);
    paint_pixel(&mut canvas, 800, 500, [ink[0], ink[1], ink[2]]);
    assert_ne!(canvas.pixel(800, 500), PAPER);
    let paper = canvas.stroke_color(Tool::Eraser);
    assert_eq!(paper, PAPER);
    paint_pixel(&mut canvas, 800, 500, [paper[0], paper[1], paper[2]]);
    assert_eq!(canvas.pixel(800, 500), PAPER);
}

#[test]
fn clear_restores_paper_and_dirties_every_tile() {
    let mut assets = Assets::<Image>::default();
    let mut canvas = new_canvas(&mut assets);
    paint_pixel(&mut canvas, 10, 10, [0, 0, 0]);
    paint_pixel(&mut canvas, 1500, 900, [0, 0, 0]);
    canvas.clear();
    assert_eq!(canvas.pixel(10, 10), PAPER);
    assert_eq!(canvas.pixel(1500, 900), PAPER);
    assert_eq!(canvas.dirty_tile_count(), 28);
    assert_eq!(
        canvas.upload_dirty(&mut ImageStore(&mut assets)),
        (CANVAS_WIDTH * CANVAS_HEIGHT * 4) as usize
    );
    assert_eq!(canvas.dirty_tile_count(), 0);
}

#[test]
fn rects_that_share_a_pixel_intersect_and_touching_ones_do_not() {
    let a = rect(0, 0, 10, 10);
    assert!(a.intersects(rect(9, 9, 20, 20)));
    assert!(rect(9, 9, 20, 20).intersects(a));
    assert!(!a.intersects(rect(10, 0, 20, 10)));
    assert!(!a.intersects(rect(0, 10, 10, 20)));
    assert!(a.intersects(rect(2, 2, 3, 3)));
}

#[test]
fn a_dab_lists_its_shades_row_by_row_and_skips_uncovered_pixels() {
    let mut assets = Assets::<Image>::default();
    let mut canvas = new_canvas(&mut assets);
    let shades = vec![
        Some([1, 1, 1]),
        None,
        Some([2, 2, 2]),
        None,
        Some([3, 3, 3]),
        Some([4, 4, 4]),
    ];
    canvas.paint_dab(rect(254, 100, 257, 102), &shades);
    assert_eq!(canvas.pixel(254, 100), [1, 1, 1, 255]);
    assert_eq!(canvas.pixel(255, 100), PAPER);
    assert_eq!(canvas.pixel(256, 100), [2, 2, 2, 255]);
    assert_eq!(canvas.pixel(254, 101), PAPER);
    assert_eq!(canvas.pixel(255, 101), [3, 3, 3, 255]);
    assert_eq!(canvas.pixel(256, 101), [4, 4, 4, 255]);
    assert_eq!(canvas.pixel(257, 101), PAPER);
    assert_eq!(canvas.dirty_tile_count(), 2);
    assert!(canvas.is_tile_dirty(0));
    assert!(canvas.is_tile_dirty(1));
}

#[test]
fn a_dab_with_no_coverage_still_marks_its_rect() {
    let mut assets = Assets::<Image>::default();
    let mut canvas = new_canvas(&mut assets);
    canvas.paint_dab(rect(10, 10, 12, 11), &vec![None, None]);
    assert_eq!(canvas.pixel(10, 10), PAPER);
    assert_eq!(canvas.dirty_tile_count(), 1);
}

#[test]
fn a_new_canvas_puts_one_paper_image_per_tile_into_the_store() {
    let mut assets = Assets::<Image>::default();
    let canvas = new_canvas(&mut assets);
    let mut ids = Vec::new();
    for tile in canvas.tiles() {
        let image = assets.get(&tile.image.0).unwrap();
        let data = image.data.clone().unwrap();
        assert_eq!(data.len(), (tile.size.x * tile.size.y * 4) as usize);
        assert!(data.chunks(4).all(|pixel| pixel == PAPER));
        ids.push(tile.image.0.id());
    }
    ids.sort();
    ids.dedup();
    assert_eq!(ids.len(), 28);
}

#[test]
fn after_a_clear_every_image_is_refreshed_with_paper() {
    let mut assets = Assets::<Image>::default();
    let mut canvas = new_canvas(&mut assets);
    paint_pixel(&mut canvas, 5, 5, [0, 0, 0]);
    canvas.upload_dirty(&mut ImageStore(&mut assets));
    canvas.clear();
    canvas.upload_dirty(&mut ImageStore(&mut assets));
    for (k, tile) in canvas.tiles().iter().enumerate() {
        let data = assets.get(&tile.image.0).unwrap().data.clone().unwrap();
        assert_eq!(data, canvas.tile_bytes(k));
        assert!(data.chunks(4).all(|pixel| pixel == PAPER));
    }
}
