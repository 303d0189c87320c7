//! Pixels, canvases and the graphics pipeline.

use ironrdp::graphics::progressive::encode_first_pass;
use ironrdp_pdu::codecs::rfx::progressive::{
    encode_progressive_stream, ComponentCodecQuant, ProgressiveBlock, ProgressiveContextPdu,
    ProgressiveFrameBeginPdu, ProgressiveFrameEndPdu, ProgressiveRegion, ProgressiveSyncPdu,
    ProgressiveTile as StreamTile, TileSimple,
};
use ironrdp_pdu::codecs::rfx::RfxRectangle;
use web_rdp::canvas::{blit_all, custom_cursor_style, draw_all, Canvas, Painting};
use web_rdp::gfx::{blit_rects, BitmapUpdate, GfxCapability, ProgressiveTile, VideoCodec, WasmGfxHandler};
use web_rdp::pixels::{cut_out, fill, paste, ExclusiveRectangle, InclusiveRectangle, Point};

fn inclusive(left: u16, top: u16, right: u16, bottom: u16) -> InclusiveRectangle {
    InclusiveRectangle { left, top, right, bottom }
}

fn exclusive(left: u16, top: u16, right: u16, bottom: u16) -> ExclusiveRectangle {
    ExclusiveRectangle { left, top, right, bottom }
}

/// An image of `w` by `h` pixels; each pixel says where it is.
fn image(w: u16, h: u16) -> Vec<u8> {
    let mut out = Vec::new();
    for y in 0..h {
        for x in 0..w {
            out.extend_from_slice(&[x as u8, y as u8, 0, 255]);
        }
    }
    out
}

fn pixel(fb: &[u8], w: u16, x: u16, y: u16) -> [u8; 4] {
    let at = (y as usize * w as usize + x as usize) * 4;
    [fb[at], fb[at + 1], fb[at + 2], fb[at + 3]]
}

#[test]
fn a_cut_block_pasted_back_changes_nothing() {
    let mut fb = image(5, 4);
    let before = fb.clone();
    let block = cut_out(&fb, 5, 4, 1, 2, 3, 2);
    assert_eq!(&block[..4], &[1, 2, 0, 255]);
    paste(&mut fb, 5, 4, 1, 2, &block, 3, 2);
    assert_eq!(fb, before);
    paste(&mut fb, 5, 4, 0, 0, &block, 3, 2);
    assert_eq!(pixel(&fb, 5, 2, 1), [3, 3, 0, 255]);
    assert_eq!(pixel(&fb, 5, 3, 0), [3, 0, 0, 255]);
}

#[test]
fn a_block_that_hangs_over_is_clipped() {
    let mut fb = image(3, 3);
    paste(&mut fb, 3, 3, 2, 2, &[9; 16], 2, 2);
    assert_eq!(pixel(&fb, 3, 2, 2), [9; 4]);
    assert_eq!(pixel(&fb, 3, 1, 2), [1, 2, 0, 255]);
}

#[test]
fn a_rectangle_is_filled() {
    let mut fb = image(3, 3);
    fill(&mut fb, 3, 3, 1, 0, 3, 2, [7, 8, 9, 255]);
    assert_eq!(pixel(&fb, 3, 1, 0), [7, 8, 9, 255]);
    assert_eq!(pixel(&fb, 3, 2, 1), [7, 8, 9, 255]);
    assert_eq!(pixel(&fb, 3, 0, 0), [0, 0, 0, 255]);
    assert_eq!(pixel(&fb, 3, 1, 2), [1, 2, 0, 255]);
}

#[test]
fn a_canvas_shows_its_own_part() {
    let data = image(8, 4);
    let mut canvas = Canvas::new(4, 0, 4, 4);
    let p = canvas.draw(8, &data, inclusive(3, 1, 5, 2)).unwrap();
    assert_eq!((p.x, p.y, p.width, p.height), (0, 1, 2, 2));
    assert_eq!(p.rgba, vec![4, 1, 0, 255, 5, 1, 0, 255, 4, 2, 0, 255, 5, 2, 0, 255]);
    assert_eq!(canvas.draw(8, &data, inclusive(0, 0, 3, 3)), None);
}

#[test]
fn a_whole_image_is_shown_as_it_is() {
    let data = image(4, 3);
    let mut canvas = Canvas::new(0, 0, 4, 3);
    let p = canvas.draw(4, &data, inclusive(0, 0, 3, 2)).unwrap();
    assert_eq!(p, Painting { x: 0, y: 0, width: 4, height: 3, rgba: data });
}

#[test]
fn every_canvas_gets_its_share() {
    let data = image(4, 1);
    let mut canvases = vec![Canvas::new(0, 0, 2, 1), Canvas::new(2, 0, 2, 1), Canvas::new(9, 9, 1, 1)];
    let shares = draw_all(&mut canvases, 4, &data, inclusive(1, 0, 2, 0));
    assert_eq!(
        shares,
        vec![
            Some(Painting { x: 1, y: 0, width: 1, height: 1, rgba: vec![1, 0, 0, 255] }),
            Some(Painting { x: 0, y: 0, width: 1, height: 1, rgba: vec![2, 0, 0, 255] }),
            None,
        ]
    );
}

#[test]
fn a_surface_is_drawn_where_it_lies() {
    let fb = image(2, 2);
    let mut canvases = vec![Canvas::new(0, 0, 10, 10), Canvas::new(6, 5, 4, 4)];
    let shares = blit_all(&mut canvases, &fb, 2, 2, 5, 5, &vec![inclusive(5, 5, 6, 6), inclusive(0, 0, 4, 4)]);
    assert_eq!(
        shares,
        vec![
            (0, Painting { x: 5, y: 5, width: 2, height: 2, rgba: fb.clone() }),
            (1, Painting { x: 0, y: 0, width: 1, height: 2, rgba: vec![1, 0, 0, 255, 1, 1, 0, 255] }),
        ]
    );
}

#[test]
fn a_cursor_style_names_its_hot_spot() {
    assert_eq!(custom_cursor_style("data:image/png;base64,AA", 0, 1024), "url(data:image/png;base64,AA) 0 1024, auto");
}

fn handler(w: u16, h: u16) -> WasmGfxHandler {
    let mut gfx = WasmGfxHandler::new();
    gfx.on_surface_created(1, w, h);
    gfx
}

fn update(left: u16, top: u16, width: u16, height: u16, data: Vec<u8>) -> BitmapUpdate {
    BitmapUpdate { surface_id: 1, planar: false, left, top, width, height, data }
}

#[test]
fn the_pipeline_is_active_once_there_is_a_surface() {
    let mut gfx = WasmGfxHandler::new();
    assert!(!gfx.egfx_active);
    assert_eq!(gfx.capabilities(), vec![GfxCapability { version: 8, small_cache: true }]);
    gfx.on_surface_created(1, 2, 2);
    assert!(gfx.egfx_active);
    assert_eq!(gfx.gfx[&1].fb.len(), 16);
    gfx.on_surface_deleted(1);
    assert!(gfx.gfx.is_empty());
    assert!(gfx.egfx_active);
}

#[test]
fn a_surface_shows_nothing_before_it_is_mapped() {
    let mut gfx = handler(2, 2);
    assert_eq!(gfx.on_bitmap_updated(&update(0, 0, 1, 1, vec![1, 2, 3, 4])), vec![]);
    assert_eq!(pixel(&gfx.gfx[&1].fb, 2, 0, 0), [1, 2, 3, 4]);
    assert_eq!(gfx.on_surface_mapped(1, 10, 20), Some(vec![inclusive(10, 20, 11, 21)]));
    assert_eq!(gfx.on_bitmap_updated(&update(1, 0, 1, 1, vec![5, 6, 7, 8])), vec![inclusive(11, 20, 11, 20)]);
    assert_eq!(gfx.on_surface_mapped(9, 0, 0), None);
    assert_eq!(gfx.on_map_surface_to_scaled_output(1, 1, 2, 100, 100), Some(vec![inclusive(1, 2, 2, 3)]));
}

#[test]
fn updates_name_their_codec() {
    let mut gfx = handler(2, 2);
    gfx.on_bitmap_updated(&update(0, 0, 1, 1, vec![1, 2, 3, 4]));
    assert_eq!(gfx.video_codec, VideoCodec::Uncompressed);
    gfx.on_bitmap_updated(&BitmapUpdate { planar: true, ..update(0, 0, 1, 1, vec![1, 2, 3, 4]) });
    assert_eq!(gfx.video_codec, VideoCodec::Planar);
    assert_eq!(VideoCodec::Progressive.as_str(), "RFX-Progressive");
}

#[test]
fn tiles_are_painted_and_reported() {
    let mut gfx = handler(70, 64);
    gfx.on_surface_mapped(1, 0, 0);
    let tile = ProgressiveTile {
        x_idx: 1,
        y_idx: 0,
        pixels: image(64, 64),
        update_rectangles: vec![exclusive(64, 0, 66, 1), exclusive(67, 5, 70, 64)],
    };
    let changed = vec![inclusive(64, 0, 65, 0), inclusive(67, 5, 69, 63)];
    assert_eq!(gfx.on_progressive_tiles(1, Some(vec![tile])), changed);
    assert_eq!(pixel(&gfx.gfx[&1].fb, 70, 65, 0), [1, 0, 0, 255]);
    assert_eq!(pixel(&gfx.gfx[&1].fb, 70, 69, 63), [5, 63, 0, 255]);
    // The tile is seen in its rectangles only.
    assert_eq!(pixel(&gfx.gfx[&1].fb, 70, 66, 0), [0; 4]);
    assert_eq!(pixel(&gfx.gfx[&1].fb, 70, 64, 1), [0; 4]);
    assert_eq!(gfx.on_progressive_tiles(1, None), vec![]);
    assert_eq!(gfx.video_codec, VideoCodec::Progressive);
}

/// A progressive stream of one grey tile, to be seen in one rectangle.
fn grey_tile(x_idx: u16, y_idx: u16, seen: RfxRectangle) -> Vec<u8> {
    let lossless = ComponentCodecQuant::LOSSLESS;
    let mut plane = vec![0i16; 64 * 64];
    let mut encoded = vec![0u8; 8192];
    let len = encode_first_pass(&mut plane, &mut encoded, &lossless, &lossless, false).unwrap();
    let data = &encoded[..len];
    let tile = TileSimple {
        quant_idx_y: 0,
        quant_idx_cb: 0,
        quant_idx_cr: 0,
        x_idx,
        y_idx,
        flags: 0,
        y_data: data,
        cb_data: data,
        cr_data: data,
        tail_data: &[],
    };
    let region = ProgressiveRegion {
        tile_size: 64,
        rects: vec![seen],
        quant_vals: vec![lossless],
        quant_prog_vals: vec![],
        flags: 0,
        tiles: vec![StreamTile::Simple(tile)],
    };
    encode_progressive_stream(&[
        ProgressiveBlock::Sync(ProgressiveSyncPdu),
        ProgressiveBlock::Context(ProgressiveContextPdu { context_id: 0, tile_size: 64, flags: 0 }),
        ProgressiveBlock::FrameBegin(ProgressiveFrameBeginPdu { frame_index: 0, region_count: 1 }),
        ProgressiveBlock::Region(region),
        ProgressiveBlock::FrameEnd(ProgressiveFrameEndPdu),
    ])
    .unwrap()
}

#[test]
fn a_progressive_stream_is_decoded_and_painted() {
    let mut gfx = handler(100, 70);
    gfx.on_surface_mapped(1, 10, 20);
    let whole = || RfxRectangle { x: 0, y: 0, width: 200, height: 200 };
    assert_eq!(gfx.on_progressive_data(1, &grey_tile(1, 0, whole())), vec![inclusive(74, 20, 109, 83)]);
    assert_eq!(pixel(&gfx.gfx[&1].fb, 100, 64, 0), [128, 128, 128, 255]);
    assert_eq!(pixel(&gfx.gfx[&1].fb, 100, 99, 63), [128, 128, 128, 255]);
    assert_eq!(pixel(&gfx.gfx[&1].fb, 100, 63, 0), [0; 4]);
    assert_eq!(pixel(&gfx.gfx[&1].fb, 100, 64, 64), [0; 4]);
    assert_eq!(gfx.video_codec, VideoCodec::Progressive);
    // A tile outside the surface is an error: nothing is painted.
    assert_eq!(gfx.on_progressive_data(1, &grey_tile(2, 0, whole())), vec![]);
    // A tile is painted only where the stream wants it seen.
    let part = RfxRectangle { x: 60, y: 60, width: 2, height: 9 };
    assert_eq!(gfx.on_progressive_data(1, &grey_tile(0, 0, part)), vec![inclusive(70, 80, 71, 83)]);
    assert_eq!(pixel(&gfx.gfx[&1].fb, 100, 61, 63), [128, 128, 128, 255]);
    assert_eq!(pixel(&gfx.gfx[&1].fb, 100, 59, 63), [0; 4]);
}

#[test]
fn bytes_that_are_no_progressive_stream_paint_nothing() {
    let mut gfx = handler(64, 64);
    gfx.on_surface_mapped(1, 0, 0);
    let before = gfx.gfx[&1].fb.clone();
    assert_eq!(gfx.on_progressive_data(1, &[1, 2, 3]), vec![]);
    assert_eq!(gfx.gfx[&1].fb, before);
    assert_eq!(gfx.on_progressive_data(5, &[1, 2, 3]), vec![]);
}

#[test]
fn rectangles_are_filled_and_reported() {
    let mut gfx = handler(4, 4);
    gfx.on_surface_mapped(1, 100, 0);
    let rects = [exclusive(1, 1, 3, 2), exclusive(2, 2, 2, 9)];
    assert_eq!(gfx.on_solid_fill(1, 7, 8, 9, &rects), vec![inclusive(101, 1, 102, 1)]);
    assert_eq!(pixel(&gfx.gfx[&1].fb, 4, 1, 1), [7, 8, 9, 255]);
}

#[test]
fn a_part_of_a_surface_is_copied() {
    let mut gfx = handler(2, 2);
    gfx.on_surface_created(2, 2, 2);
    gfx.on_surface_mapped(2, 0, 0);
    gfx.on_bitmap_updated(&update(0, 0, 2, 2, image(2, 2)));
    let regions = gfx.on_surface_to_surface(1, 2, exclusive(1, 1, 2, 2), &[Point { x: 0, y: 1 }]);
    assert_eq!(regions, vec![inclusive(0, 1, 0, 1)]);
    assert_eq!(pixel(&gfx.gfx[&2].fb, 2, 0, 1), [1, 1, 0, 255]);
    assert_eq!(gfx.on_surface_to_surface(1, 9, exclusive(0, 0, 1, 1), &[Point { x: 0, y: 0 }]), vec![]);
}

#[test]
fn the_cache_gives_back_what_it_took() {
    let mut gfx = handler(3, 1);
    gfx.on_surface_mapped(1, 0, 0);
    gfx.on_bitmap_updated(&update(0, 0, 3, 1, image(3, 1)));
    gfx.on_surface_to_cache(1, 7, exclusive(2, 0, 3, 1));
    gfx.on_solid_fill(1, 0, 0, 0, &[exclusive(0, 0, 3, 1)]);
    let regions = gfx.on_cache_to_surface(7, 1, &[Point { x: 0, y: 0 }, Point { x: 2, y: 0 }]);
    assert_eq!(regions, vec![inclusive(0, 0, 0, 0), inclusive(2, 0, 2, 0)]);
    assert_eq!(pixel(&gfx.gfx[&1].fb, 3, 0, 0), [2, 0, 0, 255]);
    assert_eq!(pixel(&gfx.gfx[&1].fb, 3, 1, 0), [0, 0, 0, 255]);
    assert_eq!(pixel(&gfx.gfx[&1].fb, 3, 2, 0), [2, 0, 0, 255]);
    gfx.on_evict_cache_entry(7);
    assert_eq!(gfx.on_cache_to_surface(7, 1, &[Point { x: 0, y: 0 }]), vec![]);
}

#[test]
fn a_reset_forgets_the_surfaces() {
    let mut gfx = handler(2, 2);
    gfx.on_surface_to_cache(1, 3, exclusive(0, 0, 1, 1));
    gfx.on_reset_graphics();
    assert!(gfx.gfx.is_empty());
}

#[test]
fn rectangles_move_with_their_surface() {
    assert_eq!(
        blit_rects(10, 65530, &vec![inclusive(1, 2, 3, 9)]),
        vec![inclusive(11, 65532, 13, 65535)]
    );
}
