//! The graphics pipeline: surfaces that the server paints, copies and maps to the
//! desktop, and the bitmap cache.
//!
//! The server composes in surfaces, some of them off screen, saves regions in cache
//! slots and restores them. Each operation gives the regions of the desktop to be
//! presented; a surface that is not mapped presents nothing.

use std::collections::HashMap;

use ironrdp_graphics::progressive::ProgressiveDecoder;
use vstd::prelude::*;

use crate::pixels::{
    cut, cut_out, fill, filled, min, paste, pasted, ExclusiveRectangle, InclusiveRectangle, Point,
};

verus! {

broadcast use vstd::std_specs::hash::group_hash_axioms;

/// The width and height of a tile of the progressive codec.
pub const TILE_SIZE: u16 = 64;

/// Which codec is painting.
#[derive(Debug, Clone, Copy, PartialEq, Eq)]
pub enum VideoCodec {
    Rfx,
    Progressive,
    Planar,
    Uncompressed,
}

/// The name of a codec.
pub open spec fn codec_name(codec: VideoCodec) -> Seq<char> {
    match codec {
        VideoCodec::Rfx => "RFX"@,
        VideoCodec::Progressive => "RFX-Progressive"@,
        VideoCodec::Planar => "Planar"@,
        VideoCodec::Uncompressed => "Uncompressed"@,
    }
}

impl VideoCodec {
    pub fn as_str(self) -> (name: &'static str)
        ensures
            name@ == codec_name(self),
    {
        match self {
            VideoCodec::Rfx => "RFX",
            VideoCodec::Progressive => "RFX-Progressive",
            VideoCodec::Planar => "Planar",
            VideoCodec::Uncompressed => "Uncompressed",
        }
    }
}

/// What the client says it can do: version 8 of the pipeline, which leaves the
/// video codecs out, with a small cache.
#[derive(Debug, Clone, Copy, PartialEq, Eq)]
pub struct GfxCapability {
    pub version: u32,
    pub small_cache: bool,
}

#[verifier::external_type_specification]
#[verifier::external_body]
pub struct ExProgressiveDecoder(ProgressiveDecoder);

/// One surface.
pub struct GfxSurface {
    pub decoder: ProgressiveDecoder,
    /// RGBA, `width * height * 4` bytes.
    pub fb: Vec<u8>,
    pub width: u16,
    pub height: u16,
    /// Where the surface lies on the desktop.
    pub origin_x: u16,
    pub origin_y: u16,
    /// Whether the surface is on the desktop at all.
    pub mapped: bool,
}

/// The mathematical value of a [`GfxSurface`].
pub struct SurfaceView {
    /// What the decoder has been given: a size and data, for each time.
    pub fed: Seq<(u16, u16, Seq<u8>)>,
    pub fb: Seq<u8>,
    pub width: u16,
    pub height: u16,
    pub origin_x: u16,
    pub origin_y: u16,
    pub mapped: bool,
}

impl View for GfxSurface {
    type V = SurfaceView;

    open spec fn view(&self) -> SurfaceView {
        SurfaceView {
            fed: fed(self.decoder),
            fb: self.fb@,
            width: self.width,
            height: self.height,
            origin_x: self.origin_x,
            origin_y: self.origin_y,
            mapped: self.mapped,
        }
    }
}

impl SurfaceView {
    /// A surface holds four bytes for each of its pixels.
    pub open spec fn whole(self) -> bool {
        self.fb.len() == self.width * self.height * 4
    }

    pub open spec fn with_fb(self, fb: Seq<u8>) -> SurfaceView {
        SurfaceView { fb, ..self }
    }
}

/// One slot of the bitmap cache.
pub struct CacheSlot {
    pub width: u16,
    pub height: u16,
    /// RGBA, `width * height * 4` bytes.
    pub data: Vec<u8>,
}

/// The mathematical value of a [`CacheSlot`].
pub struct SlotView {
    pub width: u16,
    pub height: u16,
    pub data: Seq<u8>,
}

impl View for CacheSlot {
    type V = SlotView;

    open spec fn view(&self) -> SlotView {
        SlotView { width: self.width, height: self.height, data: self.data@ }
    }
}

impl SlotView {
    /// A slot holds four bytes for each of its pixels, and at least one pixel.
    pub open spec fn whole(self) -> bool {
        &&& self.data.len() == self.width * self.height * 4
        &&& 0 < self.width
        &&& 0 < self.height
    }
}

/// A painted rectangle: a decoded bitmap and where it goes.
pub struct BitmapUpdate {
    pub surface_id: u16,
    /// Whether it came in the planar codec.
    pub planar: bool,
    pub left: u16,
    pub top: u16,
    pub width: u16,
    pub height: u16,
    pub data: Vec<u8>,
}

/// A decoded tile of the progressive codec, by its place in the tile grid.
pub struct ProgressiveTile {
    pub x_idx: u16,
    pub y_idx: u16,
    /// RGBA, 64 by 64 pixels.
    pub pixels: Vec<u8>,
    /// The rectangles of the surface in which the tile is to be seen.
    pub update_rectangles: Vec<ExclusiveRectangle>,
}

/// The mathematical value of a [`ProgressiveTile`].
pub struct TileView {
    pub x_idx: u16,
    pub y_idx: u16,
    pub pixels: Seq<u8>,
    pub update_rectangles: Seq<ExclusiveRectangle>,
}

impl View for ProgressiveTile {
    type V = TileView;

    open spec fn view(&self) -> TileView {
        TileView {
            x_idx: self.x_idx,
            y_idx: self.y_idx,
            pixels: self.pixels@,
            update_rectangles: self.update_rectangles@,
        }
    }
}

/// The mathematical values of a run of tiles.
pub open spec fn tile_views(tiles: Seq<ProgressiveTile>) -> Seq<TileView> {
    tiles.map_values(|tile: ProgressiveTile| tile@)
}

/// The client's side of the graphics pipeline.
pub struct WasmGfxHandler {
    pub gfx: HashMap<u16, GfxSurface>,
    pub cache: HashMap<u16, CacheSlot>,
    /// Set once a surface exists: the pipeline paints, and nothing else may.
    pub egfx_active: bool,
    pub video_codec: VideoCodec,
}

/// The mathematical value of a [`WasmGfxHandler`].
pub struct GfxView {
    pub surfaces: Map<u16, SurfaceView>,
    pub slots: Map<u16, SlotView>,
    pub egfx_active: bool,
    pub video_codec: VideoCodec,
}

impl View for WasmGfxHandler {
    type V = GfxView;

    open spec fn view(&self) -> GfxView {
        GfxView {
            surfaces: self.gfx@.map_values(|surface: GfxSurface| surface@),
            slots: self.cache@.map_values(|slot: CacheSlot| slot@),
            egfx_active: self.egfx_active,
            video_codec: self.video_codec,
        }
    }
}

impl GfxView {
    /// Every surface and every slot is whole.
    pub open spec fn valid(self) -> bool {
        &&& forall|id: u16| #[trigger] self.surfaces.contains_key(id) ==> self.surfaces[id].whole()
        &&& forall|slot: u16| #[trigger] self.slots.contains_key(slot) ==> self.slots[slot].whole()
    }

    pub open spec fn with_surface(self, id: u16, surface: SurfaceView) -> GfxView {
        GfxView { surfaces: self.surfaces.insert(id, surface), ..self }
    }

    pub open spec fn with_slot(self, slot: u16, value: SlotView) -> GfxView {
        GfxView { slots: self.slots.insert(slot, value), ..self }
    }

    pub open spec fn with_codec(self, codec: VideoCodec) -> GfxView {
        GfxView { video_codec: codec, ..self }
    }
}

// ---------------------------------------------------------------------------
// What the operations do
// ---------------------------------------------------------------------------
pub open spec fn saturated(a: int) -> u16 {
    if a > 0xFFFF {
        0xFFFF
    } else {
        a as u16
    }
}

/// A rectangle of a surface, on the desktop.
pub open spec fn on_desktop(r: InclusiveRectangle, ox: u16, oy: u16) -> InclusiveRectangle {
    InclusiveRectangle {
        left: saturated(r.left + ox),
        top: saturated(r.top + oy),
        right: saturated(r.right + ox),
        bottom: saturated(r.bottom + oy),
    }
}

/// Rectangles of a surface, on the desktop.
pub open spec fn all_on_desktop(rects: Seq<InclusiveRectangle>, ox: u16, oy: u16) -> Seq<InclusiveRectangle> {
    rects.map_values(|r: InclusiveRectangle| on_desktop(r, ox, oy))
}

/// What is presented of changed rectangles of a surface: nothing unless it is mapped.
pub open spec fn presented(surface: SurfaceView, rects: Seq<InclusiveRectangle>) -> Seq<InclusiveRectangle> {
    if surface.mapped {
        all_on_desktop(rects, surface.origin_x, surface.origin_y)
    } else {
        Seq::empty()
    }
}

/// The last pixel of a range that ends at `end` or at the edge.
pub open spec fn last_before(end: int, edge: int) -> u16 {
    if min(end, edge) > 0 {
        (min(end, edge) - 1) as u16
    } else {
        0
    }
}

/// The whole of a surface.
pub open spec fn whole_rect(surface: SurfaceView) -> InclusiveRectangle {
    InclusiveRectangle {
        left: 0,
        top: 0,
        right: last_before(surface.width as int, surface.width as int),
        bottom: last_before(surface.height as int, surface.height as int),
    }
}

/// The part of an exclusive rectangle that lies on a bitmap of `w` by `h` pixels,
/// as `(x0, y0, x1, y1)`.
pub open spec fn clipped(r: ExclusiveRectangle, w: int, h: int) -> (int, int, int, int) {
    (min(r.left as int, w), min(r.top as int, h), min(r.right as int, w), min(r.bottom as int, h))
}

/// Whether any of an exclusive rectangle lies on the bitmap.
pub open spec fn touches(r: ExclusiveRectangle, w: int, h: int) -> bool {
    let (x0, y0, x1, y1) = clipped(r, w, h);
    x0 < x1 && y0 < y1
}

/// A surface's pixels with rectangles filled, one after the other.
pub open spec fn fill_all(fb: Seq<u8>, w: int, h: int, rects: Seq<ExclusiveRectangle>, rgba: Seq<u8>) -> Seq<u8>
    decreases rects.len(),
{
    if rects.len() == 0 {
        fb
    } else {
        let before = fill_all(fb, w, h, rects.drop_last(), rgba);
        let (x0, y0, x1, y1) = clipped(rects.last(), w, h);
        if touches(rects.last(), w, h) {
            filled(before, w, x0, y0, x1, y1, rgba)
        } else {
            before
        }
    }
}

/// The rectangles that filling changes.
pub open spec fn fill_dirty(w: int, h: int, rects: Seq<ExclusiveRectangle>) -> Seq<InclusiveRectangle>
    decreases rects.len(),
{
    if rects.len() == 0 {
        Seq::empty()
    } else {
        let before = fill_dirty(w, h, rects.drop_last());
        let (x0, y0, x1, y1) = clipped(rects.last(), w, h);
        if touches(rects.last(), w, h) {
            before.push(
                InclusiveRectangle {
                    left: x0 as u16,
                    top: y0 as u16,
                    right: (x1 - 1) as u16,
                    bottom: (y1 - 1) as u16,
                },
            )
        } else {
            before
        }
    }
}

/// A surface's pixels with a block pasted at points, one after the other.
pub open spec fn paste_all(fb: Seq<u8>, w: int, points: Seq<Point>, block: Seq<u8>, bw: int, bh: int) -> Seq<u8>
    decreases points.len(),
{
    if points.len() == 0 {
        fb
    } else {
        let p = points.last();
        pasted(paste_all(fb, w, points.drop_last(), block, bw, bh), w, p.x as int, p.y as int, block, bw, bh)
    }
}

/// The rectangles that pasting changes: of each point the part of the block that
/// lies on the surface, if any does.
pub open spec fn paste_dirty(w: int, h: int, points: Seq<Point>, bw: int, bh: int) -> Seq<InclusiveRectangle>
    decreases points.len(),
{
    if points.len() == 0 {
        Seq::empty()
    } else {
        let before = paste_dirty(w, h, points.drop_last(), bw, bh);
        let p = points.last();
        if p.x < w && p.y < h && 0 < bw && 0 < bh {
            before.push(
                InclusiveRectangle {
                    left: p.x,
                    top: p.y,
                    right: last_before(p.x + bw, w),
                    bottom: last_before(p.y + bh, h),
                },
            )
        } else {
            before
        }
    }
}

/// Painting a decoded bitmap.
pub open spec fn bitmap_step(m: GfxView, update: BitmapUpdate) -> (GfxView, Seq<InclusiveRectangle>) {
    if m.surfaces.contains_key(update.surface_id) {
        let s = m.surfaces[update.surface_id];
        let fb = pasted(
            s.fb,
            s.width as int,
            update.left as int,
            update.top as int,
            update.data@,
            update.width as int,
            update.height as int,
        );
        let dirty = InclusiveRectangle {
            left: update.left,
            top: update.top,
            right: last_before(update.left + update.width, s.width as int),
            bottom: last_before(update.top + update.height, s.height as int),
        };
        (
            m.with_surface(update.surface_id, s.with_fb(fb)).with_codec(
                if update.planar {
                    VideoCodec::Planar
                } else {
                    VideoCodec::Uncompressed
                },
            ),
            presented(s, seq![dirty]),
        )
    } else {
        (m, Seq::empty())
    }
}

/// Filling rectangles with one opaque colour.
pub open spec fn fill_step(
    m: GfxView,
    id: u16,
    r: u8,
    g: u8,
    b: u8,
    rects: Seq<ExclusiveRectangle>,
) -> (GfxView, Seq<InclusiveRectangle>) {
    if m.surfaces.contains_key(id) {
        let s = m.surfaces[id];
        let fb = fill_all(s.fb, s.width as int, s.height as int, rects, seq![r, g, b, 0xFFu8]);
        (m.with_surface(id, s.with_fb(fb)), presented(s, fill_dirty(s.width as int, s.height as int, rects)))
    } else {
        (m, Seq::empty())
    }
}

/// Pasting a block on a surface.
pub open spec fn block_step(m: GfxView, id: u16, points: Seq<Point>, block: SlotView) -> (
    GfxView,
    Seq<InclusiveRectangle>,
) {
    if m.surfaces.contains_key(id) {
        let s = m.surfaces[id];
        let fb = paste_all(s.fb, s.width as int, points, block.data, block.width as int, block.height as int);
        (
            m.with_surface(id, s.with_fb(fb)),
            presented(
                s,
                paste_dirty(s.width as int, s.height as int, points, block.width as int, block.height as int),
            ),
        )
    } else {
        (m, Seq::empty())
    }
}

/// The part of an exclusive rectangle that lies on a surface, cut out; `None` where
/// none does.
pub open spec fn cut_of(s: SurfaceView, rect: ExclusiveRectangle) -> Option<SlotView> {
    let (x0, y0, x1, y1) = clipped(rect, s.width as int, s.height as int);
    if touches(rect, s.width as int, s.height as int) {
        Some(
            SlotView {
                width: (x1 - x0) as u16,
                height: (y1 - y0) as u16,
                data: cut(s.fb, s.width as int, x0, y0, x1 - x0, y1 - y0),
            },
        )
    } else {
        None
    }
}

/// Copying a rectangle of one surface to points of another or of itself. The
/// rectangle is read before anything is written.
pub open spec fn copy_step(
    m: GfxView,
    source_id: u16,
    destination_id: u16,
    rect: ExclusiveRectangle,
    points: Seq<Point>,
) -> (GfxView, Seq<InclusiveRectangle>) {
    if m.surfaces.contains_key(source_id) && cut_of(m.surfaces[source_id], rect) is Some {
        block_step(m, destination_id, points, cut_of(m.surfaces[source_id], rect)->0)
    } else {
        (m, Seq::empty())
    }
}

/// Saving a rectangle of a surface in a slot.
pub open spec fn save_step(m: GfxView, id: u16, slot: u16, rect: ExclusiveRectangle) -> GfxView {
    if m.surfaces.contains_key(id) && cut_of(m.surfaces[id], rect) is Some {
        m.with_slot(slot, cut_of(m.surfaces[id], rect)->0)
    } else {
        m
    }
}

/// Restoring a slot at points of a surface.
pub open spec fn restore_step(m: GfxView, slot: u16, id: u16, points: Seq<Point>) -> (
    GfxView,
    Seq<InclusiveRectangle>,
) {
    if m.slots.contains_key(slot) {
        block_step(m, id, points, m.slots[slot])
    } else {
        (m, Seq::empty())
    }
}

/// Whether a rectangle lies, with at least one pixel, both on a surface of `w` by `h`
/// pixels and on a tile of it.
pub open spec fn on_tile(w: u16, h: u16, tile: TileView, r: ExclusiveRectangle) -> bool {
    &&& tile.x_idx * TILE_SIZE <= r.left < r.right <= min(tile.x_idx * TILE_SIZE + TILE_SIZE, w as int)
    &&& tile.y_idx * TILE_SIZE <= r.top < r.bottom <= min(tile.y_idx * TILE_SIZE + TILE_SIZE, h as int)
}

/// Whether a decoded tile belongs to a surface of `w` by `h` pixels: it begins on the
/// surface, holds all of its pixels, and is to be seen on its own place only.
pub open spec fn tile_fits(w: u16, h: u16, tile: TileView) -> bool {
    &&& tile.x_idx * TILE_SIZE < w
    &&& tile.y_idx * TILE_SIZE < h
    &&& tile.pixels.len() == TILE_SIZE * TILE_SIZE * 4
    &&& forall|j: int|
        0 <= j < tile.update_rectangles.len() ==> on_tile(w, h, tile, #[trigger] tile.update_rectangles[j])
}

/// Whether decoded tiles belong to a surface.
pub open spec fn tiles_fit(s: SurfaceView, tiles: Seq<TileView>) -> bool {
    forall|i: int| 0 <= i < tiles.len() ==> tile_fits(s.width, s.height, #[trigger] tiles[i])
}

/// A surface's pixels with rectangles of a tile painted, one after the other: each is cut
/// out of the tile and pasted where it lies on the surface.
pub open spec fn rects_of_tile(fb: Seq<u8>, w: int, tile: TileView, rects: Seq<ExclusiveRectangle>) -> Seq<u8>
    decreases rects.len(),
{
    if rects.len() == 0 {
        fb
    } else {
        let r = rects.last();
        let bw = r.right - r.left;
        let bh = r.bottom - r.top;
        pasted(
            rects_of_tile(fb, w, tile, rects.drop_last()),
            w,
            r.left as int,
            r.top as int,
            cut(
                tile.pixels,
                TILE_SIZE as int,
                r.left - tile.x_idx * TILE_SIZE,
                r.top - tile.y_idx * TILE_SIZE,
                bw,
                bh,
            ),
            bw,
            bh,
        )
    }
}

/// A surface's pixels with decoded tiles painted, one after the other.
pub open spec fn tile_all(fb: Seq<u8>, w: int, tiles: Seq<TileView>) -> Seq<u8>
    decreases tiles.len(),
{
    if tiles.len() == 0 {
        fb
    } else {
        let t = tiles.last();
        rects_of_tile(tile_all(fb, w, tiles.drop_last()), w, t, t.update_rectangles)
    }
}

/// A rectangle that is not empty, with inclusive edges.
pub open spec fn inclusive(r: ExclusiveRectangle) -> InclusiveRectangle {
    InclusiveRectangle { left: r.left, top: r.top, right: (r.right - 1) as u16, bottom: (r.bottom - 1) as u16 }
}

/// The rectangles that painting tiles changes.
pub open spec fn tile_dirty(tiles: Seq<TileView>) -> Seq<InclusiveRectangle>
    decreases tiles.len(),
{
    if tiles.len() == 0 {
        Seq::empty()
    } else {
        tile_dirty(tiles.drop_last()) + tiles.last().update_rectangles.map_values(
            |r: ExclusiveRectangle| inclusive(r),
        )
    }
}

/// Painting decoded tiles; `None` stands for data that could not be decoded.
pub open spec fn tiles_step(m: GfxView, id: u16, tiles: Option<Seq<TileView>>) -> (
    GfxView,
    Seq<InclusiveRectangle>,
) {
    if m.surfaces.contains_key(id) && tiles is Some {
        let s = m.surfaces[id];
        let fb = tile_all(s.fb, s.width as int, tiles->0);
        (
            m.with_surface(id, s.with_fb(fb)).with_codec(VideoCodec::Progressive),
            presented(s, tile_dirty(tiles->0)),
        )
    } else {
        (m, Seq::empty())
    }
}

// ---------------------------------------------------------------------------
// The outside decoder
// ---------------------------------------------------------------------------
/// What an `ironrdp_graphics::progressive::ProgressiveDecoder` has been given to decode:
/// a size and data, for each time. Its state is made of nothing else.
pub uninterp spec fn fed(decoder: ProgressiveDecoder) -> Seq<(u16, u16, Seq<u8>)>;

/// The tiles that the decoder makes of data, after what it has been given before; `None`
/// where it gives an error.
pub uninterp spec fn progressive_tiles(
    before: Seq<(u16, u16, Seq<u8>)>,
    width: u16,
    height: u16,
    data: Seq<u8>,
) -> Option<Seq<TileView>>;

/// Tiles, as values.
pub open spec fn opt_tile_views(tiles: Option<Vec<ProgressiveTile>>) -> Option<Seq<TileView>> {
    match tiles {
        Some(list) => Some(tile_views(list@)),
        None => None,
    }
}

/// `ironrdp_graphics::progressive::ProgressiveDecoder::new`: a decoder that has been
/// given nothing.
#[verifier::external_body]
fn new_decoder() -> (decoder: ProgressiveDecoder)
    ensures
        fed(decoder) == Seq::<(u16, u16, Seq<u8>)>::empty(),
{
    ProgressiveDecoder::new()
}

/// `ironrdp_graphics::progressive::ProgressiveDecoder::decode_bitmap` for the one surface
/// of a decoder; `None` where it gives an error. Claimed: the tiles depend on the arguments
/// and on what the decoder has been given before, and go by the name [`progressive_tiles`];
/// every tile lies in the surface's tile grid (the decoder refuses others), holds 64 by 64
/// RGBA pixels, and each of its update rectangles has a pixel and is clipped to the tile and
/// to the surface.
#[verifier::external_body]
fn decode_tiles(decoder: &mut ProgressiveDecoder, width: u16, height: u16, data: &[u8]) -> (tiles: Option<
    Vec<ProgressiveTile>,
>)
    ensures
        fed(*final(decoder)) == fed(*old(decoder)).push((width, height, data@)),
        opt_tile_views(tiles) == progressive_tiles(fed(*old(decoder)), width, height, data@),
        tiles matches Some(list) ==> forall|i: int|
            0 <= i < list@.len() ==> tile_fits(width, height, (#[trigger] list@[i])@),
{
    let tiles = decoder.decode_bitmap(0, 0, width, height, data).ok()?;
    Some(tiles.into_iter().map(|t| ProgressiveTile {
        x_idx: t.x_idx,
        y_idx: t.y_idx,
        pixels: t.pixels,
        update_rectangles: t.update_rectangles.into_iter().map(|r| ExclusiveRectangle {
            left: r.left,
            top: r.top,
            right: r.right,
            bottom: r.bottom,
        }).collect(),
    }).collect())
}

/// Decoding data for a surface and painting what comes of it.
pub open spec fn progressive_step(m: GfxView, id: u16, data: Seq<u8>) -> (GfxView, Seq<InclusiveRectangle>) {
    if m.surfaces.contains_key(id) {
        let s = m.surfaces[id];
        let given = SurfaceView { fed: s.fed.push((s.width, s.height, data)), ..s };
        tiles_step(m.with_surface(id, given), id, progressive_tiles(s.fed, s.width, s.height, data))
    } else {
        (m, Seq::empty())
    }
}

// ---------------------------------------------------------------------------
// The operations
// ---------------------------------------------------------------------------
/// Moves rectangles of a surface to the surface's place on the desktop.
pub fn blit_rects(ox: u16, oy: u16, rects: &Vec<InclusiveRectangle>) -> (regions: Vec<InclusiveRectangle>)
    ensures
        regions@ == all_on_desktop(rects@, ox, oy),
{
    let mut regions: Vec<InclusiveRectangle> = Vec::with_capacity(rects.len());
    let mut i: usize = 0;
    while i < rects.len()
        invariant
            i <= rects@.len(),
            regions@ == all_on_desktop(rects@, ox, oy).take(i as int),
        decreases rects@.len() - i,
    {
        let r: InclusiveRectangle = rects[i];
        regions.push(
            InclusiveRectangle {
                left: r.left.saturating_add(ox),
                top: r.top.saturating_add(oy),
                right: r.right.saturating_add(ox),
                bottom: r.bottom.saturating_add(oy),
            },
        );
        assert(regions@ =~= all_on_desktop(rects@, ox, oy).take(i + 1));
        i = i + 1;
    }
    assert(regions@ =~= all_on_desktop(rects@, ox, oy));
    regions
}

fn present(surface: &GfxSurface, rects: &Vec<InclusiveRectangle>) -> (regions: Vec<InclusiveRectangle>)
    ensures
        regions@ == presented(surface@, rects@),
{
    if surface.mapped {
        blit_rects(surface.origin_x, surface.origin_y, rects)
    } else {
        let regions: Vec<InclusiveRectangle> = Vec::new();
        assert(regions@ =~= Seq::<InclusiveRectangle>::empty());
        regions
    }
}

fn end_before(start: u16, len: u16, edge: u16) -> (last: u16)
    ensures
        last == last_before(start + len, edge as int),
{
    let end: u32 = start as u32 + len as u32;
    if end < edge as u32 {
        if end > 0 {
            (end - 1) as u16
        } else {
            0
        }
    } else {
        edge.saturating_sub(1)
    }
}

fn lesser(a: u16, b: u16) -> (m: u16)
    ensures
        m == min(a as int, b as int),
{
    if a < b {
        a
    } else {
        b
    }
}

fn no_regions() -> (regions: Vec<InclusiveRectangle>)
    ensures
        regions@ == Seq::<InclusiveRectangle>::empty(),
{
    Vec::new()
}

/// Cuts the part of a rectangle that lies on a surface.
fn cut_block(s: &GfxSurface, rect: ExclusiveRectangle) -> (block: Option<CacheSlot>)
    requires
        s@.whole(),
    ensures
        match block {
            Some(b) => cut_of(s@, rect) == Some(b@) && b@.whole(),
            None => cut_of(s@, rect) is None,
        },
{
    let x0: u16 = lesser(rect.left, s.width);
    let y0: u16 = lesser(rect.top, s.height);
    let x1: u16 = lesser(rect.right, s.width);
    let y1: u16 = lesser(rect.bottom, s.height);
    if x1 <= x0 || y1 <= y0 {
        return None;
    }
    let width: u16 = x1 - x0;
    let height: u16 = y1 - y0;
    let data = cut_out(&s.fb, s.width, s.height, x0, y0, width, height);
    Some(CacheSlot { width, height, data })
}

/// Pastes a block at points and gives the rectangles that changed.
fn paste_block(s: &mut GfxSurface, points: &[Point], block: &CacheSlot) -> (dirty: Vec<InclusiveRectangle>)
    requires
        old(s)@.whole(),
    ensures
        final(s)@ == old(s)@.with_fb(
            paste_all(
                old(s)@.fb,
                old(s)@.width as int,
                points@,
                block@.data,
                block@.width as int,
                block@.height as int,
            ),
        ),
        final(s)@.whole(),
        dirty@ == paste_dirty(
            old(s)@.width as int,
            old(s)@.height as int,
            points@,
            block@.width as int,
            block@.height as int,
        ),
{
    let ghost s0 = s@;
    let ghost (bw, bh) = (block.width as int, block.height as int);
    let mut dirty: Vec<InclusiveRectangle> = Vec::new();
    let mut i: usize = 0;
    assert(points@.take(0) =~= Seq::<Point>::empty());
    while i < points.len()
        invariant
            i <= points@.len(),
            s0.whole(),
            (bw, bh) == (block.width as int, block.height as int),
            s@ == s0.with_fb(paste_all(s0.fb, s0.width as int, points@.take(i as int), block.data@, bw, bh)),
            s@.whole(),
            dirty@ == paste_dirty(s0.width as int, s0.height as int, points@.take(i as int), bw, bh),
        decreases points@.len() - i,
    {
        let p: Point = points[i];
        proof {
            assert(points@.take(i + 1).drop_last() =~= points@.take(i as int));
            assert(points@.take(i + 1).last() == p);
        }
        paste(&mut s.fb, s.width, s.height, p.x, p.y, block.data.as_slice(), block.width, block.height);
        if p.x < s.width && p.y < s.height && block.width > 0 && block.height > 0 {
            dirty.push(
                InclusiveRectangle {
                    left: p.x,
                    top: p.y,
                    right: end_before(p.x, block.width, s.width),
                    bottom: end_before(p.y, block.height, s.height),
                },
            );
        }
        i = i + 1;
    }
    assert(points@.take(i as int) =~= points@);
    dirty
}

/// Putting a surface back is inserting its value.
proof fn lemma_put_surface(before: Map<u16, GfxSurface>, id: u16, s: GfxSurface)
    ensures
        before.remove(id).insert(id, s).map_values(|surface: GfxSurface| surface@) == before.map_values(
            |surface: GfxSurface| surface@,
        ).insert(id, s@),
        before.insert(id, s).map_values(|surface: GfxSurface| surface@) == before.map_values(
            |surface: GfxSurface| surface@,
        ).insert(id, s@),
        before.remove(id).map_values(|surface: GfxSurface| surface@) == before.map_values(
            |surface: GfxSurface| surface@,
        ).remove(id),
{
    let f = |surface: GfxSurface| surface@;
    assert(before.remove(id).insert(id, s).map_values(f) =~= before.map_values(f).insert(id, s@));
    assert(before.insert(id, s).map_values(f) =~= before.map_values(f).insert(id, s@));
    assert(before.remove(id).map_values(f) =~= before.map_values(f).remove(id));
}

proof fn lemma_put_slot(before: Map<u16, CacheSlot>, slot: u16, value: CacheSlot)
    ensures
        before.insert(slot, value).map_values(|s: CacheSlot| s@) == before.map_values(|s: CacheSlot| s@).insert(
            slot,
            value@,
        ),
        before.remove(slot).map_values(|s: CacheSlot| s@) == before.map_values(|s: CacheSlot| s@).remove(slot),
{
    let f = |s: CacheSlot| s@;
    assert(before.insert(slot, value).map_values(f) =~= before.map_values(f).insert(slot, value@));
    assert(before.remove(slot).map_values(f) =~= before.map_values(f).remove(slot));
}

/// Putting back a whole surface keeps everything whole.
proof fn lemma_put_valid(m: GfxView, id: u16, s: SurfaceView)
    requires
        m.valid(),
        s.whole(),
    ensures
        m.with_surface(id, s).valid(),
{
    let after = m.with_surface(id, s);
    assert forall|other: u16| #[trigger] after.surfaces.contains_key(other) implies after.surfaces[other].whole() by {
        if other != id {
            assert(m.surfaces.contains_key(other));
        }
    }
    assert forall|slot: u16| #[trigger] after.slots.contains_key(slot) implies after.slots[slot].whole() by {
        assert(m.slots.contains_key(slot));
    }
}

impl WasmGfxHandler {
    /// A pipeline without surfaces; the legacy codec paints.
    pub fn new() -> (handler: Self)
        ensures
            handler@ == (GfxView {
                surfaces: Map::empty(),
                slots: Map::empty(),
                egfx_active: false,
                video_codec: VideoCodec::Rfx,
            }),
            handler@.valid(),
    {
        let handler = WasmGfxHandler {
            gfx: HashMap::new(),
            cache: HashMap::new(),
            egfx_active: false,
            video_codec: VideoCodec::Rfx,
        };
        assert(handler@.surfaces =~= Map::empty());
        assert(handler@.slots =~= Map::empty());
        handler
    }

    /// Version 8 only, with a small cache: a host without a GPU then chooses the
    /// progressive codec, and no host sends video that cannot be decoded here.
    pub fn capabilities(&self) -> (capabilities: Vec<GfxCapability>)
        ensures
            capabilities@ == seq![GfxCapability { version: 8, small_cache: true }],
    {
        let mut capabilities: Vec<GfxCapability> = Vec::new();
        capabilities.push(GfxCapability { version: 8, small_cache: true });
        assert(capabilities@ =~= seq![GfxCapability { version: 8, small_cache: true }]);
        capabilities
    }

    /// Takes a surface out, to be put back.
    fn take_surface(&mut self, id: u16) -> (surface: Option<GfxSurface>)
        requires
            old(self)@.valid(),
        ensures
            final(self).cache == old(self).cache,
            final(self).egfx_active == old(self).egfx_active,
            final(self).video_codec == old(self).video_codec,
            final(self).gfx@ == old(self).gfx@.remove(id),
            match surface {
                Some(s) => old(self)@.surfaces.contains_key(id) && old(self)@.surfaces[id] == s@ && s@.whole(),
                None => !old(self)@.surfaces.contains_key(id) && final(self)@ == old(self)@,
            },
    {
        let surface = self.gfx.remove(&id);
        proof {
            if surface is None {
                assert(old(self).gfx@.remove(id) =~= old(self).gfx@);
            } else {
                assert(old(self)@.surfaces.contains_key(id));
                assert(old(self)@.surfaces[id].whole());
            }
        }
        surface
    }

    /// The server starts over: all surfaces go.
    pub fn on_reset_graphics(&mut self)
        requires
            old(self)@.valid(),
        ensures
            final(self)@ == (GfxView { surfaces: Map::empty(), ..old(self)@ }),
            final(self)@.valid(),
    {
        self.gfx.clear();
        assert(self@.surfaces =~= Map::empty());
    }

    /// A new surface, black and off screen. From now on the pipeline paints.
    pub fn on_surface_created(&mut self, id: u16, width: u16, height: u16)
        requires
            old(self)@.valid(),
            width * height * 4 <= usize::MAX,
        ensures
            ({
                let fresh = SurfaceView {
                    fed: Seq::empty(),
                    fb: Seq::new((width * height * 4) as nat, |k: int| 0u8),
                    width,
                    height,
                    origin_x: 0,
                    origin_y: 0,
                    mapped: false,
                };
                final(self)@ == (GfxView { egfx_active: true, ..old(self)@.with_surface(id, fresh) })
            }),
            final(self)@.valid(),
    {
        assert(width * height >= 0) by (nonlinear_arith)
            requires
                0 <= width,
                0 <= height,
        ;
        let size: usize = (width as usize) * (height as usize) * 4;
        let fb: Vec<u8> = vec![0u8; size];
        assert(fb@ =~= Seq::new((width * height * 4) as nat, |k: int| 0u8));
        let surface = GfxSurface {
            decoder: new_decoder(),
            fb,
            width,
            height,
            origin_x: 0,
            origin_y: 0,
            mapped: false,
        };
        proof {
            lemma_put_surface(self.gfx@, id, surface);
        }
        self.gfx.insert(id, surface);
        self.egfx_active = true;
    }

    pub fn on_surface_deleted(&mut self, id: u16)
        requires
            old(self)@.valid(),
        ensures
            final(self)@ == (GfxView { surfaces: old(self)@.surfaces.remove(id), ..old(self)@ }),
            final(self)@.valid(),
    {
        proof {
            let f = |surface: GfxSurface| surface@;
            assert(self.gfx@.remove(id).map_values(f) =~= self.gfx@.map_values(f).remove(id));
        }
        self.gfx.remove(&id);
    }

    /// Puts a surface on the desktop and gives its whole place there, to be
    /// presented at once: it may have been composed off screen. `None` where there
    /// is no such surface.
    pub fn on_surface_mapped(&mut self, id: u16, origin_x: u32, origin_y: u32) -> (regions: Option<
        Vec<InclusiveRectangle>,
    >)
        requires
            old(self)@.valid(),
        ensures
            final(self)@.valid(),
            if old(self)@.surfaces.contains_key(id) {
                let s = old(self)@.surfaces[id];
                let mapped = SurfaceView { origin_x: origin_x as u16, origin_y: origin_y as u16, mapped: true, ..s };
                &&& final(self)@ == old(self)@.with_surface(id, mapped)
                &&& regions is Some
                &&& regions->0@ == presented(mapped, seq![whole_rect(mapped)])
            } else {
                regions is None && final(self)@ == old(self)@
            },
    {
        let ghost before = self.gfx@;
        match self.take_surface(id) {
            Some(mut s) => {
                s.origin_x = #[verifier::truncate] (origin_x as u16);
                s.origin_y = #[verifier::truncate] (origin_y as u16);
                s.mapped = true;
                let mut full: Vec<InclusiveRectangle> = Vec::new();
                full.push(
                    InclusiveRectangle {
                        left: 0,
                        top: 0,
                        right: s.width.saturating_sub(1),
                        bottom: s.height.saturating_sub(1),
                    },
                );
                assert(full@ =~= seq![whole_rect(s@)]);
                let regions = present(&s, &full);
                proof {
                    lemma_put_surface(before, id, s);
                    lemma_put_valid(old(self)@, id, s@);
                }
                self.gfx.insert(id, s);
                Some(regions)
            }
            None => None,
        }
    }

    /// Mapping with scaling is mapping: the surface is shown in its own size.
    pub fn on_map_surface_to_scaled_output(
        &mut self,
        id: u16,
        origin_x: u32,
        origin_y: u32,
        target_width: u32,
        target_height: u32,
    ) -> (regions: Option<Vec<InclusiveRectangle>>)
        requires
            old(self)@.valid(),
        ensures
            final(self)@.valid(),
            if old(self)@.surfaces.contains_key(id) {
                let s = old(self)@.surfaces[id];
                let mapped = SurfaceView { origin_x: origin_x as u16, origin_y: origin_y as u16, mapped: true, ..s };
                &&& final(self)@ == old(self)@.with_surface(id, mapped)
                &&& regions is Some
                &&& regions->0@ == presented(mapped, seq![whole_rect(mapped)])
            } else {
                regions is None && final(self)@ == old(self)@
            },
    {
        self.on_surface_mapped(id, origin_x, origin_y)
    }

    /// Paints decoded tiles.
    pub fn on_progressive_tiles(&mut self, id: u16, tiles: Option<Vec<ProgressiveTile>>) -> (regions: Vec<
        InclusiveRectangle,
    >)
        requires
            old(self)@.valid(),
            old(self)@.surfaces.contains_key(id) && tiles is Some ==> tiles_fit(
                old(self)@.surfaces[id],
                tile_views(tiles->0@),
            ),
        ensures
            final(self)@.valid(),
            (final(self)@, regions@) == tiles_step(old(self)@, id, opt_tile_views(tiles)),
    {
        let list = match tiles {
            Some(list) => list,
            None => return no_regions(),
        };
        let ghost before = self.gfx@;
        let mut s = match self.take_surface(id) {
            Some(s) => s,
            None => return no_regions(),
        };
        let dirty = paint_tiles(&mut s, &list);
        let regions = present(&s, &dirty);
        proof {
            lemma_put_surface(before, id, s);
            lemma_put_valid(old(self)@, id, s@);
        }
        self.gfx.insert(id, s);
        self.video_codec = VideoCodec::Progressive;
        regions
    }

    /// Decodes progressive data for a surface and paints it.
    pub fn on_progressive_data(&mut self, id: u16, data: &[u8]) -> (regions: Vec<InclusiveRectangle>)
        requires
            old(self)@.valid(),
        ensures
            final(self)@.valid(),
            (final(self)@, regions@) == progressive_step(old(self)@, id, data@),
    {
        let ghost before = self.gfx@;
        let ghost view = self@;
        let mut s = match self.take_surface(id) {
            Some(s) => s,
            None => return no_regions(),
        };
        let tiles = decode_tiles(&mut s.decoder, s.width, s.height, data);
        proof {
            lemma_put_surface(before, id, s);
            lemma_put_valid(old(self)@, id, s@);
        }
        self.gfx.insert(id, s);
        assert(self@.surfaces =~= view.surfaces.insert(id, s@));
        proof {
            if tiles is Some {
                let list = tile_views(tiles->0@);
                assert forall|i: int| 0 <= i < list.len() implies tile_fits(
                    view.surfaces[id].width,
                    view.surfaces[id].height,
                    #[trigger] list[i],
                ) by {
                    assert(list[i] == tiles->0@[i]@);
                }
            }
        }
        self.on_progressive_tiles(id, tiles)
    }

    /// Paints a decoded bitmap, cut to the surface.
    pub fn on_bitmap_updated(&mut self, update: &BitmapUpdate) -> (regions: Vec<InclusiveRectangle>)
        requires
            old(self)@.valid(),
        ensures
            final(self)@.valid(),
            (final(self)@, regions@) == bitmap_step(old(self)@, *update),
    {
        let ghost before = self.gfx@;
        let mut s = match self.take_surface(update.surface_id) {
            Some(s) => s,
            None => return no_regions(),
        };
        paste(
            &mut s.fb,
            s.width,
            s.height,
            update.left,
            update.top,
            update.data.as_slice(),
            update.width,
            update.height,
        );
        let mut dirty: Vec<InclusiveRectangle> = Vec::new();
        let rect = InclusiveRectangle {
            left: update.left,
            top: update.top,
            right: end_before(update.left, update.width, s.width),
            bottom: end_before(update.top, update.height, s.height),
        };
        dirty.push(rect);
        assert(dirty@ =~= seq![rect]);
        let regions = present(&s, &dirty);
        proof {
            lemma_put_surface(before, update.surface_id, s);
            lemma_put_valid(old(self)@, update.surface_id, s@);
        }
        self.gfx.insert(update.surface_id, s);
        self.video_codec = if update.planar {
            VideoCodec::Planar
        } else {
            VideoCodec::Uncompressed
        };
        regions
    }

    /// Fills rectangles of a surface with one opaque colour.
    pub fn on_solid_fill(&mut self, id: u16, r: u8, g: u8, b: u8, rectangles: &[ExclusiveRectangle]) -> (regions: Vec<
        InclusiveRectangle,
    >)
        requires
            old(self)@.valid(),
        ensures
            final(self)@.valid(),
            (final(self)@, regions@) == fill_step(old(self)@, id, r, g, b, rectangles@),
    {
        let ghost before = self.gfx@;
        let mut s = match self.take_surface(id) {
            Some(s) => s,
            None => return no_regions(),
        };
        let rgba: [u8; 4] = [r, g, b, 0xFF];
        assert(rgba@ =~= seq![r, g, b, 0xFFu8]);
        let dirty = fill_rects(&mut s, rectangles, rgba);
        let regions = present(&s, &dirty);
        proof {
            lemma_put_surface(before, id, s);
            lemma_put_valid(old(self)@, id, s@);
        }
        self.gfx.insert(id, s);
        regions
    }

    /// Copies a rectangle of a surface to points of a surface.
    pub fn on_surface_to_surface(
        &mut self,
        source_id: u16,
        destination_id: u16,
        rect: ExclusiveRectangle,
        points: &[Point],
    ) -> (regions: Vec<InclusiveRectangle>)
        requires
            old(self)@.valid(),
        ensures
            final(self)@.valid(),
            (final(self)@, regions@) == copy_step(old(self)@, source_id, destination_id, rect, points@),
    {
        assert(self.gfx@.contains_key(source_id) == self@.surfaces.contains_key(source_id));
        // The source is read whole before the destination is written: they may be
        // the same surface, with the two places overlapping.
        let block = match self.gfx.get(&source_id) {
            Some(s) => {
                assert(self@.surfaces[source_id] == s@);
                match cut_block(s, rect) {
                    Some(block) => block,
                    None => return no_regions(),
                }
            }
            None => return no_regions(),
        };
        self.put_block(destination_id, points, &block)
    }

    fn put_block(&mut self, id: u16, points: &[Point], block: &CacheSlot) -> (regions: Vec<InclusiveRectangle>)
        requires
            old(self)@.valid(),
        ensures
            final(self)@.valid(),
            (final(self)@, regions@) == block_step(old(self)@, id, points@, block@),
    {
        let ghost before = self.gfx@;
        let mut s = match self.take_surface(id) {
            Some(s) => s,
            None => return no_regions(),
        };
        let dirty = paste_block(&mut s, points, block);
        let regions = present(&s, &dirty);
        proof {
            lemma_put_surface(before, id, s);
            lemma_put_valid(old(self)@, id, s@);
        }
        self.gfx.insert(id, s);
        regions
    }

    /// Saves a rectangle of a surface in a slot.
    pub fn on_surface_to_cache(&mut self, id: u16, cache_slot: u16, rect: ExclusiveRectangle)
        requires
            old(self)@.valid(),
        ensures
            final(self)@.valid(),
            final(self)@ == save_step(old(self)@, id, cache_slot, rect),
    {
        assert(self.gfx@.contains_key(id) == self@.surfaces.contains_key(id));
        let block = match self.gfx.get(&id) {
            Some(s) => {
                assert(self@.surfaces[id] == s@);
                match cut_block(s, rect) {
                    Some(block) => block,
                    None => return,
                }
            }
            None => return,
        };
        proof {
            lemma_put_slot(self.cache@, cache_slot, block);
        }
        self.cache.insert(cache_slot, block);
    }

    /// Restores a slot at points of a surface.
    pub fn on_cache_to_surface(&mut self, cache_slot: u16, id: u16, points: &[Point]) -> (regions: Vec<
        InclusiveRectangle,
    >)
        requires
            old(self)@.valid(),
        ensures
            final(self)@.valid(),
            (final(self)@, regions@) == restore_step(old(self)@, cache_slot, id, points@),
    {
        let ghost slots = self.cache@;
        let ghost view = self@;
        let entry = match self.cache.remove(&cache_slot) {
            Some(entry) => entry,
            None => {
                assert(slots.remove(cache_slot) =~= slots);
                assert(!view.slots.contains_key(cache_slot));
                return no_regions();
            }
        };
        assert(view.slots.contains_key(cache_slot) && view.slots[cache_slot] == entry@);
        proof {
            lemma_put_slot(slots, cache_slot, entry);
            assert forall|slot: u16| #[trigger] self@.slots.contains_key(slot) implies self@.slots[slot].whole() by {
                assert(view.slots.contains_key(slot));
            }
            assert forall|id: u16| #[trigger] self@.surfaces.contains_key(id) implies self@.surfaces[id].whole() by {
                assert(view.surfaces.contains_key(id));
            }
        }
        let regions = self.put_block(id, points, &entry);
        let ghost middle = self@;
        proof {
            lemma_put_slot(self.cache@, cache_slot, entry);
        }
        self.cache.insert(cache_slot, entry);
        assert(self@.slots =~= view.slots);
        assert(self@ == restore_step(view, cache_slot, id, points@).0);
        assert forall|slot: u16| #[trigger] self@.slots.contains_key(slot) implies self@.slots[slot].whole() by {
            assert(view.slots.contains_key(slot));
        }
        assert forall|id: u16| #[trigger] self@.surfaces.contains_key(id) implies self@.surfaces[id].whole() by {
            assert(middle.surfaces.contains_key(id));
        }
        regions
    }

    /// Empties a slot.
    pub fn on_evict_cache_entry(&mut self, cache_slot: u16)
        requires
            old(self)@.valid(),
        ensures
            final(self)@.valid(),
            final(self)@ == (GfxView { slots: old(self)@.slots.remove(cache_slot), ..old(self)@ }),
    {
        proof {
            let f = |s: CacheSlot| s@;
            assert(self.cache@.remove(cache_slot).map_values(f) =~= self.cache@.map_values(f).remove(cache_slot));
        }
        self.cache.remove(&cache_slot);
    }
}

/// Paints a tile where it is to be seen and adds those rectangles to `dirty`.
fn paint_tile(s: &mut GfxSurface, tile: &ProgressiveTile, dirty: &mut Vec<InclusiveRectangle>)
    requires
        old(s)@.whole(),
        tile_fits(old(s)@.width, old(s)@.height, tile@),
    ensures
        final(s)@ == old(s)@.with_fb(
            rects_of_tile(old(s)@.fb, old(s)@.width as int, tile@, tile@.update_rectangles),
        ),
        final(s)@.whole(),
        final(dirty)@ == old(dirty)@ + tile@.update_rectangles.map_values(|r: ExclusiveRectangle| inclusive(r)),
{
    let ghost s0 = s@;
    let ghost dirty0 = dirty@;
    let ghost rects = tile@.update_rectangles;
    let ghost f = |r: ExclusiveRectangle| inclusive(r);
    let x: u16 = tile.x_idx * TILE_SIZE;
    let y: u16 = tile.y_idx * TILE_SIZE;
    let mut i: usize = 0;
    assert(rects.take(0) =~= Seq::<ExclusiveRectangle>::empty());
    assert(dirty@ =~= dirty0 + rects.take(0).map_values(f));
    while i < tile.update_rectangles.len()
        invariant
            i <= rects.len(),
            s0.whole(),
            rects == tile@.update_rectangles,
            f == (|r: ExclusiveRectangle| inclusive(r)),
            tile_fits(s0.width, s0.height, tile@),
            x == tile.x_idx * TILE_SIZE,
            y == tile.y_idx * TILE_SIZE,
            s@ == s0.with_fb(rects_of_tile(s0.fb, s0.width as int, tile@, rects.take(i as int))),
            s@.whole(),
            dirty@ == dirty0 + rects.take(i as int).map_values(f),
        decreases rects.len() - i,
    {
        proof {
            assert(rects.take(i + 1).drop_last() =~= rects.take(i as int));
            assert(rects.take(i + 1).last() == rects[i as int]);
            assert(on_tile(s0.width, s0.height, tile@, rects[i as int]));
        }
        let r: ExclusiveRectangle = tile.update_rectangles[i];
        let bw: u16 = r.right - r.left;
        let bh: u16 = r.bottom - r.top;
        let block = cut_out(&tile.pixels, TILE_SIZE, TILE_SIZE, r.left - x, r.top - y, bw, bh);
        paste(&mut s.fb, s.width, s.height, r.left, r.top, block.as_slice(), bw, bh);
        dirty.push(InclusiveRectangle { left: r.left, top: r.top, right: r.right - 1, bottom: r.bottom - 1 });
        assert(dirty@ =~= dirty0 + rects.take(i + 1).map_values(f));
        i = i + 1;
    }
    assert(rects.take(i as int) =~= rects);
}

/// Paints tiles and gives the rectangles that changed.
fn paint_tiles(s: &mut GfxSurface, tiles: &Vec<ProgressiveTile>) -> (dirty: Vec<InclusiveRectangle>)
    requires
        old(s)@.whole(),
        tiles_fit(old(s)@, tile_views(tiles@)),
    ensures
        final(s)@ == old(s)@.with_fb(tile_all(old(s)@.fb, old(s)@.width as int, tile_views(tiles@))),
        final(s)@.whole(),
        dirty@ == tile_dirty(tile_views(tiles@)),
{
    let ghost s0 = s@;
    let ghost all = tile_views(tiles@);
    let mut dirty: Vec<InclusiveRectangle> = Vec::new();
    let mut i: usize = 0;
    assert(all.take(0) =~= Seq::<TileView>::empty());
    while i < tiles.len()
        invariant
            i <= tiles@.len(),
            s0.whole(),
            all == tile_views(tiles@),
            tiles_fit(s0, all),
            s@ == s0.with_fb(tile_all(s0.fb, s0.width as int, all.take(i as int))),
            s@.whole(),
            dirty@ == tile_dirty(all.take(i as int)),
        decreases tiles@.len() - i,
    {
        proof {
            assert(all.take(i + 1).drop_last() =~= all.take(i as int));
            assert(all.take(i + 1).last() == all[i as int]);
            assert(all[i as int] == tiles@[i as int]@);
        }
        paint_tile(s, &tiles[i], &mut dirty);
        i = i + 1;
    }
    assert(all.take(i as int) =~= all);
    dirty
}

/// Fills rectangles and gives those that changed.
fn fill_rects(s: &mut GfxSurface, rects: &[ExclusiveRectangle], rgba: [u8; 4]) -> (dirty: Vec<InclusiveRectangle>)
    requires
        old(s)@.whole(),
    ensures
        final(s)@ == old(s)@.with_fb(
            fill_all(old(s)@.fb, old(s)@.width as int, old(s)@.height as int, rects@, rgba@),
        ),
        final(s)@.whole(),
        dirty@ == fill_dirty(old(s)@.width as int, old(s)@.height as int, rects@),
{
    let ghost s0 = s@;
    let mut dirty: Vec<InclusiveRectangle> = Vec::new();
    let mut i: usize = 0;
    assert(rects@.take(0) =~= Seq::<ExclusiveRectangle>::empty());
    while i < rects.len()
        invariant
            i <= rects@.len(),
            s0.whole(),
            s@ == s0.with_fb(fill_all(s0.fb, s0.width as int, s0.height as int, rects@.take(i as int), rgba@)),
            s@.whole(),
            dirty@ == fill_dirty(s0.width as int, s0.height as int, rects@.take(i as int)),
        decreases rects@.len() - i,
    {
        proof {
            assert(rects@.take(i + 1).drop_last() =~= rects@.take(i as int));
            assert(rects@.take(i + 1).last() == rects@[i as int]);
        }
        let rect: ExclusiveRectangle = rects[i];
        let x0: u16 = lesser(rect.left, s.width);
        let y0: u16 = lesser(rect.top, s.height);
        let x1: u16 = lesser(rect.right, s.width);
        let y1: u16 = lesser(rect.bottom, s.height);
        if x0 < x1 && y0 < y1 {
            fill(&mut s.fb, s.width, s.height, x0, y0, x1, y1, rgba);
            dirty.push(InclusiveRectangle { left: x0, top: y0, right: x1 - 1, bottom: y1 - 1 });
        }
        i = i + 1;
    }
    assert(rects@.take(i as int) =~= rects@);
    dirty
}

// ---------------------------------------------------------------------------
// Laws
// ---------------------------------------------------------------------------
/// What a slot restores is what was saved in it: whatever has been painted since,
/// the place gets its saved pixels back and no other pixel changes.
pub proof fn law_cache_restores(m: GfxView, later: GfxView, id: u16, slot: u16, rect: ExclusiveRectangle, k: int)
    requires
        m.valid(),
        later.valid(),
        m.surfaces.contains_key(id),
        later.surfaces.contains_key(id),
        later.surfaces[id].width == m.surfaces[id].width,
        later.surfaces[id].height == m.surfaces[id].height,
        touches(rect, m.surfaces[id].width as int, m.surfaces[id].height as int),
        later.slots.contains_key(slot),
        later.slots[slot] == save_step(m, id, slot, rect).slots[slot],
        0 <= k < m.surfaces[id].fb.len(),
    ensures
        ({
            let s = m.surfaces[id];
            let (x0, y0, x1, y1) = clipped(rect, s.width as int, s.height as int);
            let place = Point { x: x0 as u16, y: y0 as u16 };
            let restored = restore_step(later, slot, id, seq![place]).0.surfaces[id];
            &&& restored.fb.len() == s.fb.len()
            &&& restored.fb[k] == if x0 <= crate::pixels::col_of(k, s.width as int) < x1 && y0
                <= crate::pixels::row_of(k, s.width as int) < y1 {
                s.fb[k]
            } else {
                later.surfaces[id].fb[k]
            }
        }),
{
    let s = m.surfaces[id];
    let t = later.surfaces[id];
    assert(s.whole() && t.whole());
    let (x0, y0, x1, y1) = clipped(rect, s.width as int, s.height as int);
    let place = Point { x: x0 as u16, y: y0 as u16 };
    let w = s.width as int;
    let block = cut(s.fb, w, x0, y0, x1 - x0, y1 - y0);
    crate::pixels::law_cut_then_paste_restores(s.fb, t.fb, w, s.height as int, x0, y0, x1 - x0, y1 - y0, k);
    let points = seq![place];
    assert(points.drop_last() =~= Seq::<Point>::empty());
    assert(points.last() == place);
    reveal_with_fuel(paste_all, 2);
    assert(paste_all(t.fb, w, points, block, x1 - x0, y1 - y0) == pasted(
        t.fb,
        w,
        x0,
        y0,
        block,
        x1 - x0,
        y1 - y0,
    ));
}

/// A tile is seen in its update rectangles and nowhere else: there a pixel is the tile's
/// own for that place, elsewhere it stays.
pub proof fn law_tile_shows_in_its_rectangles(s: SurfaceView, tile: TileView, rects: Seq<ExclusiveRectangle>, k: int)
    requires
        s.whole(),
        tile_fits(s.width, s.height, tile),
        forall|j: int| 0 <= j < rects.len() ==> on_tile(s.width, s.height, tile, #[trigger] rects[j]),
        0 <= k < s.fb.len(),
    ensures
        ({
            let x = crate::pixels::col_of(k, s.width as int);
            let y = crate::pixels::row_of(k, s.width as int);
            let (left, top) = (tile.x_idx * TILE_SIZE, tile.y_idx * TILE_SIZE);
            let painted = rects_of_tile(s.fb, s.width as int, tile, rects);
            &&& painted.len() == s.fb.len()
            &&& painted[k] == if exists|j: int|
                0 <= j < rects.len() && (#[trigger] rects[j]).left <= x < rects[j].right && rects[j].top <= y
                    < rects[j].bottom {
                tile.pixels[crate::pixels::at_pixel(x - left, y - top, TILE_SIZE as int) + k % 4]
            } else {
                s.fb[k]
            }
        }),
    decreases rects.len(),
{
    if rects.len() > 0 {
        let w = s.width as int;
        let x = crate::pixels::col_of(k, w);
        let y = crate::pixels::row_of(k, w);
        let front = rects.drop_last();
        let r = rects.last();
        assert(on_tile(s.width, s.height, tile, rects[rects.len() - 1]));
        assert forall|j: int| 0 <= j < front.len() implies on_tile(s.width, s.height, tile, #[trigger] front[j]) by {
            assert(front[j] == rects[j]);
        }
        law_tile_shows_in_its_rectangles(s, tile, front, k);
        let bw = r.right - r.left;
        let bh = r.bottom - r.top;
        if r.left <= x < r.right && r.top <= y < r.bottom {
            let (dx, dy) = (x - r.left, y - r.top);
            crate::pixels::lemma_place(dx, dy, k % 4, bw);
            crate::pixels::lemma_inside(dx, dy, bw, bh);
            crate::pixels::lemma_inside(bw - 1, dy, bw, bh);
            assert(rects[rects.len() - 1] == r);
        } else {
            assert forall|j: int|
                0 <= j < rects.len() && (#[trigger] rects[j]).left <= x < rects[j].right && rects[j].top <= y
                    < rects[j].bottom implies j < front.len() && front[j] == rects[j] by {}
            assert forall|j: int| 0 <= j < front.len() implies #[trigger] front[j] == rects[j] by {}
        }
    }
}

/// Painting one surface changes no other surface and no slot, and moves, resizes
/// and maps none.
pub proof fn law_painting_touches_one_surface(
    m: GfxView,
    id: u16,
    other: u16,
    update: BitmapUpdate,
    rgb: (u8, u8, u8),
    rects: Seq<ExclusiveRectangle>,
    points: Seq<Point>,
    block: SlotView,
    tiles: Option<Seq<TileView>>,
)
    requires
        other != id,
        update.surface_id == id,
    ensures
        same_but(m, bitmap_step(m, update).0, id, other),
        same_but(m, fill_step(m, id, rgb.0, rgb.1, rgb.2, rects).0, id, other),
        same_but(m, block_step(m, id, points, block).0, id, other),
        same_but(m, tiles_step(m, id, tiles).0, id, other),
{
}

/// Whether `after` differs from `m` at most in the pixels of surface `id` and in
/// the codec; `other` is any other surface.
pub open spec fn same_but(m: GfxView, after: GfxView, id: u16, other: u16) -> bool {
    &&& after.slots == m.slots
    &&& after.egfx_active == m.egfx_active
    &&& after.surfaces.contains_key(other) == m.surfaces.contains_key(other)
    &&& m.surfaces.contains_key(other) ==> after.surfaces[other] == m.surfaces[other]
    &&& after.surfaces.contains_key(id) == m.surfaces.contains_key(id)
    &&& m.surfaces.contains_key(id) ==> after.surfaces[id] == m.surfaces[id].with_fb(after.surfaces[id].fb)
}

/// A surface that is not on the desktop presents nothing, whatever is painted on it.
pub proof fn law_offscreen_presents_nothing(
    m: GfxView,
    id: u16,
    update: BitmapUpdate,
    rgb: (u8, u8, u8),
    rects: Seq<ExclusiveRectangle>,
    points: Seq<Point>,
    block: SlotView,
    tiles: Option<Seq<TileView>>,
)
    requires
        update.surface_id == id,
        m.surfaces.contains_key(id) ==> !m.surfaces[id].mapped,
    ensures
        bitmap_step(m, update).1.len() == 0,
        fill_step(m, id, rgb.0, rgb.1, rgb.2, rects).1.len() == 0,
        block_step(m, id, points, block).1.len() == 0,
        tiles_step(m, id, tiles).1.len() == 0,
{
}

// ---------------------------------------------------------------------------
// What is painted and what is presented, pixel by pixel
// ---------------------------------------------------------------------------
/// Whether a pixel lies in one of some rectangles of its surface.
pub open spec fn marked(rects: Seq<InclusiveRectangle>, x: int, y: int) -> bool {
    exists|i: int|
        0 <= i < rects.len() && (#[trigger] rects[i]).left <= x <= rects[i].right && rects[i].top <= y
            <= rects[i].bottom
}

/// Whether a pixel of a surface lies, moved by the surface's origin, in one of some regions
/// of the desktop. A coordinate beyond the last 16-bit one counts as that one.
pub open spec fn covered(s: SurfaceView, x: int, y: int, regions: Seq<InclusiveRectangle>) -> bool {
    marked(
        regions,
        if x + s.origin_x > 0xFFFF {
            0xFFFF
        } else {
            x + s.origin_x
        },
        if y + s.origin_y > 0xFFFF {
            0xFFFF
        } else {
            y + s.origin_y
        },
    )
}

/// Whether all of a surface lies on the desktop, short of its last column and row.
pub open spec fn on_screen(s: SurfaceView) -> bool {
    s.origin_x + s.width <= 0xFFFF && s.origin_y + s.height <= 0xFFFF
}

/// What is presented of changed rectangles of a mapped surface is those rectangles, moved.
proof fn lemma_presented(s: SurfaceView, rects: Seq<InclusiveRectangle>, x: int, y: int)
    requires
        s.mapped,
        0 <= x < s.width,
        0 <= y < s.height,
    ensures
        marked(rects, x, y) ==> covered(s, x, y, presented(s, rects)),
        on_screen(s) && covered(s, x, y, presented(s, rects)) ==> marked(rects, x, y),
{
    let regions = presented(s, rects);
    assert forall|i: int| 0 <= i < rects.len() implies #[trigger] regions[i] == on_desktop(
        rects[i],
        s.origin_x,
        s.origin_y,
    ) by {}
    if marked(rects, x, y) {
        let i = choose|i: int|
            0 <= i < rects.len() && (#[trigger] rects[i]).left <= x <= rects[i].right && rects[i].top <= y
                <= rects[i].bottom;
        assert(regions[i] == on_desktop(rects[i], s.origin_x, s.origin_y));
    }
    if on_screen(s) && covered(s, x, y, regions) {
        let (px, py) = (x + s.origin_x, y + s.origin_y);
        let i = choose|i: int|
            0 <= i < regions.len() && (#[trigger] regions[i]).left <= px <= regions[i].right && regions[i].top <= py
                <= regions[i].bottom;
        assert(rects[i].left <= x <= rects[i].right && rects[i].top <= y <= rects[i].bottom);
    }
}

proof fn lemma_pasted_pixel(
    fb: Seq<u8>,
    w: int,
    h: int,
    dx: int,
    dy: int,
    block: Seq<u8>,
    bw: int,
    bh: int,
    x: int,
    y: int,
    c: int,
)
    requires
        fb.len() == w * h * 4,
        0 <= x < w,
        0 <= y < h,
        0 <= c < 4,
    ensures
        ({
            let k = (y * w + x) * 4 + c;
            let there = dx <= x < dx + bw && dy <= y < dy + bh;
            let room = if bw < w - dx {
                bw
            } else {
                w - dx
            };
            let whole = ((y - dy) * bw + room) * 4 <= block.len();
            &&& 0 <= k < fb.len()
            &&& pasted(fb, w, dx, dy, block, bw, bh).len() == fb.len()
            &&& there && whole ==> pasted(fb, w, dx, dy, block, bw, bh)[k] == block[((y - dy) * bw + (x - dx)) * 4 + c]
            &&& !(there && whole) ==> pasted(fb, w, dx, dy, block, bw, bh)[k] == fb[k]
        }),
{
    crate::pixels::lemma_place(x, y, c, w);
    crate::pixels::lemma_inside(x, y, w, h);
    assert(crate::pixels::at_pixel(x, y, w) + c == (y * w + x) * 4 + c);
}

/// A row of a block that has all of its bytes is there.
proof fn lemma_row_is_there(bw: int, bh: int, i: int, room: int)
    requires
        0 <= i < bh,
        0 <= bw,
        room <= bw,
    ensures
        (i * bw + room) * 4 <= bw * bh * 4,
{
    assert(i * bw + bw <= bw * bh) by (nonlinear_arith)
        requires
            0 <= i < bh,
            0 <= bw,
    ;
}

/// A bitmap update is painted where it says, and what it paints is presented. A pixel of the
/// surface inside the update's rectangle becomes the update's own for that place, as long as
/// the update holds the bytes of that row; every other pixel stays. On a mapped surface every
/// pixel inside the rectangle, and so every one that changes, lies, moved by the surface's
/// origin, in one of the regions presented; and no pixel outside the rectangle does. An
/// update that lies wholly on the surface presents exactly its own rectangle.
pub proof fn law_bitmap_is_painted_and_presented(m: GfxView, update: BitmapUpdate, x: int, y: int, c: int)
    requires
        m.surfaces.contains_key(update.surface_id),
        m.surfaces[update.surface_id].whole(),
        0 <= x < m.surfaces[update.surface_id].width,
        0 <= y < m.surfaces[update.surface_id].height,
        0 <= c < 4,
    ensures
        ({
            let s = m.surfaces[update.surface_id];
            let (after, regions) = bitmap_step(m, update);
            let fb = after.surfaces[update.surface_id].fb;
            let k = (y * s.width + x) * 4 + c;
            let inside = update.left <= x < update.left + update.width && update.top <= y < update.top
                + update.height;
            let columns = if update.left + update.width <= s.width {
                update.width as int
            } else {
                s.width - update.left
            };
            let held = ((y - update.top) * update.width + columns) * 4 <= update.data@.len();
            &&& fb.len() == s.fb.len()
            &&& inside && held ==> fb[k] == update.data@[((y - update.top) * update.width + (x - update.left)) * 4 + c]
            &&& !(inside && held) ==> fb[k] == s.fb[k]
            &&& update.data@.len() >= update.width * update.height * 4 && inside ==> held
            &&& s.mapped && inside ==> covered(s, x, y, regions)
            &&& s.mapped && fb[k] != s.fb[k] ==> covered(s, x, y, regions)
            &&& s.mapped && on_screen(s) && update.width > 0 && update.height > 0 && covered(s, x, y, regions)
                ==> inside
            &&& s.mapped && update.width > 0 && update.height > 0 && update.left + update.width <= s.width && update.top
                + update.height <= s.height && on_screen(s) ==> {
                &&& regions.len() == 1
                &&& regions[0].left == s.origin_x + update.left
                &&& regions[0].top == s.origin_y + update.top
                &&& regions[0].right == s.origin_x + update.left + update.width - 1
                &&& regions[0].bottom == s.origin_y + update.top + update.height - 1
            }
            &&& after.video_codec == if update.planar {
                VideoCodec::Planar
            } else {
                VideoCodec::Uncompressed
            }
        }),
{
    let s = m.surfaces[update.surface_id];
    let (w, h) = (s.width as int, s.height as int);
    let (bw, bh) = (update.width as int, update.height as int);
    lemma_pasted_pixel(s.fb, w, h, update.left as int, update.top as int, update.data@, bw, bh, x, y, c);
    if update.top <= y < update.top + bh {
        let room = if bw < w - update.left {
            bw
        } else {
            w - update.left
        };
        lemma_row_is_there(bw, bh, y - update.top, room);
    }
    let dirty = InclusiveRectangle {
        left: update.left,
        top: update.top,
        right: last_before(update.left + update.width, w),
        bottom: last_before(update.top + update.height, h),
    };
    let rects = seq![dirty];
    assert(rects[0] == dirty);
    if s.mapped {
        lemma_presented(s, rects, x, y);
        assert(presented(s, rects)[0] == on_desktop(dirty, s.origin_x, s.origin_y));
    }
}

/// Whether a pixel lies in one of some rectangles that are to be filled.
pub open spec fn to_fill(rects: Seq<ExclusiveRectangle>, x: int, y: int) -> bool {
    exists|j: int|
        0 <= j < rects.len() && (#[trigger] rects[j]).left <= x < rects[j].right && rects[j].top <= y
            < rects[j].bottom
}

proof fn lemma_to_fill_last(rects: Seq<ExclusiveRectangle>, x: int, y: int)
    requires
        rects.len() > 0,
    ensures
        to_fill(rects, x, y) == (to_fill(rects.drop_last(), x, y) || (rects.last().left <= x < rects.last().right
            && rects.last().top <= y < rects.last().bottom)),
{
    let front = rects.drop_last();
    assert(rects[rects.len() - 1] == rects.last());
    if to_fill(front, x, y) {
        let j = choose|j: int|
            0 <= j < front.len() && (#[trigger] front[j]).left <= x < front[j].right && front[j].top <= y
                < front[j].bottom;
        assert(rects[j] == front[j]);
    }
    if to_fill(rects, x, y) {
        let j = choose|j: int|
            0 <= j < rects.len() && (#[trigger] rects[j]).left <= x < rects[j].right && rects[j].top <= y
                < rects[j].bottom;
        assert(j < front.len() ==> front[j] == rects[j]);
    }
}

proof fn lemma_fill(
    fb: Seq<u8>,
    w: int,
    h: int,
    rects: Seq<ExclusiveRectangle>,
    rgba: Seq<u8>,
    x: int,
    y: int,
    c: int,
)
    requires
        fb.len() == w * h * 4,
        0 <= x < w <= 0xFFFF,
        0 <= y < h <= 0xFFFF,
        0 <= c < 4,
    ensures
        ({
            let k = (y * w + x) * 4 + c;
            &&& 0 <= k < fb.len()
            &&& fill_all(fb, w, h, rects, rgba).len() == fb.len()
            &&& fill_all(fb, w, h, rects, rgba)[k] == if to_fill(rects, x, y) {
                rgba[c]
            } else {
                fb[k]
            }
            &&& marked(fill_dirty(w, h, rects), x, y) == to_fill(rects, x, y)
        }),
    decreases rects.len(),
{
    crate::pixels::lemma_place(x, y, c, w);
    crate::pixels::lemma_inside(x, y, w, h);
    let k = (y * w + x) * 4 + c;
    assert(crate::pixels::at_pixel(x, y, w) + c == k);
    if rects.len() > 0 {
        let front = rects.drop_last();
        let r = rects.last();
        lemma_fill(fb, w, h, front, rgba, x, y, c);
        let before = fill_dirty(w, h, front);
        let after = fill_dirty(w, h, rects);
        let here = r.left <= x < r.right && r.top <= y < r.bottom;
        assert(rects[rects.len() - 1] == r);
        lemma_to_fill_last(rects, x, y);
        if touches(r, w, h) {
            assert(after.drop_last() =~= before);
            lemma_marked_push(before, after.last(), x, y);
            assert(after =~= before.push(after.last()));
        } else {
            assert(!here);
        }
    }
}

proof fn lemma_marked_push(rects: Seq<InclusiveRectangle>, r: InclusiveRectangle, x: int, y: int)
    ensures
        marked(rects.push(r), x, y) == (marked(rects, x, y) || (r.left <= x <= r.right && r.top <= y <= r.bottom)),
{
    let all = rects.push(r);
    assert forall|i: int| 0 <= i < rects.len() implies #[trigger] all[i] == rects[i] by {}
    assert(all[rects.len() as int] == r);
    if marked(rects, x, y) {
        let i = choose|i: int|
            0 <= i < rects.len() && (#[trigger] rects[i]).left <= x <= rects[i].right && rects[i].top <= y
                <= rects[i].bottom;
        assert(all[i] == rects[i]);
    }
}

/// Filling gives every pixel inside one of the rectangles the colour, opaque, and leaves every
/// other pixel; on a mapped surface every pixel that is filled lies, moved by the surface's
/// origin, in one of the regions presented, and no other pixel does.
pub proof fn law_fill_is_painted_and_presented(
    m: GfxView,
    id: u16,
    rgb: (u8, u8, u8),
    rects: Seq<ExclusiveRectangle>,
    x: int,
    y: int,
)
    requires
        m.surfaces.contains_key(id),
        m.surfaces[id].whole(),
        0 <= x < m.surfaces[id].width,
        0 <= y < m.surfaces[id].height,
    ensures
        ({
            let s = m.surfaces[id];
            let (after, regions) = fill_step(m, id, rgb.0, rgb.1, rgb.2, rects);
            let fb = after.surfaces[id].fb;
            let k = (y * s.width + x) * 4;
            &&& fb.len() == s.fb.len()
            &&& to_fill(rects, x, y) ==> fb.subrange(k, k + 4) == seq![rgb.0, rgb.1, rgb.2, 255u8]
            &&& !to_fill(rects, x, y) ==> fb.subrange(k, k + 4) == s.fb.subrange(k, k + 4)
            &&& s.mapped && to_fill(rects, x, y) ==> covered(s, x, y, regions)
            &&& s.mapped && on_screen(s) && covered(s, x, y, regions) ==> to_fill(rects, x, y)
            &&& after.video_codec == m.video_codec
        }),
{
    let s = m.surfaces[id];
    let (w, h) = (s.width as int, s.height as int);
    let rgba = seq![rgb.0, rgb.1, rgb.2, 0xFFu8];
    let fb = fill_all(s.fb, w, h, rects, rgba);
    let k = (y * w + x) * 4;
    lemma_fill(s.fb, w, h, rects, rgba, x, y, 0);
    lemma_fill(s.fb, w, h, rects, rgba, x, y, 1);
    lemma_fill(s.fb, w, h, rects, rgba, x, y, 2);
    lemma_fill(s.fb, w, h, rects, rgba, x, y, 3);
    assert(fb[k + 1] == fb[(y * w + x) * 4 + 1] && fb[k + 2] == fb[(y * w + x) * 4 + 2]);
    if to_fill(rects, x, y) {
        assert(fb.subrange(k, k + 4) =~= seq![rgb.0, rgb.1, rgb.2, 255u8]);
    } else {
        assert(fb.subrange(k, k + 4) =~= s.fb.subrange(k, k + 4));
    }
    if s.mapped {
        lemma_presented(s, fill_dirty(w, h, rects), x, y);
    }
}

/// Whether a block of `bw` by `bh` pixels, pasted at a point, reaches a pixel.
pub open spec fn reaches(p: Point, bw: int, bh: int, x: int, y: int) -> bool {
    p.x <= x < p.x + bw && p.y <= y < p.y + bh
}

/// Whether a block, pasted at points, reaches a pixel from one of them.
pub open spec fn reached(points: Seq<Point>, bw: int, bh: int, x: int, y: int) -> bool {
    exists|j: int| 0 <= j < points.len() && reaches(#[trigger] points[j], bw, bh, x, y)
}

proof fn lemma_reached_last(points: Seq<Point>, bw: int, bh: int, x: int, y: int)
    requires
        points.len() > 0,
    ensures
        reached(points, bw, bh, x, y) == (reached(points.drop_last(), bw, bh, x, y) || reaches(
            points.last(),
            bw,
            bh,
            x,
            y,
        )),
{
    let front = points.drop_last();
    assert(points[points.len() - 1] == points.last());
    if reached(front, bw, bh, x, y) {
        let j = choose|j: int| 0 <= j < front.len() && reaches(#[trigger] front[j], bw, bh, x, y);
        assert(reaches(points[j], bw, bh, x, y));
    }
    if reached(points, bw, bh, x, y) {
        let j = choose|j: int| 0 <= j < points.len() && reaches(#[trigger] points[j], bw, bh, x, y);
        assert(j < front.len() ==> front[j] == points[j]);
    }
}

#[verifier::rlimit(40)]
proof fn lemma_paste(
    fb: Seq<u8>,
    w: int,
    h: int,
    points: Seq<Point>,
    block: Seq<u8>,
    bw: int,
    bh: int,
    x: int,
    y: int,
    c: int,
)
    requires
        fb.len() == w * h * 4,
        block.len() == bw * bh * 4,
        0 <= bw,
        0 <= bh,
        0 <= x < w <= 0xFFFF,
        0 <= y < h <= 0xFFFF,
        0 <= c < 4,
    ensures
        ({
            let k = (y * w + x) * 4 + c;
            let painted = paste_all(fb, w, points, block, bw, bh);
            &&& 0 <= k < fb.len()
            &&& painted.len() == fb.len()
            &&& !reached(points, bw, bh, x, y) ==> painted[k] == fb[k]
            &&& forall|j: int|
                0 <= j < points.len() && reaches(#[trigger] points[j], bw, bh, x, y) && !reached(
                    points.skip(j + 1),
                    bw,
                    bh,
                    x,
                    y,
                ) ==> painted[k] == block[((y - points[j].y) * bw + (x - points[j].x)) * 4 + c]
            &&& marked(paste_dirty(w, h, points, bw, bh), x, y) == reached(points, bw, bh, x, y)
        }),
    decreases points.len(),
{
    let k = (y * w + x) * 4 + c;
    lemma_pasted_pixel(fb, w, h, 0, 0, block, bw, bh, x, y, c);
    if points.len() > 0 {
        let front = points.drop_last();
        let p = points.last();
        lemma_paste(fb, w, h, front, block, bw, bh, x, y, c);
        let earlier = paste_all(fb, w, front, block, bw, bh);
        let painted = paste_all(fb, w, points, block, bw, bh);
        lemma_pasted_pixel(earlier, w, h, p.x as int, p.y as int, block, bw, bh, x, y, c);
        let here = reaches(p, bw, bh, x, y);
        assert(points[points.len() - 1] == p);
        if here {
            let room = if bw < w - p.x {
                bw
            } else {
                w - p.x
            };
            lemma_row_is_there(bw, bh, y - p.y, room);
        }
        lemma_reached_last(points, bw, bh, x, y);
        assert forall|j: int|
            0 <= j < points.len() && reaches(#[trigger] points[j], bw, bh, x, y) && !reached(
                points.skip(j + 1),
                bw,
                bh,
                x,
                y,
            ) implies painted[k] == block[((y - points[j].y) * bw + (x - points[j].x)) * 4 + c] by {
            if j < front.len() {
                let later = points.skip(j + 1);
                assert(later[later.len() - 1] == p);
                assert(!here);
                assert(front[j] == points[j]);
                assert(!reached(front.skip(j + 1), bw, bh, x, y)) by {
                    if reached(front.skip(j + 1), bw, bh, x, y) {
                        let i = choose|i: int|
                            0 <= i < front.skip(j + 1).len() && reaches(#[trigger] front.skip(j + 1)[i], bw, bh, x, y);
                        assert(later[i] == front.skip(j + 1)[i]);
                    }
                }
            }
        }
        let before = paste_dirty(w, h, front, bw, bh);
        let after = paste_dirty(w, h, points, bw, bh);
        if p.x < w && p.y < h && 0 < bw && 0 < bh {
            assert(after.drop_last() =~= before);
            lemma_marked_push(before, after.last(), x, y);
            assert(after =~= before.push(after.last()));
        } else {
            assert(!here);
        }
    }
}

/// Copying reads a rectangle of the source, cut to it, and writes it at each point of the
/// destination. A pixel of the destination that the rectangle reaches from a point, and from
/// none after it, becomes the source's own pixel for that place, as it was before; a pixel
/// that it reaches from no point stays. On a mapped destination a pixel that is reached lies,
/// moved by the surface's origin, in one of the regions presented, and no other pixel does.
pub proof fn law_copy_is_painted_and_presented(
    m: GfxView,
    source_id: u16,
    id: u16,
    rect: ExclusiveRectangle,
    points: Seq<Point>,
    x: int,
    y: int,
    c: int,
)
    requires
        m.surfaces.contains_key(source_id),
        m.surfaces.contains_key(id),
        m.surfaces[source_id].whole(),
        m.surfaces[id].whole(),
        0 <= x < m.surfaces[id].width,
        0 <= y < m.surfaces[id].height,
        0 <= c < 4,
    ensures
        ({
            let from = m.surfaces[source_id];
            let s = m.surfaces[id];
            let (after, regions) = copy_step(m, source_id, id, rect, points);
            let fb = after.surfaces[id].fb;
            let k = (y * s.width + x) * 4 + c;
            let bw = (if rect.right < from.width {
                rect.right
            } else {
                from.width
            }) - rect.left;
            let bh = (if rect.bottom < from.height {
                rect.bottom
            } else {
                from.height
            }) - rect.top;
            &&& fb.len() == s.fb.len()
            &&& bw <= 0 || bh <= 0 ==> fb == s.fb && regions.len() == 0
            &&& bw > 0 && bh > 0 ==> {
                &&& !reached(points, bw, bh, x, y) ==> fb[k] == s.fb[k]
                &&& forall|j: int|
                    0 <= j < points.len() && reaches(#[trigger] points[j], bw, bh, x, y) && !reached(
                        points.skip(j + 1),
                        bw,
                        bh,
                        x,
                        y,
                    ) ==> fb[k] == from.fb[((rect.top + (y - points[j].y)) * from.width + (rect.left + (x
                        - points[j].x))) * 4 + c]
                &&& s.mapped && reached(points, bw, bh, x, y) ==> covered(s, x, y, regions)
                &&& s.mapped && on_screen(s) && covered(s, x, y, regions) ==> reached(points, bw, bh, x, y)
            }
        }),
{
    let from = m.surfaces[source_id];
    let s = m.surfaces[id];
    let (x0, y0, x1, y1) = clipped(rect, from.width as int, from.height as int);
    if touches(rect, from.width as int, from.height as int) {
        let (bw, bh) = (x1 - x0, y1 - y0);
        let block = cut_of(from, rect)->0;
        assert(bw * bh * 4 >= 0) by (nonlinear_arith)
            requires
                bw > 0,
                bh > 0,
        ;
        assert(block.data.len() == bw * bh * 4);
        assert(block.width == bw && block.height == bh);
        lemma_paste(s.fb, s.width as int, s.height as int, points, block.data, bw, bh, x, y, c);
        assert forall|j: int| 0 <= j < points.len() && reaches(#[trigger] points[j], bw, bh, x, y) implies block.data[((y
            - points[j].y) * bw + (x - points[j].x)) * 4 + c] == from.fb[((rect.top + (y - points[j].y)) * from.width
            + (rect.left + (x - points[j].x))) * 4 + c] by {
            let (i, l) = (x - points[j].x, y - points[j].y);
            crate::pixels::lemma_place(i, l, c, bw);
            crate::pixels::lemma_inside(i, l, bw, bh);
            assert(crate::pixels::at_pixel(i, l, bw) + c == (l * bw + i) * 4 + c);
        }
        if s.mapped {
            lemma_presented(s, paste_dirty(s.width as int, s.height as int, points, bw, bh), x, y);
        }
    }
}

/// Saving a rectangle in a slot and restoring it at points is copying it there: the surfaces
/// and the regions presented are the same. What a slot held before, and what other slots
/// hold, makes no difference.
pub proof fn law_saved_and_restored_is_copied(
    m: GfxView,
    source_id: u16,
    slot: u16,
    id: u16,
    rect: ExclusiveRectangle,
    points: Seq<Point>,
)
    requires
        m.surfaces.contains_key(source_id),
        rect.left < rect.right,
        rect.top < rect.bottom,
        rect.left < m.surfaces[source_id].width,
        rect.top < m.surfaces[source_id].height,
    ensures
        ({
            let saved = save_step(m, source_id, slot, rect);
            let restored = restore_step(saved, slot, id, points);
            let copied = copy_step(m, source_id, id, rect, points);
            &&& saved.surfaces == m.surfaces
            &&& saved.slots.contains_key(slot)
            &&& restored.0.surfaces == copied.0.surfaces
            &&& restored.1 == copied.1
            &&& restored.0.slots == saved.slots
        }),
{
}

/// Whether a pixel lies in one of the rectangles in which tiles are to be seen.
pub open spec fn tiled(tiles: Seq<TileView>, x: int, y: int) -> bool {
    exists|i: int| 0 <= i < tiles.len() && to_fill(#[trigger] tiles[i].update_rectangles, x, y)
}

proof fn lemma_tiled_last(tiles: Seq<TileView>, x: int, y: int)
    requires
        tiles.len() > 0,
    ensures
        tiled(tiles, x, y) == (tiled(tiles.drop_last(), x, y) || to_fill(tiles.last().update_rectangles, x, y)),
{
    let front = tiles.drop_last();
    assert(tiles[tiles.len() - 1] == tiles.last());
    if tiled(front, x, y) {
        let i = choose|i: int| 0 <= i < front.len() && to_fill(#[trigger] front[i].update_rectangles, x, y);
        assert(to_fill(tiles[i].update_rectangles, x, y));
    }
    if tiled(tiles, x, y) {
        let i = choose|i: int| 0 <= i < tiles.len() && to_fill(#[trigger] tiles[i].update_rectangles, x, y);
        assert(i < front.len() ==> front[i] == tiles[i]);
    }
}

proof fn lemma_tiles(s: SurfaceView, tiles: Seq<TileView>, x: int, y: int, c: int)
    requires
        s.whole(),
        tiles_fit(s, tiles),
        0 <= x < s.width,
        0 <= y < s.height,
        0 <= c < 4,
    ensures
        ({
            let k = (y * s.width + x) * 4 + c;
            let painted = tile_all(s.fb, s.width as int, tiles);
            &&& 0 <= k < s.fb.len()
            &&& painted.len() == s.fb.len()
            &&& !tiled(tiles, x, y) ==> painted[k] == s.fb[k]
            &&& tiles.len() > 0 && to_fill(tiles.last().update_rectangles, x, y) ==> painted[k] == tiles.last().pixels[((y
                - 64 * tiles.last().y_idx) * 64 + (x - 64 * tiles.last().x_idx)) * 4 + c]
            &&& tiles.len() > 0 && !to_fill(tiles.last().update_rectangles, x, y) ==> painted[k] == tile_all(
                s.fb,
                s.width as int,
                tiles.drop_last(),
            )[k]
            &&& marked(tile_dirty(tiles), x, y) == tiled(tiles, x, y)
        }),
    decreases tiles.len(),
{
    let w = s.width as int;
    let k = (y * w + x) * 4 + c;
    crate::pixels::lemma_place(x, y, c, w);
    crate::pixels::lemma_inside(x, y, w, s.height as int);
    assert(crate::pixels::at_pixel(x, y, w) + c == k);
    if tiles.len() > 0 {
        let front = tiles.drop_last();
        let t = tiles.last();
        assert(tiles[tiles.len() - 1] == t);
        assert forall|i: int| 0 <= i < front.len() implies tile_fits(s.width, s.height, #[trigger] front[i]) by {
            assert(front[i] == tiles[i]);
        }
        lemma_tiles(s, front, x, y, c);
        let earlier = s.with_fb(tile_all(s.fb, w, front));
        law_tile_shows_in_its_rectangles(earlier, t, t.update_rectangles, k);
        let here = to_fill(t.update_rectangles, x, y);
        lemma_tiled_last(tiles, x, y);
        let more = t.update_rectangles.map_values(|r: ExclusiveRectangle| inclusive(r));
        let before = tile_dirty(front);
        let after = tile_dirty(tiles);
        assert(after == before + more);
        assert(marked(after, x, y) == (marked(before, x, y) || here)) by {
            assert forall|i: int| 0 <= i < before.len() implies #[trigger] before[i] == after[i] by {}
            if marked(before, x, y) {
                let i = choose|i: int|
                    0 <= i < before.len() && (#[trigger] before[i]).left <= x <= before[i].right && before[i].top <= y
                        <= before[i].bottom;
                assert(after[i] == before[i]);
            }
            if here {
                let j = choose|j: int|
                    0 <= j < t.update_rectangles.len() && (#[trigger] t.update_rectangles[j]).left <= x
                        < t.update_rectangles[j].right && t.update_rectangles[j].top <= y
                        < t.update_rectangles[j].bottom;
                assert(after[before.len() + j] == inclusive(t.update_rectangles[j]));
            }
            if marked(after, x, y) {
                let i = choose|i: int|
                    0 <= i < after.len() && (#[trigger] after[i]).left <= x <= after[i].right && after[i].top <= y
                        <= after[i].bottom;
                if i < before.len() {
                    assert(before[i] == after[i]);
                } else {
                    let r = t.update_rectangles[i - before.len()];
                    assert(on_tile(s.width, s.height, t, r));
                    assert(after[i] == inclusive(r));
                }
            }
        }
    }
}

/// Decoded tiles are painted where they are to be seen, later ones over earlier ones: a pixel
/// in an update rectangle of the last tile is that tile's own pixel for the place, where tiles
/// stand in a grid of 64 by 64 pixels; a pixel in none of its rectangles is what the tiles
/// before it leave; and with no tile nothing changes. On a mapped surface a pixel in an update
/// rectangle lies, moved by the surface's origin, in one of the regions presented, and no
/// other pixel does.
pub proof fn law_tiles_are_painted_and_presented(m: GfxView, id: u16, tiles: Seq<TileView>, x: int, y: int, c: int)
    requires
        m.surfaces.contains_key(id),
        m.surfaces[id].whole(),
        tiles_fit(m.surfaces[id], tiles),
        0 <= x < m.surfaces[id].width,
        0 <= y < m.surfaces[id].height,
        0 <= c < 4,
    ensures
        ({
            let s = m.surfaces[id];
            let (after, regions) = tiles_step(m, id, Some(tiles));
            let fb = after.surfaces[id].fb;
            let k = (y * s.width + x) * 4 + c;
            let last = tiles.last();
            let seen = tiles.len() > 0 && to_fill(last.update_rectangles, x, y);
            &&& fb.len() == s.fb.len()
            &&& !tiled(tiles, x, y) ==> fb[k] == s.fb[k]
            &&& seen ==> fb[k] == last.pixels[((y - 64 * last.y_idx) * 64 + (x - 64 * last.x_idx)) * 4 + c]
            &&& tiles.len() > 0 && !seen ==> fb[k] == tiles_step(
                m,
                id,
                Some(tiles.drop_last()),
            ).0.surfaces[id].fb[k]
            &&& s.mapped && tiled(tiles, x, y) ==> covered(s, x, y, regions)
            &&& s.mapped && on_screen(s) && covered(s, x, y, regions) ==> tiled(tiles, x, y)
            &&& after.video_codec == VideoCodec::Progressive
        }),
{
    let s = m.surfaces[id];
    lemma_tiles(s, tiles, x, y, c);
    if s.mapped {
        lemma_presented(s, tile_dirty(tiles), x, y);
    }
}

/// A surface that is mapped presents all of itself at once: every pixel of it lies, moved by
/// its origin, in the one region, which is no larger than the surface.
pub proof fn law_mapping_presents_the_whole_surface(s: SurfaceView, x: int, y: int)
    requires
        s.mapped,
        0 <= x < s.width,
        0 <= y < s.height,
    ensures
        ({
            let regions = presented(s, seq![whole_rect(s)]);
            &&& regions.len() == 1
            &&& covered(s, x, y, regions)
            &&& on_screen(s) ==> {
                &&& regions[0].left == s.origin_x
                &&& regions[0].top == s.origin_y
                &&& regions[0].right == s.origin_x + s.width - 1
                &&& regions[0].bottom == s.origin_y + s.height - 1
            }
        }),
{
    let rects = seq![whole_rect(s)];
    assert(rects[0] == whole_rect(s));
    lemma_presented(s, rects, x, y);
    assert(presented(s, rects)[0] == on_desktop(whole_rect(s), s.origin_x, s.origin_y));
}

/// What is not there is not painted: without the surface, or the slot, or tiles that could be
/// decoded, nothing changes and nothing is presented.
pub proof fn law_nothing_is_painted_on_nothing(
    m: GfxView,
    id: u16,
    slot: u16,
    update: BitmapUpdate,
    rgb: (u8, u8, u8),
    rects: Seq<ExclusiveRectangle>,
    rect: ExclusiveRectangle,
    other: u16,
    points: Seq<Point>,
    tiles: Option<Seq<TileView>>,
)
    requires
        !m.surfaces.contains_key(id),
        !m.slots.contains_key(slot),
        update.surface_id == id,
    ensures
        bitmap_step(m, update) == (m, Seq::<InclusiveRectangle>::empty()),
        fill_step(m, id, rgb.0, rgb.1, rgb.2, rects) == (m, Seq::<InclusiveRectangle>::empty()),
        copy_step(m, id, other, rect, points) == (m, Seq::<InclusiveRectangle>::empty()),
        copy_step(m, other, id, rect, points) == (m, Seq::<InclusiveRectangle>::empty()),
        save_step(m, id, slot, rect) == m,
        restore_step(m, slot, other, points) == (m, Seq::<InclusiveRectangle>::empty()),
        tiles_step(m, id, tiles) == (m, Seq::<InclusiveRectangle>::empty()),
        tiles_step(m, other, None) == (m, Seq::<InclusiveRectangle>::empty()),
{
}

/// Progressive data goes to the decoder with the surface's own size, behind all that the
/// decoder has been given before; what it makes of it is painted. Data that it cannot read
/// leaves the pixels, but is not forgotten.
pub proof fn law_progressive_data_is_remembered(m: GfxView, id: u16, data: Seq<u8>)
    requires
        m.surfaces.contains_key(id),
    ensures
        ({
            let s = m.surfaces[id];
            let after = progressive_step(m, id, data);
            let t = after.0.surfaces[id];
            let tiles = progressive_tiles(s.fed, s.width, s.height, data);
            &&& t.fed.len() == s.fed.len() + 1
            &&& t.fed.drop_last() == s.fed
            &&& t.fed.last() == (s.width, s.height, data)
            &&& tiles is None ==> t.fb == s.fb && after.1.len() == 0 && after.0.video_codec == m.video_codec
            &&& tiles is Some ==> t.fb == tiles_step(m, id, tiles).0.surfaces[id].fb && after.1 == tiles_step(
                m,
                id,
                tiles,
            ).1 && after.0.video_codec == VideoCodec::Progressive
        }),
{
    let s = m.surfaces[id];
    assert(s.fed.push((s.width, s.height, data)).drop_last() =~= s.fed);
}

/// No two codecs go by one name.
pub proof fn law_codecs_have_their_own_names(a: VideoCodec, b: VideoCodec)
    requires
        codec_name(a) == codec_name(b),
    ensures
        a == b,
{
    reveal_strlit("RFX");
    reveal_strlit("RFX-Progressive");
    reveal_strlit("Planar");
    reveal_strlit("Uncompressed");
    assert("RFX"@.len() == 3 && "RFX-Progressive"@.len() == 15 && "Planar"@.len() == 6 && "Uncompressed"@.len() == 12);
}

} // verus!
