//! The page's canvases: each shows one rectangle of the desktop.

use vstd::prelude::*;

use crate::pixels::{cut, cut_out, min, InclusiveRectangle};
use crate::text::put_text;
use crate::tls::digit;

verus! {

pub open spec fn max(a: int, b: int) -> int {
    if a < b {
        b
    } else {
        a
    }
}

/// Pixels to be put on a canvas: `width` by `height` RGBA pixels at `(x, y)`.
#[derive(Debug, PartialEq, Eq)]
pub struct Painting {
    pub x: u32,
    pub y: u32,
    pub width: u32,
    pub height: u32,
    pub rgba: Vec<u8>,
}

/// One canvas: it shows `[origin_x, origin_x + width)` by `[origin_y, origin_y +
/// height)` of the desktop.
#[derive(Debug, PartialEq, Eq)]
pub struct Canvas {
    pub origin_x: u16,
    pub origin_y: u16,
    pub width: u16,
    pub height: u16,
    /// Scratch rows, kept from one painting to the next.
    pub rgba_buf: Vec<u8>,
}

/// The part of a desktop region that a canvas shows, as `(left, top, right,
/// bottom)` with inclusive edges.
pub open spec fn shown(ox: int, oy: int, w: int, h: int, region: InclusiveRectangle) -> (int, int, int, int) {
    (
        max(region.left as int, ox),
        max(region.top as int, oy),
        min(region.right as int, ox + w - 1),
        min(region.bottom as int, oy + h - 1),
    )
}

/// Byte `k` of a painting of width `w` whose top left pixel is `(x0, y0)` of an
/// image of width `image_w`: the image's byte, or the old scratch byte where the
/// image has no such row.
pub open spec fn painted_byte(
    data: Seq<u8>,
    image_w: int,
    x0: int,
    y0: int,
    w: int,
    scratch: Seq<u8>,
    k: int,
) -> u8 {
    let row = k / (w * 4);
    let from = (y0 + row) * (image_w * 4) + x0 * 4;
    if from + w * 4 <= data.len() {
        data[from + k % (w * 4)]
    } else if k < scratch.len() {
        scratch[k]
    } else {
        0
    }
}

/// Whether the region's rows lie one behind the other in the image, so that they
/// can be shown as they are.
pub open spec fn contiguous(data: Seq<u8>, image_w: int, x0: int, y0: int, w: int, h: int) -> bool {
    w == image_w && x0 == 0 && y0 * (image_w * 4) + w * h * 4 <= data.len()
}

/// The part of a desktop region that both a canvas and a surface of `sw` by `sh`
/// pixels at `(sx, sy)` show.
pub open spec fn shown_of_surface(
    canvas: Canvas,
    sx: int,
    sy: int,
    sw: int,
    sh: int,
    region: InclusiveRectangle,
) -> (int, int, int, int) {
    let (l, t, r, b) = shown(
        canvas.origin_x as int,
        canvas.origin_y as int,
        canvas.width as int,
        canvas.height as int,
        region,
    );
    (max(l, sx), max(t, sy), min(r, sx + sw - 1), min(b, sy + sh - 1))
}

/// What drawing a region of a desktop image on a canvas gives: nothing where the canvas
/// shows none of the region, or else the pixels that it shows.
pub open spec fn drawn(
    before: Canvas,
    after: Canvas,
    image_width: u16,
    data: Seq<u8>,
    region: InclusiveRectangle,
    painting: Option<Painting>,
) -> bool {
    let (l, t, r, b) = shown(
        before.origin_x as int,
        before.origin_y as int,
        before.width as int,
        before.height as int,
        region,
    );
    let (w, h) = (r - l + 1, b - t + 1);
    &&& after.same_place(before)
    &&& match painting {
        None => (l > r || t > b) && after.rgba_buf@ == before.rgba_buf@,
        Some(p) => {
            &&& l <= r && t <= b
            &&& p.x == l - before.origin_x
            &&& p.y == t - before.origin_y
            &&& p.width == w
            &&& p.height == h
            &&& p.rgba@ == Seq::new(
                (w * h * 4) as nat,
                |k: int| painted_byte(data, image_width as int, l, t, w, before.rgba_buf@, k),
            )
            &&& after.rgba_buf@ == if contiguous(data, image_width as int, l, t, w, h) {
                before.rgba_buf@
            } else {
                p.rgba@
            }
        },
    }
}

/// What drawing a region of a surface on a canvas gives: nothing where the canvas shows
/// none of it, or else the surface's pixels.
pub open spec fn drawn_rgba(
    canvas: Canvas,
    fb: Seq<u8>,
    sw: u16,
    sh: u16,
    sx: u16,
    sy: u16,
    region: InclusiveRectangle,
    painting: Option<Painting>,
) -> bool {
    let (l, t, r, b) = shown_of_surface(canvas, sx as int, sy as int, sw as int, sh as int, region);
    let (w, h) = (r - l + 1, b - t + 1);
    match painting {
        None => l > r || t > b,
        Some(p) => {
            &&& l <= r && t <= b
            &&& p.x == l - canvas.origin_x
            &&& p.y == t - canvas.origin_y
            &&& p.width == w
            &&& p.height == h
            &&& p.rgba@ == cut(fb, sw as int, l - sx, t - sy, w, h)
        },
    }
}

fn greater(a: u32, b: u32) -> (m: u32)
    ensures
        m == max(a as int, b as int),
{
    if a < b {
        b
    } else {
        a
    }
}

fn lesser(a: u32, b: u32) -> (m: u32)
    ensures
        m == min(a as int, b as int),
{
    if a < b {
        a
    } else {
        b
    }
}

/// Byte `row * n + j` of a bitmap with rows of `n` bytes is byte `j` of row `row`.
proof fn lemma_row_byte(row: int, j: int, n: int)
    requires
        0 <= row,
        0 <= j < n,
    ensures
        (row * n + j) / n == row,
        (row * n + j) % n == j,
        row * n >= 0,
{
    vstd::arithmetic::div_mod::lemma_fundamental_div_mod_converse(row * n + j, n, row, j);
    assert(row * n >= 0) by (nonlinear_arith)
        requires
            0 <= row,
            0 < n,
    ;
}

/// Sets the scratch buffer to `h` rows of `w` pixels of an image, from its pixel
/// `(x0, y0)` on. A row that the image does not hold keeps the old bytes.
#[verifier::rlimit(40)]
fn gather(buf: &mut Vec<u8>, data: &[u8], image_w: u16, x0: u32, y0: u32, w: u32, h: u32)
    requires
        1 <= w <= 0x1_0000,
        1 <= h <= 0x1_0000,
        x0 <= 0x2_0000,
        y0 <= 0x2_0000,
        w * h * 4 <= usize::MAX,
    ensures
        final(buf)@ == Seq::new(
            (w * h * 4) as nat,
            |k: int| painted_byte(data@, image_w as int, x0 as int, y0 as int, w as int, old(buf)@, k),
        ),
{
    let ghost scratch = buf@;
    let ghost n = w * 4;
    let ghost total = w * h * 4;
    let ghost goal = Seq::new(
        total as nat,
        |k: int| painted_byte(data@, image_w as int, x0 as int, y0 as int, w as int, scratch, k),
    );
    assert(w * h >= 1) by (nonlinear_arith)
        requires
            1 <= w,
            1 <= h,
    ;
    let row_bytes: usize = (w as usize) * 4;
    let size: usize = (w as usize) * (h as usize) * 4;
    buf.resize(size, 0);
    assert(forall|k: int| 0 <= k < total ==> #[trigger] buf@[k] == if k < scratch.len() {
        scratch[k]
    } else {
        0
    }) by {
        assert forall|k: int| 0 <= k < total implies #[trigger] buf@[k] == if k < scratch.len() {
            scratch[k]
        } else {
            0
        } by {
            if k < scratch.len() && size > scratch.len() {
                assert(buf@.subrange(0, scratch.len() as int)[k] == buf@[k]);
            }
        }
    }
    let mut row: usize = 0;
    while row < h as usize
        invariant
            1 <= w <= 0x1_0000,
            1 <= h <= 0x1_0000,
            x0 <= 0x2_0000,
            y0 <= 0x2_0000,
            n == w * 4,
            row_bytes == n,
            total == w * h * 4,
            total <= usize::MAX,
            row <= h,
            goal.len() == total,
            goal == Seq::new(
                total as nat,
                |k: int| painted_byte(data@, image_w as int, x0 as int, y0 as int, w as int, scratch, k),
            ),
            buf@.len() == total,
            forall|k: int| 0 <= k < row * n ==> #[trigger] buf@[k] == goal[k],
            forall|k: int|
                row * n <= k < total ==> #[trigger] buf@[k] == if k < scratch.len() {
                    scratch[k]
                } else {
                    0
                },
        decreases h - row,
    {
        let ghost start = row * n;
        let ghost stride = image_w * 4;
        proof {
            assert(0 <= (y0 + row) * (image_w * 4) <= 0x3_0000 * 0x4_0000) by (nonlinear_arith)
                requires
                    0 <= y0 <= 0x2_0000,
                    0 <= row <= 0x1_0000,
                    0 <= image_w <= 0xFFFF,
            ;
            assert(0 <= start && start + n == (row + 1) * n && (row + 1) * n <= total) by (nonlinear_arith)
                requires
                    start == row * n,
                    n == w * 4,
                    total == w * h * 4,
                    0 <= row < h,
                    1 <= w,
            ;
        }
        let from: u64 = ((y0 as u64) + (row as u64)) * ((image_w as u64) * 4) + (x0 as u64) * 4;
        if from + (row_bytes as u64) <= data.len() as u64 {
            let src: usize = from as usize;
            let dst: usize = row * row_bytes;
            let mut j: usize = 0;
            while j < row_bytes
                invariant
                    1 <= w <= 0x1_0000,
                    n == w * 4,
                    row_bytes == n,
                    total <= usize::MAX,
                    start == row * n,
                    dst == start,
                    0 <= start,
                    start + n <= total,
                    src == (y0 + row) * (image_w * 4) + x0 * 4,
                    src + n <= data.len(),
                    j <= n,
                    goal.len() == total,
                    goal == Seq::new(
                        total as nat,
                        |k: int| painted_byte(data@, image_w as int, x0 as int, y0 as int, w as int, scratch, k),
                    ),
                    buf@.len() == total,
                    forall|k: int| 0 <= k < start + j ==> #[trigger] buf@[k] == goal[k],
                    forall|k: int|
                        start + n <= k < total ==> #[trigger] buf@[k] == if k < scratch.len() {
                            scratch[k]
                        } else {
                            0
                        },
                decreases n - j,
            {
                let ghost before = buf@;
                buf[dst + j] = data[src + j];
                proof {
                    lemma_row_byte(row as int, j as int, n);
                    assert(goal[start + j] == data@[src + j]);
                    assert forall|k: int| 0 <= k < start + j + 1 implies #[trigger] buf@[k] == goal[k] by {
                        if k < start + j {
                            assert(buf@[k] == before[k]);
                        }
                    }
                    assert forall|k: int| start + n <= k < total implies #[trigger] buf@[k] == if k < scratch.len() {
                        scratch[k]
                    } else {
                        0
                    } by {
                        assert(buf@[k] == before[k]);
                    }
                }
                j = j + 1;
            }
        } else {
            proof {
                assert forall|k: int| 0 <= k < start + n implies #[trigger] buf@[k] == goal[k] by {
                    if k >= start {
                        lemma_row_byte(row as int, k - start, n);
                    }
                }
            }
        }
        row = row + 1;
    }
    assert(row * n == total) by (nonlinear_arith)
        requires
            row == h,
            n == w * 4,
            total == w * h * 4,
    ;
    assert(buf@ =~= goal);
}

impl Canvas {
    /// A canvas that shows nothing yet.
    pub fn new(origin_x: u16, origin_y: u16, width: u16, height: u16) -> (canvas: Canvas)
        ensures
            canvas.origin_x == origin_x,
            canvas.origin_y == origin_y,
            canvas.width == width,
            canvas.height == height,
            canvas.rgba_buf@ == Seq::<u8>::empty(),
    {
        Canvas { origin_x, origin_y, width, height, rgba_buf: Vec::new() }
    }

    /// Whether two canvases show the same rectangle.
    pub open spec fn same_place(self, other: Canvas) -> bool {
        &&& self.origin_x == other.origin_x
        &&& self.origin_y == other.origin_y
        &&& self.width == other.width
        &&& self.height == other.height
    }

    /// Whether the canvas can be drawn on: its last column and row exist as
    /// numbers, and its pixels fit in memory.
    pub open spec fn drawable(self) -> bool {
        &&& self.origin_x + self.width >= 1
        &&& self.origin_y + self.height >= 1
        &&& self.width * self.height * 4 <= usize::MAX
    }

    /// The part of a desktop image that a changed region covers on this canvas.
    /// `None` where the canvas shows none of the region.
    pub fn draw(&mut self, image_width: u16, data: &[u8], region: InclusiveRectangle) -> (painting: Option<Painting>)
        requires
            old(self).drawable(),
        ensures
            drawn(*old(self), *final(self), image_width, data@, region, painting),
    {
        let surf_left: u32 = self.origin_x as u32;
        let surf_top: u32 = self.origin_y as u32;
        let surf_right: u32 = surf_left + self.width as u32 - 1;
        let surf_bottom: u32 = surf_top + self.height as u32 - 1;
        let sx0: u32 = greater(region.left as u32, surf_left);
        let sy0: u32 = greater(region.top as u32, surf_top);
        let sx1: u32 = lesser(region.right as u32, surf_right);
        let sy1: u32 = lesser(region.bottom as u32, surf_bottom);
        if sx0 > sx1 || sy0 > sy1 {
            return None;
        }
        let w: u32 = sx1 - sx0 + 1;
        let h: u32 = sy1 - sy0 + 1;
        let x: u32 = sx0 - surf_left;
        let y: u32 = sy0 - surf_top;
        let ghost scratch = self.rgba_buf@;
        let ghost goal = Seq::new(
            (w * h * 4) as nat,
            |k: int| painted_byte(data@, image_width as int, sx0 as int, sy0 as int, w as int, scratch, k),
        );
        proof {
            assert(0 < w * h <= self.width * self.height <= 0xFFFF * 0xFFFF) by (nonlinear_arith)
                requires
                    1 <= w <= self.width <= 0xFFFF,
                    1 <= h <= self.height <= 0xFFFF,
            ;
        }
        if w == image_width as u32 && sx0 == 0 {
            proof {
                assert(0 <= sy0 * (image_width * 4) <= 0x2_0000 * 0x4_0000) by (nonlinear_arith)
                    requires
                        0 <= sy0 <= 0x2_0000,
                        0 <= image_width <= 0xFFFF,
                ;
            }
            let start: u64 = (sy0 as u64) * ((image_width as u64) * 4);
            let end: u64 = start + (w as u64) * (h as u64) * 4;
            if end <= data.len() as u64 {
                // The rows lie one behind the other: no copy row by row.
                let run = vstd::slice::slice_subrange(data, start as usize, end as usize);
                let rgba = crate::wire::copied(run);
                proof {
                    let n = w * 4;
                    let total = w * h * 4;
                    assert forall|k: int| 0 <= k < total implies #[trigger] rgba@[k] == goal[k] by {
                        let row = k / n;
                        vstd::arithmetic::div_mod::lemma_fundamental_div_mod(k, n);
                        vstd::arithmetic::div_mod::lemma_mod_bound(k, n);
                        vstd::arithmetic::div_mod::lemma_div_pos_is_pos(k, n);
                        assert(row < h) by (nonlinear_arith)
                            requires
                                k == n * row + k % n,
                                0 <= k % n,
                                0 <= k < total,
                                total == w * h * 4,
                                n == w * 4,
                                w >= 1,
                        ;
                        assert((sy0 + row) * (image_width * 4) == start + n * row) by (nonlinear_arith)
                            requires
                                start == sy0 * (image_width * 4),
                                n == image_width * 4,
                        ;
                        assert(n * row + n <= total) by (nonlinear_arith)
                            requires
                                0 <= row < h,
                                n == w * 4,
                                total == w * h * 4,
                                w >= 1,
                        ;
                    }
                    assert(rgba@ =~= goal);
                }
                return Some(Painting { x, y, width: w, height: h, rgba });
            }
        }
        gather(&mut self.rgba_buf, data, image_width, sx0, sy0, w, h);
        let rgba = crate::wire::copied(self.rgba_buf.as_slice());
        Some(Painting { x, y, width: w, height: h, rgba })
    }

    /// The part of a surface's pixels that a changed region covers on this canvas.
    /// The surface has `sw` by `sh` pixels and lies at `(sx, sy)` of the desktop.
    /// `None` where the canvas shows none of it.
    pub fn draw_rgba(&mut self, fb: &Vec<u8>, sw: u16, sh: u16, sx: u16, sy: u16, region: InclusiveRectangle) -> (painting: Option<
        Painting,
    >)
        requires
            old(self).drawable(),
            fb@.len() == sw * sh * 4,
        ensures
            *final(self) == *old(self),
            drawn_rgba(*old(self), fb@, sw, sh, sx, sy, region, painting),
    {
        if sw == 0 || sh == 0 {
            return None;
        }
        let surf_left: u32 = self.origin_x as u32;
        let surf_top: u32 = self.origin_y as u32;
        let right: u32 = lesser(surf_left + self.width as u32 - 1, sx as u32 + sw as u32 - 1);
        let bottom: u32 = lesser(surf_top + self.height as u32 - 1, sy as u32 + sh as u32 - 1);
        let x0: u32 = greater(region.left as u32, greater(surf_left, sx as u32));
        let y0: u32 = greater(region.top as u32, greater(surf_top, sy as u32));
        let x1: u32 = lesser(region.right as u32, right);
        let y1: u32 = lesser(region.bottom as u32, bottom);
        if x0 > x1 || y0 > y1 {
            return None;
        }
        let w: u32 = x1 - x0 + 1;
        let h: u32 = y1 - y0 + 1;
        let rgba = cut_out(
            fb,
            sw,
            sh,
            (x0 - sx as u32) as u16,
            (y0 - sy as u32) as u16,
            w as u16,
            h as u16,
        );
        Some(Painting { x: x0 - surf_left, y: y0 - surf_top, width: w, height: h, rgba })
    }
}

/// Draws a changed region of the desktop image on every canvas.
pub fn draw_all(surfaces: &mut Vec<Canvas>, image_width: u16, data: &[u8], region: InclusiveRectangle) -> (paintings: Vec<
    Option<Painting>,
>)
    requires
        forall|i: int| 0 <= i < old(surfaces)@.len() ==> (#[trigger] old(surfaces)@[i]).drawable(),
    ensures
        paintings@.len() == old(surfaces)@.len(),
        final(surfaces)@.len() == old(surfaces)@.len(),
        forall|i: int|
            #![trigger paintings@[i]]
            0 <= i < paintings@.len() ==> drawn(
                old(surfaces)@[i],
                final(surfaces)@[i],
                image_width,
                data@,
                region,
                paintings@[i],
            ),
{
    let mut paintings: Vec<Option<Painting>> = Vec::new();
    let n: usize = surfaces.len();
    let mut i: usize = 0;
    while i < n
        invariant
            i <= n,
            n == surfaces@.len(),
            n == old(surfaces)@.len(),
            paintings@.len() == i,
            forall|j: int| 0 <= j < n ==> (#[trigger] old(surfaces)@[j]).drawable(),
            forall|j: int| i <= j < n ==> #[trigger] surfaces@[j] == old(surfaces)@[j],
            forall|j: int|
                #![trigger paintings@[j]]
                0 <= j < i ==> drawn(
                    old(surfaces)@[j],
                    surfaces@[j],
                    image_width,
                    data@,
                    region,
                    paintings@[j],
                ),
        decreases n - i,
    {
        assert(old(surfaces)@[i as int].drawable());
        let painting = surfaces[i].draw(image_width, data, region);
        paintings.push(painting);
        i = i + 1;
    }
    paintings
}

/// Draws changed regions of a surface on every canvas, one after the other.
pub fn blit_all(
    surfaces: &mut Vec<Canvas>,
    fb: &Vec<u8>,
    sw: u16,
    sh: u16,
    sx: u16,
    sy: u16,
    regions: &Vec<InclusiveRectangle>,
) -> (paintings: Vec<(usize, Painting)>)
    requires
        forall|i: int| 0 <= i < old(surfaces)@.len() ==> (#[trigger] old(surfaces)@[i]).drawable(),
        fb@.len() == sw * sh * 4,
    ensures
        final(surfaces)@ == old(surfaces)@,
        blitted(old(surfaces)@, fb@, sw, sh, sx, sy, regions@, paintings@),
{
    let mut paintings: Vec<(usize, Painting)> = Vec::new();
    let n: usize = surfaces.len();
    let ghost canvases = surfaces@;
    let mut j: usize = 0;
    assert(regions@.take(0) =~= seq![]);
    while j < regions.len()
        invariant
            j <= regions@.len(),
            n == surfaces@.len(),
            surfaces@ == canvases,
            fb@.len() == sw * sh * 4,
            forall|k: int| 0 <= k < canvases.len() ==> (#[trigger] canvases[k]).drawable(),
            blitted(canvases, fb@, sw, sh, sx, sy, regions@.take(j as int), paintings@),
        decreases regions@.len() - j,
    {
        let region: InclusiveRectangle = regions[j];
        let ghost earlier = paintings@;
        let mut i: usize = 0;
        assert(canvases.take(0) =~= seq![]);
        assert(paintings@.skip(earlier.len() as int) =~= seq![]);
        assert(paintings@.take(earlier.len() as int) =~= earlier);
        while i < n
            invariant
                i <= n,
                n == surfaces@.len(),
                surfaces@ == canvases,
                fb@.len() == sw * sh * 4,
                forall|k: int| 0 <= k < canvases.len() ==> (#[trigger] canvases[k]).drawable(),
                earlier.len() <= paintings@.len(),
                paintings@.take(earlier.len() as int) == earlier,
                on_canvases(
                    canvases.take(i as int),
                    fb@,
                    sw,
                    sh,
                    sx,
                    sy,
                    region,
                    paintings@.skip(earlier.len() as int),
                ),
            decreases n - i,
        {
            assert(canvases[i as int].drawable());
            let ghost before = paintings@;
            let painting = surfaces[i].draw_rgba(fb, sw, sh, sx, sy, region);
            assert(surfaces@ =~= canvases);
            assert(canvases.take(i + 1).drop_last() =~= canvases.take(i as int));
            assert(canvases.take(i + 1).last() == canvases[i as int]);
            match painting {
                Some(p) => {
                    paintings.push((i, p));
                    proof {
                        let now = paintings@.skip(earlier.len() as int);
                        assert(now.drop_last() =~= before.skip(earlier.len() as int));
                        assert(paintings@.take(earlier.len() as int) =~= earlier);
                    }
                }
                None => {}
            }
            i = i + 1;
        }
        proof {
            assert(canvases.take(i as int) =~= canvases);
            assert(regions@.take(j + 1).drop_last() =~= regions@.take(j as int));
            assert(regions@.take(j + 1).last() == region);
        }
        j = j + 1;
    }
    assert(regions@.take(j as int) =~= regions@);
    paintings
}

/// What drawing one region of a surface on canvases gives: for each canvas that shows
/// some of it, in order, its number and its pixels.
pub open spec fn on_canvases(
    canvases: Seq<Canvas>,
    fb: Seq<u8>,
    sw: u16,
    sh: u16,
    sx: u16,
    sy: u16,
    region: InclusiveRectangle,
    paintings: Seq<(usize, Painting)>,
) -> bool
    decreases canvases.len(),
{
    if canvases.len() == 0 {
        paintings.len() == 0
    } else if drawn_rgba(canvases.last(), fb, sw, sh, sx, sy, region, None) {
        on_canvases(canvases.drop_last(), fb, sw, sh, sx, sy, region, paintings)
    } else {
        &&& paintings.len() > 0
        &&& paintings.last().0 == canvases.len() - 1
        &&& drawn_rgba(canvases.last(), fb, sw, sh, sx, sy, region, Some(paintings.last().1))
        &&& on_canvases(canvases.drop_last(), fb, sw, sh, sx, sy, region, paintings.drop_last())
    }
}

/// What drawing regions of a surface gives: the pixels for the first region, then those
/// for the next.
pub open spec fn blitted(
    canvases: Seq<Canvas>,
    fb: Seq<u8>,
    sw: u16,
    sh: u16,
    sx: u16,
    sy: u16,
    regions: Seq<InclusiveRectangle>,
    paintings: Seq<(usize, Painting)>,
) -> bool
    decreases regions.len(),
{
    if regions.len() == 0 {
        paintings.len() == 0
    } else {
        exists|k: int|
            0 <= k <= paintings.len() && on_canvases(
                canvases,
                fb,
                sw,
                sh,
                sx,
                sy,
                regions.last(),
                #[trigger] paintings.skip(k),
            ) && blitted(canvases, fb, sw, sh, sx, sy, regions.drop_last(), paintings.take(k))
    }
}

/// The decimal digits of a number.
pub open spec fn decimal(n: nat) -> Seq<char>
    decreases n,
{
    if n < 10 {
        seq![digit(n as int)]
    } else {
        decimal(n / 10).push(digit((n % 10) as int))
    }
}

fn put_decimal(out: &mut String, n: u32)
    ensures
        final(out)@ == old(out)@ + decimal(n as nat),
    decreases n,
{
    if n >= 10 {
        put_decimal(out, n / 10);
    }
    out.push(digit_char((n % 10) as u8));
    assert(out@ =~= old(out)@ + decimal(n as nat));
}

fn digit_char(n: u8) -> (c: char)
    requires
        n < 10,
    ensures
        c == digit(n as int),
{
    (48 + n) as char
}

/// The style that shows an image as the cursor, with its hot spot, and the browser's
/// own cursor where it cannot.
pub fn custom_cursor_style(data_url: &str, hotspot_x: u32, hotspot_y: u32) -> (style: String)
    ensures
        style@ == "url("@ + data_url@ + ") "@ + decimal(hotspot_x as nat) + " "@ + decimal(hotspot_y as nat)
            + ", auto"@,
{
    let mut style = String::new();
    put_text(&mut style, "url(");
    put_text(&mut style, data_url);
    put_text(&mut style, ") ");
    put_decimal(&mut style, hotspot_x);
    put_text(&mut style, " ");
    put_decimal(&mut style, hotspot_y);
    put_text(&mut style, ", auto");
    assert(style@ =~= "url("@ + data_url@ + ") "@ + decimal(hotspot_x as nat) + " "@ + decimal(hotspot_y as nat)
        + ", auto"@);
    style
}

/// A canvas shows only its own rectangle of the desktop: a painting lies on it.
pub proof fn law_painting_lies_on_canvas(ox: int, oy: int, w: int, h: int, region: InclusiveRectangle)
    requires
        0 <= ox,
        0 <= oy,
    ensures
        ({
            let (l, t, r, b) = shown(ox, oy, w, h, region);
            l <= r && t <= b ==> 0 <= l - ox && r - ox < w && 0 <= t - oy && b - oy < h
        }),
{
}

/// Where the desktop image holds the shown rectangle, every painted pixel is the
/// image's pixel of the same place, whatever the scratch rows hold.
pub proof fn law_painting_shows_the_image(
    data: Seq<u8>,
    image_w: int,
    image_h: int,
    l: int,
    t: int,
    w: int,
    h: int,
    scratch: Seq<u8>,
    x: int,
    y: int,
    c: int,
)
    requires
        data.len() == image_w * image_h * 4,
        0 <= l,
        0 <= t,
        l + w <= image_w,
        t + h <= image_h,
        0 <= x < w,
        0 <= y < h,
        0 <= c < 4,
    ensures
        painted_byte(data, image_w, l, t, w, scratch, (y * w + x) * 4 + c) == data[((t + y) * image_w + l + x) * 4
            + c],
{
    let n = w * 4;
    let k = (y * w + x) * 4 + c;
    assert((y * w + x) * 4 + c == y * n + (x * 4 + c)) by (nonlinear_arith)
        requires
            n == w * 4,
    ;
    lemma_row_byte(y, x * 4 + c, n);
    let from = (t + y) * (image_w * 4) + l * 4;
    assert((t + y) * (image_w * 4) == ((t + y) * image_w) * 4) by (nonlinear_arith);
    assert((t + y) * image_w + image_w <= image_w * image_h) by (nonlinear_arith)
        requires
            0 <= t + y < image_h,
            0 <= image_w,
    ;
    assert(from + n <= data.len());
}

/// Whether a place on the desktop lies in a region.
pub open spec fn in_region(region: InclusiveRectangle, x: int, y: int) -> bool {
    region.left <= x <= region.right && region.top <= y <= region.bottom
}

/// Whether a canvas shows a place on the desktop.
pub open spec fn in_view(canvas: Canvas, x: int, y: int) -> bool {
    canvas.origin_x <= x < canvas.origin_x + canvas.width && canvas.origin_y <= y < canvas.origin_y + canvas.height
}

/// Whether a painting on a canvas reaches a place on the desktop.
pub open spec fn paints(canvas: Canvas, p: Painting, x: int, y: int) -> bool {
    p.x <= x - canvas.origin_x < p.x + p.width && p.y <= y - canvas.origin_y < p.y + p.height
}

/// The number of the first byte of a place on the desktop in a painting that reaches it.
pub open spec fn paint_index(canvas: Canvas, p: Painting, x: int, y: int) -> int {
    ((y - canvas.origin_y - p.y) * p.width + (x - canvas.origin_x - p.x)) * 4
}

/// Drawing a changed region of the desktop image paints, on a canvas, exactly the places of the
/// region that the canvas shows, each with the image's pixel of that place.
pub proof fn law_drawing_shows_the_region(
    before: Canvas,
    after: Canvas,
    image_w: u16,
    image_h: u16,
    data: Seq<u8>,
    region: InclusiveRectangle,
    painting: Option<Painting>,
    x: int,
    y: int,
    c: int,
)
    requires
        drawn(before, after, image_w, data, region, painting),
        data.len() == image_w * image_h * 4,
        region.right < image_w,
        region.bottom < image_h,
        0 <= c < 4,
    ensures
        after.origin_x == before.origin_x && after.origin_y == before.origin_y,
        after.width == before.width && after.height == before.height,
        in_region(region, x, y) && in_view(before, x, y) ==> painting is Some,
        painting matches Some(p) ==> {
            &&& p.rgba@.len() == p.width * p.height * 4
            &&& paints(before, p, x, y) == (in_region(region, x, y) && in_view(before, x, y))
            &&& paints(before, p, x, y) ==> p.rgba@[paint_index(before, p, x, y) + c] == data[(y * image_w + x) * 4 + c]
        },
{
    let (l, t, r, b) = shown(
        before.origin_x as int,
        before.origin_y as int,
        before.width as int,
        before.height as int,
        region,
    );
    match painting {
        Some(p) => {
            let (w, h) = (r - l + 1, b - t + 1);
            assert(w * h >= 0) by (nonlinear_arith)
                requires
                    w >= 0,
                    h >= 0,
            ;
            if paints(before, p, x, y) {
                law_painting_shows_the_image(
                    data,
                    image_w as int,
                    image_h as int,
                    l,
                    t,
                    w,
                    h,
                    before.rgba_buf@,
                    x - l,
                    y - t,
                    c,
                );
                crate::pixels::lemma_inside(x - l, y - t, w, h);
                assert(crate::pixels::at_pixel(x - l, y - t, w) == ((y - t) * w + (x - l)) * 4);
            }
        },
        None => {},
    }
}

/// Drawing a changed region of a surface at `(sx, sy)` paints, on a canvas, exactly the places
/// of the region that both the surface and the canvas show, each with the surface's pixel of
/// that place.
pub proof fn law_surface_drawing_shows_the_region(
    canvas: Canvas,
    fb: Seq<u8>,
    sw: u16,
    sh: u16,
    sx: u16,
    sy: u16,
    region: InclusiveRectangle,
    painting: Option<Painting>,
    x: int,
    y: int,
    c: int,
)
    requires
        drawn_rgba(canvas, fb, sw, sh, sx, sy, region, painting),
        fb.len() == sw * sh * 4,
        0 <= c < 4,
    ensures
        ({
            let seen = in_region(region, x, y) && in_view(canvas, x, y) && sx <= x < sx + sw && sy <= y < sy + sh;
            &&& seen ==> painting is Some
            &&& painting matches Some(p) ==> {
                &&& p.rgba@.len() == p.width * p.height * 4
                &&& paints(canvas, p, x, y) == seen
                &&& paints(canvas, p, x, y) ==> p.rgba@[paint_index(canvas, p, x, y) + c] == fb[((y - sy) * sw + (x
                    - sx)) * 4 + c]
            }
        }),
{
    let (l, t, r, b) = shown_of_surface(canvas, sx as int, sy as int, sw as int, sh as int, region);
    match painting {
        Some(p) => {
            let (w, h) = (r - l + 1, b - t + 1);
            assert(w * h >= 0) by (nonlinear_arith)
                requires
                    w >= 0,
                    h >= 0,
            ;
            if paints(canvas, p, x, y) {
                let k = ((y - t) * w + (x - l)) * 4 + c;
                crate::pixels::lemma_place(x - l, y - t, c, w);
                crate::pixels::lemma_inside(x - l, y - t, w, h);
                assert(crate::pixels::at_pixel(x - l, y - t, w) + c == k);
                assert(l - sx + (x - l) == x - sx && t - sy + (y - t) == y - sy);
            }
        },
        None => {},
    }
}

proof fn lemma_on_canvases(
    canvases: Seq<Canvas>,
    fb: Seq<u8>,
    sw: u16,
    sh: u16,
    sx: u16,
    sy: u16,
    region: InclusiveRectangle,
    paintings: Seq<(usize, Painting)>,
    i: int,
)
    requires
        0 <= i < canvases.len(),
        on_canvases(canvases, fb, sw, sh, sx, sy, region, paintings),
        !drawn_rgba(canvases[i], fb, sw, sh, sx, sy, region, None),
    ensures
        exists|k: int|
            0 <= k < paintings.len() && (#[trigger] paintings[k]).0 == i && drawn_rgba(
                canvases[i],
                fb,
                sw,
                sh,
                sx,
                sy,
                region,
                Some(paintings[k].1),
            ),
    decreases canvases.len(),
{
    let front = canvases.drop_last();
    if i == canvases.len() - 1 {
        assert(paintings[paintings.len() - 1] == paintings.last());
    } else {
        assert(front[i] == canvases[i]);
        if drawn_rgba(canvases.last(), fb, sw, sh, sx, sy, region, None) {
            lemma_on_canvases(front, fb, sw, sh, sx, sy, region, paintings, i);
        } else {
            let fewer = paintings.drop_last();
            lemma_on_canvases(front, fb, sw, sh, sx, sy, region, fewer, i);
            let k = choose|k: int|
                0 <= k < fewer.len() && (#[trigger] fewer[k]).0 == i && drawn_rgba(
                    front[i],
                    fb,
                    sw,
                    sh,
                    sx,
                    sy,
                    region,
                    Some(fewer[k].1),
                );
            assert(paintings[k] == fewer[k]);
        }
    }
}

proof fn lemma_blitted(
    canvases: Seq<Canvas>,
    fb: Seq<u8>,
    sw: u16,
    sh: u16,
    sx: u16,
    sy: u16,
    regions: Seq<InclusiveRectangle>,
    paintings: Seq<(usize, Painting)>,
    i: int,
    j: int,
)
    requires
        0 <= i < canvases.len(),
        0 <= j < regions.len(),
        blitted(canvases, fb, sw, sh, sx, sy, regions, paintings),
        !drawn_rgba(canvases[i], fb, sw, sh, sx, sy, regions[j], None),
    ensures
        exists|k: int|
            0 <= k < paintings.len() && (#[trigger] paintings[k]).0 == i && drawn_rgba(
                canvases[i],
                fb,
                sw,
                sh,
                sx,
                sy,
                regions[j],
                Some(paintings[k].1),
            ),
    decreases regions.len(),
{
    let n = choose|n: int|
        0 <= n <= paintings.len() && on_canvases(
            canvases,
            fb,
            sw,
            sh,
            sx,
            sy,
            regions.last(),
            #[trigger] paintings.skip(n),
        ) && blitted(canvases, fb, sw, sh, sx, sy, regions.drop_last(), paintings.take(n));
    if j == regions.len() - 1 {
        let later = paintings.skip(n);
        lemma_on_canvases(canvases, fb, sw, sh, sx, sy, regions[j], later, i);
        let k = choose|k: int|
            0 <= k < later.len() && (#[trigger] later[k]).0 == i && drawn_rgba(
                canvases[i],
                fb,
                sw,
                sh,
                sx,
                sy,
                regions[j],
                Some(later[k].1),
            );
        assert(paintings[n + k] == later[k]);
    } else {
        let earlier = paintings.take(n);
        assert(regions.drop_last()[j] == regions[j]);
        lemma_blitted(canvases, fb, sw, sh, sx, sy, regions.drop_last(), earlier, i, j);
        let k = choose|k: int|
            0 <= k < earlier.len() && (#[trigger] earlier[k]).0 == i && drawn_rgba(
                canvases[i],
                fb,
                sw,
                sh,
                sx,
                sy,
                regions[j],
                Some(earlier[k].1),
            );
        assert(paintings[k] == earlier[k]);
    }
}

/// Every place of a presented region reaches every canvas that shows it, with the surface's
/// pixel of that place.
pub proof fn law_blit_reaches_every_canvas(
    canvases: Seq<Canvas>,
    fb: Seq<u8>,
    sw: u16,
    sh: u16,
    sx: u16,
    sy: u16,
    regions: Seq<InclusiveRectangle>,
    paintings: Seq<(usize, Painting)>,
    i: int,
    j: int,
    x: int,
    y: int,
    c: int,
)
    requires
        blitted(canvases, fb, sw, sh, sx, sy, regions, paintings),
        fb.len() == sw * sh * 4,
        0 <= i < canvases.len(),
        0 <= j < regions.len(),
        in_region(regions[j], x, y),
        in_view(canvases[i], x, y),
        sx <= x < sx + sw,
        sy <= y < sy + sh,
        0 <= c < 4,
    ensures
        exists|k: int|
            0 <= k < paintings.len() && (#[trigger] paintings[k]).0 == i && paints(canvases[i], paintings[k].1, x, y)
                && paintings[k].1.rgba@[paint_index(canvases[i], paintings[k].1, x, y) + c] == fb[((y - sy) * sw + (x
                - sx)) * 4 + c],
{
    if drawn_rgba(canvases[i], fb, sw, sh, sx, sy, regions[j], None) {
        law_surface_drawing_shows_the_region(canvases[i], fb, sw, sh, sx, sy, regions[j], None, x, y, c);
    }
    lemma_blitted(canvases, fb, sw, sh, sx, sy, regions, paintings, i, j);
    let k = choose|k: int|
        0 <= k < paintings.len() && (#[trigger] paintings[k]).0 == i && drawn_rgba(
            canvases[i],
            fb,
            sw,
            sh,
            sx,
            sy,
            regions[j],
            Some(paintings[k].1),
        );
    law_surface_drawing_shows_the_region(
        canvases[i],
        fb,
        sw,
        sh,
        sx,
        sy,
        regions[j],
        Some(paintings[k].1),
        x,
        y,
        c,
    );
}

/// The number that decimal digits write.
pub open spec fn number_of(digits: Seq<char>) -> int
    decreases digits.len(),
{
    if digits.len() == 0 {
        0
    } else {
        number_of(digits.drop_last()) * 10 + (digits.last() as int - '0' as int)
    }
}

/// A number that is written in decimal reads back, and is written in digits alone, without
/// zeros in front.
pub proof fn law_decimal_reads_back(n: nat)
    ensures
        number_of(decimal(n)) == n,
        decimal(n).len() > 0,
        forall|i: int| 0 <= i < decimal(n).len() ==> '0' <= #[trigger] decimal(n)[i] <= '9',
        n > 0 ==> decimal(n)[0] != '0',
    decreases n,
{
    reveal_with_fuel(number_of, 2);
    if n >= 10 {
        law_decimal_reads_back(n / 10);
        assert(decimal(n).drop_last() =~= decimal(n / 10));
    } else {
        assert(decimal(n).drop_last() =~= Seq::<char>::empty());
    }
}

proof fn lemma_only_on_canvases(
    canvases: Seq<Canvas>,
    fb: Seq<u8>,
    sw: u16,
    sh: u16,
    sx: u16,
    sy: u16,
    region: InclusiveRectangle,
    paintings: Seq<(usize, Painting)>,
    k: int,
)
    requires
        0 <= k < paintings.len(),
        on_canvases(canvases, fb, sw, sh, sx, sy, region, paintings),
    ensures
        0 <= paintings[k].0 < canvases.len(),
        drawn_rgba(canvases[paintings[k].0 as int], fb, sw, sh, sx, sy, region, Some(paintings[k].1)),
    decreases canvases.len(),
{
    let front = canvases.drop_last();
    if drawn_rgba(canvases.last(), fb, sw, sh, sx, sy, region, None) {
        lemma_only_on_canvases(front, fb, sw, sh, sx, sy, region, paintings, k);
        assert(front[paintings[k].0 as int] == canvases[paintings[k].0 as int]);
    } else if k < paintings.len() - 1 {
        let fewer = paintings.drop_last();
        lemma_only_on_canvases(front, fb, sw, sh, sx, sy, region, fewer, k);
        assert(fewer[k] == paintings[k]);
        assert(front[paintings[k].0 as int] == canvases[paintings[k].0 as int]);
    }
}

/// Nothing is painted but what was asked for: every painting is on one of the canvases, and every
/// place that it reaches lies in one of the regions, on the canvas and on the surface.
pub proof fn law_blit_paints_nothing_else(
    canvases: Seq<Canvas>,
    fb: Seq<u8>,
    sw: u16,
    sh: u16,
    sx: u16,
    sy: u16,
    regions: Seq<InclusiveRectangle>,
    paintings: Seq<(usize, Painting)>,
    k: int,
    x: int,
    y: int,
)
    requires
        blitted(canvases, fb, sw, sh, sx, sy, regions, paintings),
        fb.len() == sw * sh * 4,
        0 <= k < paintings.len(),
    ensures
        0 <= paintings[k].0 < canvases.len(),
        paints(canvases[paintings[k].0 as int], paintings[k].1, x, y) ==> {
            &&& exists|j: int| 0 <= j < regions.len() && in_region(#[trigger] regions[j], x, y)
            &&& in_view(canvases[paintings[k].0 as int], x, y)
            &&& sx <= x < sx + sw
            &&& sy <= y < sy + sh
        },
    decreases regions.len(),
{
    let n = choose|n: int|
        0 <= n <= paintings.len() && on_canvases(
            canvases,
            fb,
            sw,
            sh,
            sx,
            sy,
            regions.last(),
            #[trigger] paintings.skip(n),
        ) && blitted(canvases, fb, sw, sh, sx, sy, regions.drop_last(), paintings.take(n));
    if k >= n {
        let later = paintings.skip(n);
        assert(later[k - n] == paintings[k]);
        lemma_only_on_canvases(canvases, fb, sw, sh, sx, sy, regions.last(), later, k - n);
        law_surface_drawing_shows_the_region(
            canvases[paintings[k].0 as int],
            fb,
            sw,
            sh,
            sx,
            sy,
            regions.last(),
            Some(paintings[k].1),
            x,
            y,
            0,
        );
        assert(regions[regions.len() - 1] == regions.last());
    } else {
        let earlier = paintings.take(n);
        let front = regions.drop_last();
        assert(earlier[k] == paintings[k]);
        law_blit_paints_nothing_else(canvases, fb, sw, sh, sx, sy, front, earlier, k, x, y);
        if paints(canvases[paintings[k].0 as int], paintings[k].1, x, y) {
            let j = choose|j: int| 0 <= j < front.len() && in_region(#[trigger] front[j], x, y);
            assert(regions[j] == front[j]);
        }
    }
}

} // verus!
