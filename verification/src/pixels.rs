//! Rectangles of RGBA bitmaps: cutting, pasting and filling.
//!
//! A bitmap of `w` by `h` pixels is a run of `w * h * 4` bytes, rows from the top,
//! four bytes for each pixel.

use vstd::prelude::*;

verus! {

/// A rectangle with inclusive edges.
#[derive(Debug, Clone, Copy, PartialEq, Eq)]
pub struct InclusiveRectangle {
    pub left: u16,
    pub top: u16,
    pub right: u16,
    pub bottom: u16,
}

/// A rectangle whose right and bottom edges do not belong to it.
#[derive(Debug, Clone, Copy, PartialEq, Eq)]
pub struct ExclusiveRectangle {
    pub left: u16,
    pub top: u16,
    pub right: u16,
    pub bottom: u16,
}

/// A place on a surface.
#[derive(Debug, Clone, Copy, PartialEq, Eq)]
pub struct Point {
    pub x: u16,
    pub y: u16,
}

pub open spec fn min(a: int, b: int) -> int {
    if a < b {
        a
    } else {
        b
    }
}

/// The column of the pixel that byte `k` of a bitmap belongs to.
pub open spec fn col_of(k: int, w: int) -> int {
    (k / 4) % w
}

/// The row of the pixel that byte `k` of a bitmap belongs to.
pub open spec fn row_of(k: int, w: int) -> int {
    (k / 4) / w
}

/// The first byte of pixel `(x, y)`.
pub open spec fn at_pixel(x: int, y: int, w: int) -> int {
    (y * w + x) * 4
}

/// Whether the row of a pasted block that lands on row `y` is long enough in the
/// block's bytes: the part that fits on the bitmap must be there.
pub open spec fn row_present(w: int, dx: int, dy: int, block_len: int, bw: int, y: int) -> bool {
    ((y - dy) * bw + min(bw, w - dx)) * 4 <= block_len
}

/// Whether pasting a block of `bw` by `bh` pixels at `(dx, dy)` sets byte `k`.
pub open spec fn pasted_on(k: int, w: int, dx: int, dy: int, block_len: int, bw: int, bh: int) -> bool {
    &&& dx <= col_of(k, w) < dx + bw
    &&& dy <= row_of(k, w) < dy + bh
    &&& row_present(w, dx, dy, block_len, bw, row_of(k, w))
}

/// A bitmap of width `w` with a block of `bw` by `bh` pixels pasted at `(dx, dy)`.
/// What does not fit is cut off, and a row that the block's bytes do not hold is
/// left as it was.
pub open spec fn pasted(fb: Seq<u8>, w: int, dx: int, dy: int, block: Seq<u8>, bw: int, bh: int) -> Seq<u8> {
    Seq::new(
        fb.len(),
        |k: int|
            if pasted_on(k, w, dx, dy, block.len() as int, bw, bh) {
                block[at_pixel(col_of(k, w) - dx, row_of(k, w) - dy, bw) + k % 4]
            } else {
                fb[k]
            },
    )
}

/// The block of `bw` by `bh` pixels at `(x0, y0)` of a bitmap of width `w`.
pub open spec fn cut(fb: Seq<u8>, w: int, x0: int, y0: int, bw: int, bh: int) -> Seq<u8> {
    Seq::new(
        (bw * bh * 4) as nat,
        |k: int| fb[at_pixel(x0 + col_of(k, bw), y0 + row_of(k, bw), w) + k % 4],
    )
}

/// A bitmap of width `w` with the pixels of `[x0, x1)` by `[y0, y1)` set to `rgba`.
pub open spec fn filled(fb: Seq<u8>, w: int, x0: int, y0: int, x1: int, y1: int, rgba: Seq<u8>) -> Seq<u8> {
    Seq::new(
        fb.len(),
        |k: int|
            if x0 <= col_of(k, w) < x1 && y0 <= row_of(k, w) < y1 {
                rgba[k % 4]
            } else {
                fb[k]
            },
    )
}

// ---------------------------------------------------------------------------
// Arithmetic of places
// ---------------------------------------------------------------------------
/// A byte's place in a bitmap, from its pixel and its place in it.
pub proof fn lemma_place(x: int, y: int, c: int, w: int)
    requires
        0 <= x < w,
        0 <= y,
        0 <= c < 4,
    ensures
        col_of(at_pixel(x, y, w) + c, w) == x,
        row_of(at_pixel(x, y, w) + c, w) == y,
        (at_pixel(x, y, w) + c) % 4 == c,
        at_pixel(x, y, w) >= 0,
{
    assert(y * w >= 0) by (nonlinear_arith)
        requires
            0 <= y,
            0 < w,
    ;
    let p = y * w + x;
    assert((p * 4 + c) / 4 == p && (p * 4 + c) % 4 == c);
    vstd::arithmetic::div_mod::lemma_fundamental_div_mod_converse(p, w, y, x);
}

/// Every byte has a place: the inverse of [`lemma_place`].
pub proof fn lemma_unplace(k: int, w: int)
    requires
        0 <= k,
        0 < w,
    ensures
        at_pixel(col_of(k, w), row_of(k, w), w) + k % 4 == k,
        0 <= col_of(k, w) < w,
        0 <= row_of(k, w),
{
    let p = k / 4;
    vstd::arithmetic::div_mod::lemma_fundamental_div_mod(p, w);
    assert(row_of(k, w) * w == w * (p / w)) by (nonlinear_arith)
        requires
            row_of(k, w) == p / w,
    ;
    vstd::arithmetic::div_mod::lemma_mod_bound(p, w);
    vstd::arithmetic::div_mod::lemma_div_pos_is_pos(p, w);
}

/// A pixel inside a bitmap has its bytes inside.
pub proof fn lemma_inside(x: int, y: int, w: int, h: int)
    requires
        0 <= x < w,
        0 <= y < h,
    ensures
        0 <= at_pixel(x, y, w),
        at_pixel(x, y, w) + 4 <= w * h * 4,
{
    assert(0 <= y * w && y * w + w <= w * h) by (nonlinear_arith)
        requires
            0 <= y < h,
            0 < w,
    ;
}

/// A byte inside a bitmap belongs to one of its rows.
pub proof fn lemma_row_inside(k: int, w: int, h: int)
    requires
        0 <= k < w * h * 4,
        0 < w,
    ensures
        0 <= row_of(k, w) < h,
{
    lemma_unplace(k, w);
    let y = row_of(k, w);
    if y >= h {
        assert(y * w >= h * w) by (nonlinear_arith)
            requires
                y >= h,
                w > 0,
        ;
        assert(h * w == w * h) by (nonlinear_arith);
    }
}

/// The next pixel of a row is four bytes on.
proof fn lemma_along_row(x: int, y: int, w: int, d: int)
    ensures
        at_pixel(x + d, y, w) == at_pixel(x, y, w) + 4 * d,
{
}

// ---------------------------------------------------------------------------
// Doing it
// ---------------------------------------------------------------------------
/// The part of a paste that is done once all of the rows before `row` and `j`
/// bytes of `row` have been copied.
spec fn paste_done(k: int, w: int, dx: int, dy: int, bw: int, row: int, j: int) -> bool {
    let y = row_of(k, w) - dy;
    y < row || (y == row && (col_of(k, w) - dx) * 4 + k % 4 < j)
}

spec fn paste_partial(
    fb: Seq<u8>,
    w: int,
    dx: int,
    dy: int,
    block: Seq<u8>,
    bw: int,
    bh: int,
    row: int,
    j: int,
) -> Seq<u8> {
    Seq::new(
        fb.len(),
        |k: int|
            if pasted_on(k, w, dx, dy, block.len() as int, bw, bh) && paste_done(k, w, dx, dy, bw, row, j) {
                block[at_pixel(col_of(k, w) - dx, row_of(k, w) - dy, bw) + k % 4]
            } else {
                fb[k]
            },
    )
}

/// Pastes a block of `bw` by `bh` pixels at `(dx, dy)` of a bitmap of `w` by `h`
/// pixels.
#[verifier::rlimit(40)]
pub fn paste(fb: &mut Vec<u8>, w: u16, h: u16, dx: u16, dy: u16, block: &[u8], bw: u16, bh: u16)
    requires
        old(fb)@.len() == w * h * 4,
    ensures
        final(fb)@ == pasted(old(fb)@, w as int, dx as int, dy as int, block@, bw as int, bh as int),
{
    let ghost fb0 = fb@;
    let ghost n = block.len() as int;
    assert(fb0.len() == fb.len());
    let ghost goal = pasted(fb0, w as int, dx as int, dy as int, block@, bw as int, bh as int);
    if dx >= w {
        assert forall|k: int| 0 <= k < fb0.len() implies fb0[k] == #[trigger] goal[k] by {
            if w > 0 {
                lemma_unplace(k, w as int);
            }
        }
        assert(fb@ =~= goal);
        return;
    }
    let cw: usize = if bw < w - dx {
        bw as usize
    } else {
        (w - dx) as usize
    };
    let mut row: usize = 0;
    assert(fb@ =~= paste_partial(fb0, w as int, dx as int, dy as int, block@, bw as int, bh as int, 0, 0)) by {
        assert forall|k: int| 0 <= k < fb0.len() && pasted_on(k, w as int, dx as int, dy as int, n, bw as int, bh as int)
            implies !paste_done(k, w as int, dx as int, dy as int, bw as int, 0, 0) by {
            lemma_unplace(k, w as int);
        }
    }
    while row < bh as usize && row + (dy as usize) < h as usize
        invariant
            fb0.len() == w * h * 4,
            n == block.len(),
            fb0.len() <= usize::MAX,
            dx < w,
            cw == min(bw as int, w - dx),
            row <= bh,
            fb@ == paste_partial(
                fb0,
                w as int,
                dx as int,
                dy as int,
                block@,
                bw as int,
                bh as int,
                row as int,
                0,
            ),
        decreases bh - row,
    {
        let ghost y = dy + row;
        proof {
            assert(0 <= row * bw <= 0xFFFF * 0xFFFF) by (nonlinear_arith)
                requires
                    0 <= row <= 0xFFFF,
                    0 <= bw <= 0xFFFF,
            ;
        }
        let needed: u64 = ((row as u64) * (bw as u64) + (cw as u64)) * 4;
        if needed <= block.len() as u64 {
            proof {
                lemma_inside(dx as int, y, w as int, h as int);
                lemma_inside(w as int - 1, y, w as int, h as int);
                lemma_along_row(dx as int, y, w as int, w - 1 - dx);
                assert(y * w + dx >= 0) by (nonlinear_arith)
                    requires
                        0 <= y,
                        0 <= w,
                        0 <= dx,
                ;
                assert((dy + row) * w == y * w);
                assert((dy + row) * w >= 0) by (nonlinear_arith)
                    requires
                        0 <= dy,
                        0 <= row,
                        0 <= w,
                ;
            }
            let from: usize = row * (bw as usize) * 4;
            let to: usize = (((dy as usize) + row) * (w as usize) + (dx as usize)) * 4;
            let mut j: usize = 0;
            while j < 4 * cw
                invariant
                    fb0.len() == w * h * 4,
                    n == block.len(),
                    fb0.len() <= usize::MAX,
                    dx < w,
                    cw == min(bw as int, w - dx),
                    row < bh,
                    y == dy + row,
                    0 <= y < h,
                    from == row * bw * 4,
                    to == at_pixel(dx as int, y, w as int),
                    to + 4 * cw <= fb0.len(),
                    from + 4 * cw <= n,
                    j <= 4 * cw,
                    fb@ == paste_partial(
                        fb0,
                        w as int,
                        dx as int,
                        dy as int,
                        block@,
                        bw as int,
                        bh as int,
                        row as int,
                        j as int,
                    ),
                decreases 4 * cw - j,
            {
                let ghost before = fb@;
                fb[to + j] = block[from + j];
                proof {
                    let d = to + j;
                    let x = dx + j as int / 4;
                    let c = j as int % 4;
                    lemma_along_row(dx as int, y, w as int, j as int / 4);
                    assert(d == at_pixel(x, y, w as int) + c);
                    lemma_place(x, y, c, w as int);
                    assert(at_pixel(x - dx, row as int, bw as int) + c == from + j) by {
                        assert((row * bw + j as int / 4) * 4 == row * bw * 4 + 4 * (j as int / 4));
                    }
                    assert(row_present(w as int, dx as int, dy as int, n, bw as int, y));
                    let after = paste_partial(
                        fb0,
                        w as int,
                        dx as int,
                        dy as int,
                        block@,
                        bw as int,
                        bh as int,
                        row as int,
                        j + 1,
                    );
                    assert forall|k: int| 0 <= k < fb0.len() implies fb@[k] == #[trigger] after[k] by {
                        lemma_unplace(k, w as int);
                        if k == d {
                        } else {
                            if row_of(k, w as int) == y && (col_of(k, w as int) - dx) * 4 + k % 4 == j {
                                assert(col_of(k, w as int) == x && k % 4 == c);
                                assert(false);
                            }
                            assert(fb@[k] == before[k]);
                        }
                    }
                    assert(fb@ =~= after);
                }
                j = j + 1;
            }
            proof {
                let here = paste_partial(
                    fb0,
                    w as int,
                    dx as int,
                    dy as int,
                    block@,
                    bw as int,
                    bh as int,
                    row as int,
                    4 * cw as int,
                );
                let next = paste_partial(
                    fb0,
                    w as int,
                    dx as int,
                    dy as int,
                    block@,
                    bw as int,
                    bh as int,
                    row + 1,
                    0,
                );
                assert forall|k: int| 0 <= k < fb0.len() implies here[k] == #[trigger] next[k] by {
                    lemma_unplace(k, w as int);
                }
                assert(here =~= next);
            }
        } else {
            proof {
                let here = paste_partial(
                    fb0,
                    w as int,
                    dx as int,
                    dy as int,
                    block@,
                    bw as int,
                    bh as int,
                    row as int,
                    0,
                );
                let next = paste_partial(
                    fb0,
                    w as int,
                    dx as int,
                    dy as int,
                    block@,
                    bw as int,
                    bh as int,
                    row + 1,
                    0,
                );
                assert forall|k: int| 0 <= k < fb0.len() implies here[k] == #[trigger] next[k] by {
                    lemma_unplace(k, w as int);
                    if row_of(k, w as int) == y {
                        assert(!row_present(w as int, dx as int, dy as int, n, bw as int, y));
                    }
                }
                assert(here =~= next);
            }
        }
        row = row + 1;
    }
    proof {
        let here = paste_partial(fb0, w as int, dx as int, dy as int, block@, bw as int, bh as int, row as int, 0);
        assert forall|k: int| 0 <= k < fb0.len() implies here[k] == #[trigger] goal[k] by {
            lemma_unplace(k, w as int);
            lemma_row_inside(k, w as int, h as int);
        }
        assert(fb@ =~= goal);
    }
}

/// Cuts the block of `bw` by `bh` pixels at `(x0, y0)` out of a bitmap of `w` by
/// `h` pixels.
pub fn cut_out(fb: &Vec<u8>, w: u16, h: u16, x0: u16, y0: u16, bw: u16, bh: u16) -> (block: Vec<u8>)
    requires
        fb@.len() == w * h * 4,
        x0 + bw <= w,
        y0 + bh <= h,
    ensures
        block@ == cut(fb@, w as int, x0 as int, y0 as int, bw as int, bh as int),
        block@.len() == bw * bh * 4,
{
    let ghost goal = cut(fb@, w as int, x0 as int, y0 as int, bw as int, bh as int);
    assert(bw * bh >= 0) by (nonlinear_arith)
        requires
            0 <= bw,
            0 <= bh,
    ;
    let mut block: Vec<u8> = Vec::new();
    let mut row: usize = 0;
    assert(block@ =~= goal.take(0));
    while row < bh as usize
        invariant
            fb@.len() == w * h * 4,
            x0 + bw <= w,
            y0 + bh <= h,
            goal == cut(fb@, w as int, x0 as int, y0 as int, bw as int, bh as int),
            goal.len() == bw * bh * 4,
            row <= bh,
            0 <= row * bw * 4 <= goal.len(),
            block@ == goal.take(row * bw * 4),
        decreases bh - row,
    {
        let ghost y = y0 + row;
        let ghost start = row * bw * 4;
        proof {
            assert(0 <= y * w && y * w + w <= w * h) by (nonlinear_arith)
                requires
                    0 <= y < h,
                    0 <= w,
            ;
            assert(start + 4 * bw == (row + 1) * bw * 4) by (nonlinear_arith)
                requires
                    start == row * bw * 4,
            ;
            assert((row + 1) * bw <= bh * bw) by (nonlinear_arith)
                requires
                    row + 1 <= bh,
                    0 <= bw,
            ;
            assert(bh * bw == bw * bh) by (nonlinear_arith);
            assert((y0 + row) * w == y * w);
            assert(fb@.len() == fb.len());
        }
        let from: usize = (((y0 as usize) + row) * (w as usize) + (x0 as usize)) * 4;
        let mut j: usize = 0;
        while j < 4 * (bw as usize)
            invariant
                fb@.len() == w * h * 4,
                x0 + bw <= w,
                y0 + bh <= h,
                goal == cut(fb@, w as int, x0 as int, y0 as int, bw as int, bh as int),
                goal.len() == bw * bh * 4,
                row < bh,
                y == y0 + row,
                from == at_pixel(x0 as int, y, w as int),
                from + 4 * bw <= fb.len(),
                start == row * bw * 4,
                0 <= start,
                start + 4 * bw <= goal.len(),
                j <= 4 * bw,
                block@ == goal.take(start + j),
            decreases 4 * bw - j,
        {
            block.push(fb[from + j]);
            proof {
                let k = start + j;
                let x = j as int / 4;
                lemma_along_row(0, row as int, bw as int, x);
                assert(at_pixel(0, row as int, bw as int) == start) by {
                    assert((row * bw + 0) * 4 == row * bw * 4);
                }
                lemma_place(x, row as int, j as int % 4, bw as int);
                lemma_along_row(x0 as int, y, w as int, x);
                assert(goal[k] == fb@[from + j]);
                assert(block@ =~= goal.take(start + j + 1));
            }
            j = j + 1;
        }
        row = row + 1;
    }
    assert(row * bw * 4 == bw * bh * 4) by (nonlinear_arith)
        requires
            row == bh,
    ;
    assert(block@ =~= goal);
    block
}

spec fn fill_partial(
    fb: Seq<u8>,
    w: int,
    x0: int,
    y0: int,
    x1: int,
    y1: int,
    rgba: Seq<u8>,
    row: int,
    j: int,
) -> Seq<u8> {
    Seq::new(
        fb.len(),
        |k: int|
            if x0 <= col_of(k, w) < x1 && y0 <= row_of(k, w) < y1 && (row_of(k, w) < row || (row_of(k, w) == row
                && col_of(k, w) * 4 + k % 4 < j)) {
                rgba[k % 4]
            } else {
                fb[k]
            },
    )
}

/// Fills `[x0, x1)` by `[y0, y1)` of a bitmap of `w` by `h` pixels.
#[verifier::rlimit(40)]
pub fn fill(fb: &mut Vec<u8>, w: u16, h: u16, x0: u16, y0: u16, x1: u16, y1: u16, rgba: [u8; 4])
    requires
        old(fb)@.len() == w * h * 4,
        x0 <= x1 <= w,
        y0 <= y1 <= h,
    ensures
        final(fb)@ == filled(old(fb)@, w as int, x0 as int, y0 as int, x1 as int, y1 as int, rgba@),
{
    let ghost fb0 = fb@;
    let ghost goal = filled(fb0, w as int, x0 as int, y0 as int, x1 as int, y1 as int, rgba@);
    let ghost (gw, gx0, gy0, gx1, gy1) = (w as int, x0 as int, y0 as int, x1 as int, y1 as int);
    assert(fb0.len() == fb.len());
    let mut row: usize = y0 as usize;
    assert(fb@ =~= fill_partial(fb0, gw, gx0, gy0, gx1, gy1, rgba@, gy0, gx0 * 4)) by {
        assert forall|k: int| 0 <= k < fb0.len() implies fb0[k] == #[trigger] fill_partial(
            fb0,
            gw,
            gx0,
            gy0,
            gx1,
            gy1,
            rgba@,
            gy0,
            gx0 * 4,
        )[k] by {
            if w > 0 {
                lemma_unplace(k, gw);
            }
        }
    }
    while row < y1 as usize
        invariant
            fb0.len() == w * h * 4,
            fb0.len() <= usize::MAX,
            x0 <= x1 <= w,
            y0 <= row <= y1 <= h,
            (gw, gx0, gy0, gx1, gy1) == (w as int, x0 as int, y0 as int, x1 as int, y1 as int),
            fb@ == fill_partial(fb0, gw, gx0, gy0, gx1, gy1, rgba@, row as int, gx0 * 4),
        decreases y1 - row,
    {
        proof {
            assert(0 <= row * w && row * w + w <= w * h) by (nonlinear_arith)
                requires
                    0 <= row < h,
                    0 <= w,
            ;
        }
        let to: usize = row * (w as usize) * 4;
        let mut j: usize = (x0 as usize) * 4;
        while j < (x1 as usize) * 4
            invariant
                fb0.len() == w * h * 4,
                fb0.len() <= usize::MAX,
                x0 <= x1 <= w,
                y0 <= row < y1 <= h,
                to == row * w * 4,
                to + 4 * w <= fb0.len(),
                gx0 * 4 <= j,
                x0 * 4 <= j <= x1 * 4 || j == x0 * 4,
                (gw, gx0, gy0, gx1, gy1) == (w as int, x0 as int, y0 as int, x1 as int, y1 as int),
                fb@ == fill_partial(fb0, gw, gx0, gy0, gx1, gy1, rgba@, row as int, j as int),
            decreases x1 * 4 - j,
        {
            let ghost before = fb@;
            fb[to + j] = rgba[j % 4];
            proof {
                let d = to + j;
                let x = j as int / 4;
                let c = j as int % 4;
                lemma_along_row(0, row as int, gw, x);
                assert(at_pixel(0, row as int, gw) == to) by {
                    assert((row * w + 0) * 4 == row * w * 4);
                }
                assert(d == at_pixel(x, row as int, gw) + c);
                lemma_place(x, row as int, c, gw);
                let after = fill_partial(fb0, gw, gx0, gy0, gx1, gy1, rgba@, row as int, j + 1);
                assert forall|k: int| 0 <= k < fb0.len() implies fb@[k] == #[trigger] after[k] by {
                    lemma_unplace(k, gw);
                    if k != d {
                        if row_of(k, gw) == row && col_of(k, gw) * 4 + k % 4 == j {
                            assert(col_of(k, gw) == x && k % 4 == c);
                            assert(false);
                        }
                        assert(fb@[k] == before[k]);
                    }
                }
                assert(fb@ =~= after);
            }
            j = j + 1;
        }
        proof {
            let here = fill_partial(fb0, gw, gx0, gy0, gx1, gy1, rgba@, row as int, j as int);
            let next = fill_partial(fb0, gw, gx0, gy0, gx1, gy1, rgba@, row + 1, gx0 * 4);
            assert forall|k: int| 0 <= k < fb0.len() implies here[k] == #[trigger] next[k] by {
                if w > 0 {
                    lemma_unplace(k, gw);
                }
            }
            assert(here =~= next);
        }
        row = row + 1;
    }
    assert(fb@ =~= goal);
}

// ---------------------------------------------------------------------------
// Laws
// ---------------------------------------------------------------------------
/// Pasting changes no pixel outside the block's place, and no bitmap's size.
pub proof fn law_paste_stays_inside(fb: Seq<u8>, w: int, dx: int, dy: int, block: Seq<u8>, bw: int, bh: int, k: int)
    requires
        0 <= k < fb.len(),
        !(dx <= col_of(k, w) < dx + bw && dy <= row_of(k, w) < dy + bh),
    ensures
        pasted(fb, w, dx, dy, block, bw, bh).len() == fb.len(),
        pasted(fb, w, dx, dy, block, bw, bh)[k] == fb[k],
{
}

/// Restoring a block that was cut from a place gives that place back its pixels,
/// whatever has been painted since, and touches no other pixel.
pub proof fn law_cut_then_paste_restores(
    saved_from: Seq<u8>,
    later: Seq<u8>,
    w: int,
    h: int,
    x0: int,
    y0: int,
    bw: int,
    bh: int,
    k: int,
)
    requires
        saved_from.len() == w * h * 4,
        later.len() == w * h * 4,
        0 <= x0,
        0 <= y0,
        0 < bw,
        0 < bh,
        x0 + bw <= w,
        y0 + bh <= h,
        0 <= k < later.len(),
    ensures
        ({
            let restored = pasted(later, w, x0, y0, cut(saved_from, w, x0, y0, bw, bh), bw, bh);
            restored[k] == if x0 <= col_of(k, w) < x0 + bw && y0 <= row_of(k, w) < y0 + bh {
                saved_from[k]
            } else {
                later[k]
            }
        }),
{
    let block = cut(saved_from, w, x0, y0, bw, bh);
    lemma_unplace(k, w);
    assert(bw * bh >= 0) by (nonlinear_arith)
        requires
            0 < bw,
            0 < bh,
    ;
    if x0 <= col_of(k, w) < x0 + bw && y0 <= row_of(k, w) < y0 + bh {
        let x = col_of(k, w) - x0;
        let y = row_of(k, w) - y0;
        lemma_place(x, y, k % 4, bw);
        lemma_inside(x, y, bw, bh);
        assert(row_present(w, x0, y0, block.len() as int, bw, row_of(k, w))) by {
            assert((y * bw + bw) <= bw * bh) by (nonlinear_arith)
                requires
                    0 <= y < bh,
                    0 < bw,
            ;
        }
        assert(block[at_pixel(x, y, bw) + k % 4] == saved_from[k]);
    }
}

/// Pasting a block and cutting it out again gives the block back, where it lies
/// wholly on the bitmap.
pub proof fn law_paste_then_cut_reads_back(
    fb: Seq<u8>,
    w: int,
    h: int,
    dx: int,
    dy: int,
    block: Seq<u8>,
    bw: int,
    bh: int,
)
    requires
        fb.len() == w * h * 4,
        0 <= dx,
        0 <= dy,
        0 < bw,
        0 < bh,
        dx + bw <= w,
        dy + bh <= h,
        block.len() == bw * bh * 4,
    ensures
        cut(pasted(fb, w, dx, dy, block, bw, bh), w, dx, dy, bw, bh) == block,
{
    let after = pasted(fb, w, dx, dy, block, bw, bh);
    let read = cut(after, w, dx, dy, bw, bh);
    assert forall|k: int| 0 <= k < block.len() implies #[trigger] read[k] == block[k] by {
        lemma_unplace(k, bw);
        lemma_row_inside(k, bw, bh);
        let x = dx + col_of(k, bw);
        let y = dy + row_of(k, bw);
        lemma_place(x, y, k % 4, w);
        lemma_inside(x, y, w, h);
        let yy = row_of(k, bw);
        assert((yy * bw + bw) <= bw * bh) by (nonlinear_arith)
            requires
                0 <= yy < bh,
                0 < bw,
        ;
        assert(row_present(w, dx, dy, block.len() as int, bw, y));
    }
    assert(read =~= block);
}

} // verus!
