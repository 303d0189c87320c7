//! Window information orders: what the server says of the windows of a remote
//! application, packed as alternate secondary drawing orders.
//!
//! An orders payload is a 16-bit count followed by the orders. Each window order
//! carries its own size, so fields that are not read here (icons by cache id,
//! notification icons, taskbar hints) are stepped over.

use vstd::prelude::*;

use crate::utf16::{decode, decode_bytes, text_bytes, units_of};
use crate::wire::{get_le16, get_le32, le16_at, le16_bytes, le32_at};

verus! {

pub const ORDER_STANDARD: u8 = 0x01;
pub const ORDER_TYPE_WINDOW: u8 = 0x0B;
pub const ORDER_TYPE_FRAME_MARKER: u8 = 0x0D;

pub const WINDOW_ORDER_TYPE_WINDOW: u32 = 0x0100_0000;
pub const WINDOW_ORDER_TYPE_NOTIFY: u32 = 0x0200_0000;
pub const WINDOW_ORDER_TYPE_DESKTOP: u32 = 0x0400_0000;
pub const WINDOW_ORDER_STATE_NEW: u32 = 0x1000_0000;
pub const WINDOW_ORDER_STATE_DELETED: u32 = 0x2000_0000;
pub const WINDOW_ORDER_ICON: u32 = 0x4000_0000;
pub const WINDOW_ORDER_CACHED_ICON: u32 = 0x8000_0000;

pub const WINDOW_ORDER_FIELD_OWNER: u32 = 0x0000_0002;
pub const WINDOW_ORDER_FIELD_STYLE: u32 = 0x0000_0008;
pub const WINDOW_ORDER_FIELD_SHOW: u32 = 0x0000_0010;
pub const WINDOW_ORDER_FIELD_TITLE: u32 = 0x0000_0004;
pub const WINDOW_ORDER_FIELD_CLIENT_AREA_OFFSET: u32 = 0x0000_4000;
pub const WINDOW_ORDER_FIELD_CLIENT_AREA_SIZE: u32 = 0x0001_0000;
pub const WINDOW_ORDER_FIELD_RESIZE_MARGIN_X: u32 = 0x0000_0080;
pub const WINDOW_ORDER_FIELD_RESIZE_MARGIN_Y: u32 = 0x0800_0000;
pub const WINDOW_ORDER_FIELD_RP_CONTENT: u32 = 0x0002_0000;
pub const WINDOW_ORDER_FIELD_ROOT_PARENT: u32 = 0x0004_0000;
pub const WINDOW_ORDER_FIELD_WND_OFFSET: u32 = 0x0000_0800;
pub const WINDOW_ORDER_FIELD_WND_CLIENT_DELTA: u32 = 0x0000_8000;
pub const WINDOW_ORDER_FIELD_WND_SIZE: u32 = 0x0000_0400;
pub const WINDOW_ORDER_FIELD_WND_RECTS: u32 = 0x0000_0100;
pub const WINDOW_ORDER_FIELD_VIS_OFFSET: u32 = 0x0000_1000;
pub const WINDOW_ORDER_FIELD_VISIBILITY: u32 = 0x0000_0200;

pub const WINDOW_ORDER_FIELD_DESKTOP_ZORDER: u32 = 0x0000_0010;
pub const WINDOW_ORDER_FIELD_DESKTOP_ACTIVE_WND: u32 = 0x0000_0020;

/// The window is hidden.
pub const SW_HIDE: u8 = 0;

/// The window is minimized.
pub const SW_SHOWMINIMIZED: u8 = 2;

/// A rectangle of a window's visible region, in server coordinates.
#[derive(Debug, Clone, Copy, PartialEq, Eq)]
pub struct Rect {
    pub left: u16,
    pub top: u16,
    pub right: u16,
    pub bottom: u16,
}

/// What a window create or update order carries. `None` means that the order
/// did not carry the field, and the client keeps the value it had.
#[derive(Debug, Clone, PartialEq, Eq)]
pub struct WindowInfo {
    pub window_id: u32,
    pub is_new: bool,
    pub show_state: Option<u8>,
    pub title: Option<String>,
    pub x: Option<i32>,
    pub y: Option<i32>,
    pub width: Option<u32>,
    pub height: Option<u32>,
    /// Only when the order carried more than one visibility rectangle.
    pub visibility_rects: Option<Vec<Rect>>,
}

/// One window-management event.
#[derive(Debug, Clone, PartialEq, Eq)]
pub enum WindowEvent {
    NewOrUpdate(WindowInfo),
    Deleted(u32),
    /// Z-order of the monitored desktop, top-most window first.
    ZOrder(Vec<u32>),
    ActiveWindow(u32),
    /// A decoded window icon, top-down RGBA.
    Icon { window_id: u32, width: u16, height: u16, rgba: Vec<u8> },
}

/// The mathematical value of a [`WindowInfo`].
pub struct WindowInfoView {
    pub window_id: u32,
    pub is_new: bool,
    pub show_state: Option<u8>,
    pub title: Option<Seq<char>>,
    pub x: Option<i32>,
    pub y: Option<i32>,
    pub width: Option<u32>,
    pub height: Option<u32>,
    pub visibility_rects: Option<Seq<Rect>>,
}

/// The mathematical value of a [`WindowEvent`].
pub enum WindowEventView {
    NewOrUpdate(WindowInfoView),
    Deleted(u32),
    ZOrder(Seq<u32>),
    ActiveWindow(u32),
    Icon { window_id: u32, width: u16, height: u16, rgba: Seq<u8> },
}

impl View for WindowInfo {
    type V = WindowInfoView;

    open spec fn view(&self) -> WindowInfoView {
        WindowInfoView {
            window_id: self.window_id,
            is_new: self.is_new,
            show_state: self.show_state,
            title: match self.title {
                Some(title) => Some(title@),
                None => None,
            },
            x: self.x,
            y: self.y,
            width: self.width,
            height: self.height,
            visibility_rects: match self.visibility_rects {
                Some(rects) => Some(rects@),
                None => None,
            },
        }
    }
}

impl View for WindowEvent {
    type V = WindowEventView;

    open spec fn view(&self) -> WindowEventView {
        match *self {
            WindowEvent::NewOrUpdate(info) => WindowEventView::NewOrUpdate(info@),
            WindowEvent::Deleted(id) => WindowEventView::Deleted(id),
            WindowEvent::ZOrder(ids) => WindowEventView::ZOrder(ids@),
            WindowEvent::ActiveWindow(id) => WindowEventView::ActiveWindow(id),
            WindowEvent::Icon { window_id, width, height, rgba } => WindowEventView::Icon {
                window_id,
                width,
                height,
                rgba: rgba@,
            },
        }
    }
}

/// The mathematical values of a run of events.
pub open spec fn event_views(events: Seq<WindowEvent>) -> Seq<WindowEventView> {
    events.map_values(|event: WindowEvent| event@)
}

impl Default for WindowInfo {
    fn default() -> (info: Self)
        ensures
            info@ == empty_info(0, false),
    {
        WindowInfo {
            window_id: 0,
            is_new: false,
            show_state: None,
            title: None,
            x: None,
            y: None,
            width: None,
            height: None,
            visibility_rects: None,
        }
    }
}

/// The information of a window of which nothing else is known.
pub open spec fn empty_info(window_id: u32, is_new: bool) -> WindowInfoView {
    WindowInfoView {
        window_id,
        is_new,
        show_state: None,
        title: None,
        x: None,
        y: None,
        width: None,
        height: None,
        visibility_rects: None,
    }
}

// ---------------------------------------------------------------------------
// What the orders mean
// ---------------------------------------------------------------------------
/// The offset behind a field of `n` bytes at `at`, the offset itself when the
/// field is absent, `None` when the buffer ends inside the field.
pub open spec fn behind(buf: Seq<u8>, at: Option<int>, present: bool, n: int) -> Option<int> {
    match at {
        Some(p) => if !present {
            Some(p)
        } else if p + n <= buf.len() {
            Some(p + n)
        } else {
            None
        },
        None => None,
    }
}

/// The offset behind a counted field at `at`: a 16-bit count, then `unit` bytes
/// for each.
pub open spec fn behind_counted(buf: Seq<u8>, at: Option<int>, present: bool, unit: int) -> Option<int> {
    match behind(buf, at, present, 2) {
        Some(p) => if present {
            behind(buf, Some(p), true, le16_at(buf, p - 2) * unit)
        } else {
            Some(p)
        },
        None => None,
    }
}

/// The counted text at `at`, a 16-bit count of bytes and as many of little-endian
/// UTF-16, and the offset behind it; `None` when the buffer ends inside it.
pub open spec fn counted_text(buf: Seq<u8>, at: int) -> Option<(Seq<char>, int)> {
    match behind_counted(buf, Some(at), true, 1) {
        Some(end) => Some((decode(units_of(buf.subrange(at + 2, end))), end)),
        None => None,
    }
}

/// A counted text, with `tail` behind it.
pub open spec fn counted_bytes(text: Seq<char>, tail: Seq<u8>) -> Seq<u8> {
    le16_bytes(text_bytes(text).len() as u16) + text_bytes(text) + tail
}

/// The rectangle of four 16-bit edges at `at`.
pub open spec fn rect_at(buf: Seq<u8>, at: int) -> Rect {
    Rect {
        left: le16_at(buf, at),
        top: le16_at(buf, at + 2),
        right: le16_at(buf, at + 4),
        bottom: le16_at(buf, at + 6),
    }
}

/// `n` rectangles from `at` on.
pub open spec fn rects_at(buf: Seq<u8>, at: int, n: int) -> Seq<Rect> {
    Seq::new(n as nat, |i: int| rect_at(buf, at + 8 * i))
}

/// The offset behind the last field of a window create or update order whose field
/// flags are `ff` and whose fields begin at `at`; `None` when the buffer ends inside one
/// of them.
///
/// Present fields follow each other in this order: owner (4 bytes), style (8),
/// show state (1), title (counted), client offset (8), client size (8), resize
/// margins (8 and 8), RP content (1), root parent (4), window offset (8), client
/// delta (8), window size (8), window rectangles (counted), visible offset (8),
/// visibility rectangles (counted).
pub open spec fn window_state_end(buf: Seq<u8>, at: int, ff: u32) -> Option<int> {
    let p = behind(buf, at_show(buf, at, ff), ff & WINDOW_ORDER_FIELD_SHOW != 0, 1);
    let p = behind_counted(buf, p, ff & WINDOW_ORDER_FIELD_TITLE != 0, 1);
    let p = behind(buf, at_offset(buf, p, ff), ff & WINDOW_ORDER_FIELD_WND_OFFSET != 0, 8);
    let p = behind(buf, p, ff & WINDOW_ORDER_FIELD_WND_CLIENT_DELTA != 0, 8);
    let p = behind(buf, p, ff & WINDOW_ORDER_FIELD_WND_SIZE != 0, 8);
    behind_counted(buf, at_visibility(buf, p, ff), ff & WINDOW_ORDER_FIELD_VISIBILITY != 0, 8)
}

/// The fields of a window create or update order whose field flags are `ff` and
/// whose fields begin at `at`; `None` when the buffer ends inside one of them, as
/// [`window_state_end`] says.
pub open spec fn window_state(buf: Seq<u8>, at: int, ff: u32, window_id: u32) -> Option<WindowInfoView> {
    let show = ff & WINDOW_ORDER_FIELD_SHOW != 0;
    let title = ff & WINDOW_ORDER_FIELD_TITLE != 0;
    let offset = ff & WINDOW_ORDER_FIELD_WND_OFFSET != 0;
    let size = ff & WINDOW_ORDER_FIELD_WND_SIZE != 0;
    let visibility = ff & WINDOW_ORDER_FIELD_VISIBILITY != 0;
    let p_show = at_show(buf, at, ff);
    let p_title = behind(buf, p_show, show, 1);
    let p_client = behind_counted(buf, p_title, title, 1);
    let p_offset = at_offset(buf, p_client, ff);
    let p_size = behind(
        buf,
        behind(buf, p_offset, offset, 8),
        ff & WINDOW_ORDER_FIELD_WND_CLIENT_DELTA != 0,
        8,
    );
    let p_visibility = at_visibility(buf, behind(buf, p_size, size, 8), ff);
    match window_state_end(buf, at, ff) {
        None => None,
        Some(_) => {
            let num = le16_at(buf, p_visibility->0) as int;
            Some(
                WindowInfoView {
                    window_id,
                    is_new: ff & WINDOW_ORDER_STATE_NEW != 0,
                    show_state: if show {
                        Some(buf[p_show->0])
                    } else {
                        None
                    },
                    title: if title {
                        Some(decode(units_of(buf.subrange(p_title->0 + 2, p_client->0))))
                    } else {
                        None
                    },
                    x: if offset {
                        Some(le32_at(buf, p_offset->0) as i32)
                    } else {
                        None
                    },
                    y: if offset {
                        Some(le32_at(buf, p_offset->0 + 4) as i32)
                    } else {
                        None
                    },
                    width: if size {
                        Some(le32_at(buf, p_size->0))
                    } else {
                        None
                    },
                    height: if size {
                        Some(le32_at(buf, p_size->0 + 4))
                    } else {
                        None
                    },
                    visibility_rects: if visibility && num > 1 {
                        Some(rects_at(buf, p_visibility->0 + 2, num))
                    } else {
                        None
                    },
                },
            )
        },
    }
}

/// Where the show state stands: behind the owner and the styles.
pub open spec fn at_show(buf: Seq<u8>, at: int, ff: u32) -> Option<int> {
    behind(
        buf,
        behind(buf, Some(at), ff & WINDOW_ORDER_FIELD_OWNER != 0, 4),
        ff & WINDOW_ORDER_FIELD_STYLE != 0,
        8,
    )
}

/// Where the window offset stands: behind the client area, the resize margins,
/// the RP content and the root parent.
pub open spec fn at_offset(buf: Seq<u8>, p_client: Option<int>, ff: u32) -> Option<int> {
    let p = behind(buf, p_client, ff & WINDOW_ORDER_FIELD_CLIENT_AREA_OFFSET != 0, 8);
    let p = behind(buf, p, ff & WINDOW_ORDER_FIELD_CLIENT_AREA_SIZE != 0, 8);
    let p = behind(buf, p, ff & WINDOW_ORDER_FIELD_RESIZE_MARGIN_X != 0, 8);
    let p = behind(buf, p, ff & WINDOW_ORDER_FIELD_RESIZE_MARGIN_Y != 0, 8);
    let p = behind(buf, p, ff & WINDOW_ORDER_FIELD_RP_CONTENT != 0, 1);
    behind(buf, p, ff & WINDOW_ORDER_FIELD_ROOT_PARENT != 0, 4)
}

/// Where the visibility rectangles stand: behind the window rectangles and the
/// visible offset.
pub open spec fn at_visibility(buf: Seq<u8>, p: Option<int>, ff: u32) -> Option<int> {
    behind(
        buf,
        behind_counted(buf, p, ff & WINDOW_ORDER_FIELD_WND_RECTS != 0, 8),
        ff & WINDOW_ORDER_FIELD_VIS_OFFSET != 0,
        8,
    )
}

/// The AND-mask bit of pixel `(x, row)`: set means transparent. One bit per
/// pixel, most significant first, rows of `stride` bytes.
pub open spec fn mask_bit_of(mask: Seq<u8>, stride: int, x: int, row: int) -> bool {
    let at = row * stride + x / 8;
    at < mask.len() && (mask[at] >> ((7 - x % 8) as usize)) & 1u8 == 1
}

/// The length of an AND-mask row: one bit per pixel, padded to 32 bits.
pub open spec fn mask_stride_of(w: int) -> int {
    (w + 31) / 32 * 4
}

/// The length of a 24-bpp row, padded to 32 bits.
pub open spec fn stride24_of(w: int) -> int {
    (w * 3 + 3) / 4 * 4
}

/// Whether the mask makes pixel `(x, row)` transparent. A mask that is too short
/// for the bitmap is not used.
pub open spec fn masked_out(mask: Seq<u8>, w: int, h: int, x: int, row: int) -> bool {
    mask.len() >= mask_stride_of(w) * h && mask_bit_of(mask, mask_stride_of(w), x, row)
}

/// Whether any whole 4-byte pixel of `color` has a non-zero alpha byte.
pub open spec fn any_alpha(color: Seq<u8>) -> bool {
    exists|k: int| 0 <= k < color.len() && k % 4 == 3 && color[k] != 0
}

/// The RGBA value of pixel `(x, y)`, counted from the top, of a bottom-up icon
/// bitmap of `w` by `h` pixels.
pub open spec fn icon_pixel(bpp: u8, w: int, h: int, color: Seq<u8>, mask: Seq<u8>, x: int, y: int) -> (
    u8,
    u8,
    u8,
    u8,
) {
    let row = h - 1 - y;
    let at = if bpp == 32 {
        (row * w + x) * 4
    } else {
        row * stride24_of(w) + x * 3
    };
    let alpha: u8 = if bpp == 32 && any_alpha(color) {
        color[at + 3]
    } else if masked_out(mask, w, h, x, row) {
        0
    } else {
        255
    };
    (color[at + 2], color[at + 1], color[at], alpha)
}

/// Whether an icon can be decoded: 24 or 32 bits per pixel, 1 to 256 pixels
/// each way, and a colour bitmap that is long enough.
pub open spec fn icon_decodable(bpp: u8, w: int, h: int, color: Seq<u8>) -> bool {
    &&& 1 <= w <= 256
    &&& 1 <= h <= 256
    &&& (bpp == 32 && color.len() >= w * h * 4) || (bpp == 24 && color.len() >= stride24_of(w) * h)
}

/// Byte `k` of the top-down RGBA bitmap of an icon.
pub open spec fn icon_byte(bpp: u8, w: int, h: int, color: Seq<u8>, mask: Seq<u8>, k: int) -> u8 {
    let px = icon_pixel(bpp, w, h, color, mask, (k / 4) % w, (k / 4) / w);
    if k % 4 == 0 {
        px.0
    } else if k % 4 == 1 {
        px.1
    } else if k % 4 == 2 {
        px.2
    } else {
        px.3
    }
}

/// The top-down RGBA bitmap of an icon, `None` where it cannot be decoded.
pub open spec fn icon_rgba(bpp: u8, width: u16, height: u16, color: Seq<u8>, mask: Seq<u8>) -> Option<Seq<u8>> {
    let (w, h) = (width as int, height as int);
    if icon_decodable(bpp, w, h, color) {
        Some(Seq::new((w * h * 4) as nat, |k: int| icon_byte(bpp, w, h, color, mask, k)))
    } else {
        None
    }
}

/// The information of an icon.
pub struct IconInfo {
    pub bpp: u8,
    pub width: u16,
    pub height: u16,
    pub mask: Seq<u8>,
    pub color: Seq<u8>,
}

/// The icon information at `at`: cache entry (2 bytes), cache id (1), depth (1), width
/// (2), height (2), for a palettized depth the length of the colour table (2), the lengths
/// of the mask and of the colour bitmap (2 and 2), then mask, colour table and bitmap;
/// `None` when the buffer ends inside it.
pub open spec fn icon_info(buf: Seq<u8>, at: int) -> Option<IconInfo> {
    let p = at + icon_cache_len(buf, at);
    let bpp = buf[p];
    let palettized = bpp == 1 || bpp == 4 || bpp == 8;
    let q = if palettized {
        p + 7
    } else {
        p + 5
    };
    let table_len = if palettized {
        le16_at(buf, p + 5) as int
    } else {
        0
    };
    let mask_end = q + 4 + le16_at(buf, q);
    let table_end = mask_end + table_len;
    let color_end = table_end + le16_at(buf, q + 2);
    if p + 5 > buf.len() || q + 4 > buf.len() || color_end > buf.len() {
        None
    } else {
        Some(
            IconInfo {
                bpp,
                width: le16_at(buf, p + 1),
                height: le16_at(buf, p + 3),
                mask: buf.subrange(q + 4, mask_end),
                color: buf.subrange(table_end, color_end),
            },
        )
    }
}

/// The event of an icon order: none for an icon that cannot be decoded.
pub open spec fn icon_events(info: IconInfo, window_id: u32) -> Seq<WindowEventView> {
    match icon_rgba(info.bpp, info.width, info.height, info.color, info.mask) {
        Some(rgba) => seq![
            WindowEventView::Icon { window_id, width: info.width, height: info.height, rgba },
        ],
        None => Seq::empty(),
    }
}

/// How many bytes of the cache entry (2 bytes) and the cache id (1) are there.
/// One that does not fit takes no bytes.
pub open spec fn icon_cache_len(buf: Seq<u8>, at: int) -> int {
    let entry: int = if at + 2 <= buf.len() {
        2
    } else {
        0
    };
    let id: int = if at + entry + 1 <= buf.len() {
        1
    } else {
        0
    };
    entry + id
}

/// `n` 32-bit window ids from `at` on.
pub open spec fn ids_at(buf: Seq<u8>, at: int, n: int) -> Seq<u32> {
    Seq::new(n as nat, |i: int| le32_at(buf, at + 4 * i))
}

/// The events of a desktop order whose fields begin at `at`: the active window
/// (4 bytes), then the z-order (an 8-bit count and 4 bytes for each).
pub open spec fn desktop_events(buf: Seq<u8>, at: int, ff: u32) -> Seq<WindowEventView> {
    let active = ff & WINDOW_ORDER_FIELD_DESKTOP_ACTIVE_WND != 0;
    let p = if active {
        at + 4
    } else {
        at
    };
    if p > buf.len() {
        Seq::empty()
    } else {
        let first = if active {
            seq![WindowEventView::ActiveWindow(le32_at(buf, at))]
        } else {
            Seq::empty()
        };
        if ff & WINDOW_ORDER_FIELD_DESKTOP_ZORDER != 0 && p + 1 <= buf.len() && p + 1 + 4 * buf[p] <= buf.len() {
            first.push(WindowEventView::ZOrder(ids_at(buf, p + 1, buf[p] as int)))
        } else {
            first
        }
    }
}

/// Whether all of a desktop order's fields are there.
pub open spec fn desktop_whole(buf: Seq<u8>, at: int, ff: u32) -> bool {
    let p = if ff & WINDOW_ORDER_FIELD_DESKTOP_ACTIVE_WND != 0 {
        at + 4
    } else {
        at
    };
    &&& p <= buf.len()
    &&& ff & WINDOW_ORDER_FIELD_DESKTOP_ZORDER != 0 ==> p + 1 <= buf.len() && p + 1 + 4 * buf[p] <= buf.len()
}

/// Whether the fields that are read of a window order with field flags `ff`, whose fields
/// begin at `at`, are all there. An order without a type has no such field.
pub open spec fn window_order_whole(buf: Seq<u8>, at: int, ff: u32) -> bool {
    if ff & WINDOW_ORDER_TYPE_DESKTOP != 0 {
        desktop_whole(buf, at, ff)
    } else if ff & (WINDOW_ORDER_TYPE_WINDOW | WINDOW_ORDER_TYPE_NOTIFY) == 0 {
        true
    } else if at + 4 > buf.len() {
        false
    } else if ff & WINDOW_ORDER_ICON != 0 {
        icon_info(buf, at + 4) is Some
    } else if ff & WINDOW_ORDER_CACHED_ICON != 0 || ff & WINDOW_ORDER_TYPE_NOTIFY != 0 || ff
        & WINDOW_ORDER_STATE_DELETED != 0 {
        true
    } else {
        window_state_end(buf, at + 4, ff) is Some
    }
}

/// The events of one window order with field flags `ff`, whose fields begin
/// at `at`.
pub open spec fn window_order_events(buf: Seq<u8>, at: int, ff: u32) -> Seq<WindowEventView> {
    if ff & WINDOW_ORDER_TYPE_DESKTOP != 0 {
        desktop_events(buf, at, ff)
    } else if ff & (WINDOW_ORDER_TYPE_WINDOW | WINDOW_ORDER_TYPE_NOTIFY) == 0 || at + 4 > buf.len() {
        Seq::empty()
    } else {
        let window_id = le32_at(buf, at);
        if ff & WINDOW_ORDER_ICON != 0 {
            match icon_info(buf, at + 4) {
                Some(info) => icon_events(info, window_id),
                None => Seq::empty(),
            }
        } else if ff & WINDOW_ORDER_CACHED_ICON != 0 || ff & WINDOW_ORDER_TYPE_NOTIFY != 0 {
            Seq::empty()
        } else if ff & WINDOW_ORDER_STATE_DELETED != 0 {
            seq![WindowEventView::Deleted(window_id)]
        } else {
            match window_state(buf, at + 4, ff, window_id) {
                Some(info) => seq![WindowEventView::NewOrUpdate(info)],
                None => Seq::empty(),
            }
        }
    }
}

/// Whether a window order with a usable header stands at `at`: its control byte
/// says so, its size and field flags are there, and its size is at least 3 and
/// ends inside the buffer.
pub open spec fn window_order_at(buf: Seq<u8>, at: int) -> bool {
    &&& at + 7 <= buf.len()
    &&& buf[at] & ORDER_STANDARD == 0
    &&& buf[at] >> 2u8 == ORDER_TYPE_WINDOW
    &&& le16_at(buf, at + 1) >= 3
    &&& at + le16_at(buf, at + 1) <= buf.len()
}

/// Whether a frame marker (a control byte and 4 bytes) stands at `at`.
pub open spec fn frame_marker_at(buf: Seq<u8>, at: int) -> bool {
    &&& at + 5 <= buf.len()
    &&& buf[at] & ORDER_STANDARD == 0
    &&& buf[at] >> 2u8 == ORDER_TYPE_FRAME_MARKER
}

/// The events of at most `n` orders from `at` on. The first order that is
/// neither a window order nor a frame marker ends the parse, and so does a window
/// order that is cut off.
pub open spec fn orders_events(buf: Seq<u8>, at: int, n: nat) -> Seq<WindowEventView>
    decreases n,
{
    if n == 0 {
        Seq::empty()
    } else if frame_marker_at(buf, at) {
        orders_events(buf, at + 5, (n - 1) as nat)
    } else if window_order_at(buf, at) {
        let ff = le32_at(buf, at + 3);
        window_order_events(buf, at + 7, ff) + if window_order_whole(buf, at + 7, ff) {
            orders_events(buf, at + le16_at(buf, at + 1), (n - 1) as nat)
        } else {
            Seq::empty()
        }
    } else {
        Seq::empty()
    }
}

/// The events of an orders payload.
pub open spec fn payload_events(payload: Seq<u8>) -> Seq<WindowEventView> {
    if payload.len() < 2 {
        Seq::empty()
    } else {
        orders_events(payload, 2, le16_at(payload, 0) as nat)
    }
}


// ---------------------------------------------------------------------------
// Reading
// ---------------------------------------------------------------------------
/// A forward reader that never leaves its buffer.
pub struct Reader<'a> {
    pub buf: &'a [u8],
    pub pos: usize,
}

impl<'a> Reader<'a> {
    pub open spec fn valid(&self) -> bool {
        self.pos <= self.buf.len()
    }

    /// Whether the reader went from `before` to the offset `to` of the same buffer.
    spec fn moved(&self, before: Self, to: int) -> bool {
        &&& self.buf == before.buf
        &&& self.pos == to
        &&& self.valid()
    }

    pub fn new(buf: &'a [u8]) -> (r: Self)
        ensures
            r.valid(),
            r.buf == buf,
            r.pos == 0,
    {
        Reader { buf, pos: 0 }
    }

    fn remaining(&self) -> (n: usize)
        requires
            self.valid(),
        ensures
            n == self.buf@.len() - self.pos,
    {
        self.buf.len() - self.pos
    }

    fn u8(&mut self) -> (value: Option<u8>)
        requires
            old(self).valid(),
        ensures
            final(self).valid(),
            final(self).buf == old(self).buf,
            match value {
                Some(v) => old(self).pos + 1 <= old(self).buf@.len() && v == old(self).buf@[old(self).pos as int]
                    && final(self).moved(*old(self), old(self).pos + 1),
                None => old(self).pos + 1 > old(self).buf@.len() && *final(self) == *old(self),
            },
    {
        if self.remaining() < 1 {
            return None;
        }
        let v: u8 = self.buf[self.pos];
        self.pos = self.pos + 1;
        Some(v)
    }

    fn u16(&mut self) -> (value: Option<u16>)
        requires
            old(self).valid(),
        ensures
            final(self).valid(),
            final(self).buf == old(self).buf,
            match value {
                Some(v) => old(self).pos + 2 <= old(self).buf@.len() && v == le16_at(
                    old(self).buf@,
                    old(self).pos as int,
                ) && final(self).moved(*old(self), old(self).pos + 2),
                None => old(self).pos + 2 > old(self).buf@.len() && *final(self) == *old(self),
            },
    {
        if self.remaining() < 2 {
            return None;
        }
        let v: u16 = get_le16(self.buf, self.pos);
        self.pos = self.pos + 2;
        Some(v)
    }

    fn u32(&mut self) -> (value: Option<u32>)
        requires
            old(self).valid(),
        ensures
            final(self).valid(),
            final(self).buf == old(self).buf,
            match value {
                Some(v) => old(self).pos + 4 <= old(self).buf@.len() && v == le32_at(
                    old(self).buf@,
                    old(self).pos as int,
                ) && final(self).moved(*old(self), old(self).pos + 4),
                None => old(self).pos + 4 > old(self).buf@.len() && *final(self) == *old(self),
            },
    {
        if self.remaining() < 4 {
            return None;
        }
        let v: u32 = get_le32(self.buf, self.pos);
        self.pos = self.pos + 4;
        Some(v)
    }

    fn skip(&mut self, n: usize) -> (done: Option<()>)
        requires
            old(self).valid(),
        ensures
            final(self).valid(),
            final(self).buf == old(self).buf,
            match done {
                Some(_) => final(self).moved(*old(self), old(self).pos + n),
                None => old(self).pos + n > old(self).buf@.len() && *final(self) == *old(self),
            },
    {
        if self.remaining() < n {
            return None;
        }
        self.pos = self.pos + n;
        Some(())
    }

    /// Steps over a field of `n` bytes if it is present.
    fn skip_if(&mut self, present: bool, n: usize) -> (done: Option<()>)
        requires
            old(self).valid(),
        ensures
            final(self).valid(),
            final(self).buf == old(self).buf,
            match done {
                Some(_) => Some(
                    final(self).pos as int,
                ) == behind(old(self).buf@, Some(old(self).pos as int), present, n as int),
                None => behind(old(self).buf@, Some(old(self).pos as int), present, n as int) is None,
            },
    {
        if present {
            self.skip(n)
        } else {
            Some(())
        }
    }

    fn bytes(&mut self, n: usize) -> (run: Option<&'a [u8]>)
        requires
            old(self).valid(),
        ensures
            final(self).valid(),
            final(self).buf == old(self).buf,
            match run {
                Some(s) => s@ == old(self).buf@.subrange(old(self).pos as int, old(self).pos + n)
                    && final(self).moved(*old(self), old(self).pos + n),
                None => old(self).pos + n > old(self).buf@.len() && *final(self) == *old(self),
            },
    {
        if self.remaining() < n {
            return None;
        }
        let buf = self.buf;
        let run = vstd::slice::slice_subrange(buf, self.pos, self.pos + n);
        self.pos = self.pos + n;
        Some(run)
    }

    /// A 16-bit byte count followed by little-endian UTF-16. A text that was written so is
    /// read back whole, and the reader stands behind it.
    pub fn unicode_string(&mut self) -> (text: Option<String>)
        requires
            old(self).valid(),
        ensures
            final(self).valid(),
            final(self).buf == old(self).buf,
            match text {
                Some(s) => counted_text(old(self).buf@, old(self).pos as int) == Some((s@, final(self).pos as int)),
                None => counted_text(old(self).buf@, old(self).pos as int) is None,
            },
            forall|written: Seq<char>, tail: Seq<u8>|
                text_bytes(written).len() <= 0xFFFF && old(self).buf@.skip(old(self).pos as int)
                    == #[trigger] counted_bytes(written, tail) ==> {
                    &&& text is Some
                    &&& text->0@ == written
                    &&& final(self).pos == old(self).pos + 2 + text_bytes(written).len()
                },
    {
        proof {
            lemma_counted_text_at(self.buf@, self.pos as int);
        }
        let cb: usize = match self.u16() {
            Some(v) => v as usize,
            None => return None,
        };
        match self.bytes(cb) {
            Some(run) => Some(decode_bytes(run)),
            None => None,
        }
    }

    /// A 16-bit count of rectangles, stepped over together with them.
    fn skip_rects_if(&mut self, present: bool) -> (done: Option<()>)
        requires
            old(self).valid(),
        ensures
            final(self).valid(),
            final(self).buf == old(self).buf,
            ({
                let end = behind_counted(old(self).buf@, Some(old(self).pos as int), present, 8);
                match done {
                    Some(_) => end is Some && final(self).moved(*old(self), end->0),
                    None => end is None,
                }
            }),
    {
        if !present {
            return Some(());
        }
        let num: usize = match self.u16() {
            Some(v) => v as usize,
            None => return None,
        };
        self.skip(num * 8)
    }

    fn rect(&mut self) -> (rect: Option<Rect>)
        requires
            old(self).valid(),
        ensures
            final(self).valid(),
            final(self).buf == old(self).buf,
            match rect {
                Some(r) => r == rect_at(old(self).buf@, old(self).pos as int) && final(self).moved(
                    *old(self),
                    old(self).pos + 8,
                ),
                None => old(self).pos + 8 > old(self).buf@.len(),
            },
    {
        if self.remaining() < 8 {
            return None;
        }
        let left: u16 = get_le16(self.buf, self.pos);
        let top: u16 = get_le16(self.buf, self.pos + 2);
        let right: u16 = get_le16(self.buf, self.pos + 4);
        let bottom: u16 = get_le16(self.buf, self.pos + 6);
        self.pos = self.pos + 8;
        Some(Rect { left, top, right, bottom })
    }

    /// A 16-bit count of rectangles and the rectangles.
    fn rects(&mut self) -> (rects: Option<Vec<Rect>>)
        requires
            old(self).valid(),
        ensures
            final(self).valid(),
            final(self).buf == old(self).buf,
            ({
                let p = old(self).pos as int;
                let end = behind_counted(old(self).buf@, Some(p), true, 8);
                match rects {
                    Some(list) => end is Some && final(self).moved(*old(self), end->0) && list@ == rects_at(
                        old(self).buf@,
                        p + 2,
                        le16_at(old(self).buf@, p) as int,
                    ),
                    None => end is None,
                }
            }),
    {
        let num: usize = match self.u16() {
            Some(v) => v as usize,
            None => return None,
        };
        let ghost start = self.pos as int;
        let mut list: Vec<Rect> = Vec::with_capacity(num);
        let mut i: usize = 0;
        while i < num
            invariant
                i <= num,
                num == le16_at(old(self).buf@, start - 2),
                start == old(self).pos + 2,
                self.moved(*old(self), start + 8 * i),
                list@ == rects_at(old(self).buf@, start, i as int),
            decreases num - i,
        {
            match self.rect() {
                Some(rect) => {
                    list.push(rect);
                }
                None => return None,
            }
            i = i + 1;
            assert(list@ =~= rects_at(old(self).buf@, start, i as int));
        }
        Some(list)
    }

    /// Steps over the owner and the styles.
    fn skip_to_show(&mut self, ff: u32) -> (done: Option<()>)
        requires
            old(self).valid(),
        ensures
            final(self).valid(),
            final(self).buf == old(self).buf,
            match done {
                Some(_) => at_show(old(self).buf@, old(self).pos as int, ff) == Some(final(self).pos as int),
                None => at_show(old(self).buf@, old(self).pos as int, ff) is None,
            },
    {
        self.skip_if(ff & WINDOW_ORDER_FIELD_OWNER != 0, 4)?;
        self.skip_if(ff & WINDOW_ORDER_FIELD_STYLE != 0, 8)
    }

    /// Steps over everything between the title and the window offset.
    fn skip_to_offset(&mut self, ff: u32) -> (done: Option<()>)
        requires
            old(self).valid(),
        ensures
            final(self).valid(),
            final(self).buf == old(self).buf,
            match done {
                Some(_) => at_offset(old(self).buf@, Some(old(self).pos as int), ff) == Some(
                    final(self).pos as int,
                ),
                None => at_offset(old(self).buf@, Some(old(self).pos as int), ff) is None,
            },
    {
        self.skip_if(ff & WINDOW_ORDER_FIELD_CLIENT_AREA_OFFSET != 0, 8)?;
        self.skip_if(ff & WINDOW_ORDER_FIELD_CLIENT_AREA_SIZE != 0, 8)?;
        self.skip_if(ff & WINDOW_ORDER_FIELD_RESIZE_MARGIN_X != 0, 8)?;
        self.skip_if(ff & WINDOW_ORDER_FIELD_RESIZE_MARGIN_Y != 0, 8)?;
        self.skip_if(ff & WINDOW_ORDER_FIELD_RP_CONTENT != 0, 1)?;
        self.skip_if(ff & WINDOW_ORDER_FIELD_ROOT_PARENT != 0, 4)
    }

    /// Steps over the window rectangles and the visible offset.
    fn skip_to_visibility(&mut self, ff: u32) -> (done: Option<()>)
        requires
            old(self).valid(),
        ensures
            final(self).valid(),
            final(self).buf == old(self).buf,
            match done {
                Some(_) => at_visibility(old(self).buf@, Some(old(self).pos as int), ff) == Some(
                    final(self).pos as int,
                ),
                None => at_visibility(old(self).buf@, Some(old(self).pos as int), ff) is None,
            },
    {
        self.skip_rects_if(ff & WINDOW_ORDER_FIELD_WND_RECTS != 0)?;
        self.skip_if(ff & WINDOW_ORDER_FIELD_VIS_OFFSET != 0, 8)
    }

    /// The show state, if it is present.
    fn show_state_if(&mut self, present: bool) -> (value: Option<Option<u8>>)
        requires
            old(self).valid(),
        ensures
            final(self).valid(),
            final(self).buf == old(self).buf,
            ({
                let p = old(self).pos as int;
                let end = behind(old(self).buf@, Some(p), present, 1);
                match value {
                    Some(v) => end == Some(final(self).pos as int) && v == (if present {
                        Some(old(self).buf@[p])
                    } else {
                        None
                    }),
                    None => end is None,
                }
            }),
    {
        if present {
            match self.u8() {
                Some(v) => Some(Some(v)),
                None => None,
            }
        } else {
            Some(None)
        }
    }

    /// The title, if it is present.
    fn title_if(&mut self, present: bool) -> (title: Option<Option<String>>)
        requires
            old(self).valid(),
        ensures
            final(self).valid(),
            final(self).buf == old(self).buf,
            ({
                let p = old(self).pos as int;
                let end = behind_counted(old(self).buf@, Some(p), present, 1);
                match title {
                    Some(t) => end == Some(final(self).pos as int) && (t is Some <==> present) && (present
                        ==> t->0@ == decode(units_of(old(self).buf@.subrange(p + 2, end->0)))),
                    None => end is None,
                }
            }),
    {
        if present {
            match self.unicode_string() {
                Some(text) => Some(Some(text)),
                None => None,
            }
        } else {
            Some(None)
        }
    }

    /// Two 32-bit integers, if they are present.
    fn pair_if(&mut self, present: bool) -> (pair: Option<Option<(u32, u32)>>)
        requires
            old(self).valid(),
        ensures
            final(self).valid(),
            final(self).buf == old(self).buf,
            ({
                let p = old(self).pos as int;
                let end = behind(old(self).buf@, Some(p), present, 8);
                match pair {
                    Some(v) => end == Some(final(self).pos as int) && v == (if present {
                        Some((le32_at(old(self).buf@, p), le32_at(old(self).buf@, p + 4)))
                    } else {
                        None
                    }),
                    None => end is None,
                }
            }),
    {
        if present {
            let first: u32 = self.u32()?;
            let second: u32 = self.u32()?;
            Some(Some((first, second)))
        } else {
            Some(None)
        }
    }

    /// The visibility rectangles, if they are present and more than one: a
    /// single rectangle is the whole window and clips nothing.
    fn visibility_if(&mut self, present: bool) -> (rects: Option<Option<Vec<Rect>>>)
        requires
            old(self).valid(),
        ensures
            final(self).valid(),
            final(self).buf == old(self).buf,
            ({
                let p = old(self).pos as int;
                let end = behind_counted(old(self).buf@, Some(p), present, 8);
                let num = le16_at(old(self).buf@, p) as int;
                match rects {
                    Some(list) => end == Some(final(self).pos as int) && (list is Some <==> present && num > 1) && (
                    list is Some ==> list->0@ == rects_at(old(self).buf@, p + 2, num)),
                    None => end is None,
                }
            }),
    {
        if present {
            let rects = self.rects()?;
            if rects.len() > 1 {
                Some(Some(rects))
            } else {
                Some(None)
            }
        } else {
            Some(None)
        }
    }
}

/// Reads the fields of a window create or update order and leaves the reader behind the
/// last of them.
fn parse_window_state(r: &mut Reader<'_>, ff: u32, window_id: u32) -> (info: Option<WindowInfo>)
    requires
        old(r).valid(),
    ensures
        match info {
            Some(i) => {
                &&& window_state(old(r).buf@, old(r).pos as int, ff, window_id) == Some(i@)
                &&& window_state_end(old(r).buf@, old(r).pos as int, ff) == Some(final(r).pos as int)
            },
            None => window_state_end(old(r).buf@, old(r).pos as int, ff) is None,
        },
        final(r).valid(),
        final(r).buf == old(r).buf,
{
    r.skip_to_show(ff)?;
    let show_state = r.show_state_if(ff & WINDOW_ORDER_FIELD_SHOW != 0)?;
    let title = r.title_if(ff & WINDOW_ORDER_FIELD_TITLE != 0)?;
    r.skip_to_offset(ff)?;
    let offset = r.pair_if(ff & WINDOW_ORDER_FIELD_WND_OFFSET != 0)?;
    r.skip_if(ff & WINDOW_ORDER_FIELD_WND_CLIENT_DELTA != 0, 8)?;
    let size = r.pair_if(ff & WINDOW_ORDER_FIELD_WND_SIZE != 0)?;
    r.skip_to_visibility(ff)?;
    let visibility_rects = r.visibility_if(ff & WINDOW_ORDER_FIELD_VISIBILITY != 0)?;
    let mut info = WindowInfo::default();
    info.window_id = window_id;
    info.is_new = ff & WINDOW_ORDER_STATE_NEW != 0;
    info.show_state = show_state;
    info.title = title;
    if let Some((x, y)) = offset {
        info.x = Some(#[verifier::truncate] (x as i32));
        info.y = Some(#[verifier::truncate] (y as i32));
    }
    if let Some((width, height)) = size {
        info.width = Some(width);
        info.height = Some(height);
    }
    info.visibility_rects = visibility_rects;
    Some(info)
}

/// Whether the AND mask marks pixel `(x, row)` as transparent.
fn mask_bit(mask: &[u8], stride: usize, x: usize, row: usize) -> (set: bool)
    requires
        row * stride + x / 8 <= usize::MAX,
    ensures
        set == mask_bit_of(mask@, stride as int, x as int, row as int),
{
    assert(row * stride >= 0) by (nonlinear_arith);
    let at: usize = row * stride + x / 8;
    if at < mask.len() {
        let shift: usize = 7 - x % 8;
        (mask[at] >> shift) & 1u8 == 1
    } else {
        false
    }
}

fn has_alpha(color: &[u8]) -> (found: bool)
    ensures
        found == any_alpha(color@),
{
    let mut k: usize = 3;
    while k < color.len()
        invariant
            k % 4 == 3,
            forall|j: int| 0 <= j < k && j < color@.len() && j % 4 == 3 ==> color@[j] == 0,
        decreases color@.len() + 4 - k,
    {
        if color[k] != 0 {
            return true;
        }
        if color.len() - k <= 4 {
            return false;
        }
        k = k + 4;
    }
    false
}

/// The place of pixel `(x, y)` in a row-major bitmap of `w` by `h` pixels.
proof fn lemma_pixel_index(w: int, h: int, x: int, y: int)
    requires
        0 <= x < w,
        0 <= y < h,
    ensures
        0 <= y * w + x < w * h,
        (y * w + x) % w == x,
        (y * w + x) / w == y,
{
    assert(0 <= y * w + x < w * h) by (nonlinear_arith)
        requires
            0 <= x < w,
            0 <= y < h,
    ;
    vstd::arithmetic::div_mod::lemma_fundamental_div_mod_converse(y * w + x, w, y, x);
}

/// Where the source bytes of pixel `(x, row)` end in a colour bitmap.
proof fn lemma_source_index(w: int, h: int, x: int, row: int)
    requires
        1 <= w <= 256,
        1 <= h <= 256,
        0 <= x < w,
        0 <= row < h,
    ensures
        0 <= (row * w + x) * 4 + 4 <= w * h * 4 <= 0x4_0000,
        0 <= row * stride24_of(w) + x * 3 + 3 <= stride24_of(w) * h <= 0x3_0000,
        0 <= row * mask_stride_of(w) + x / 8 < mask_stride_of(w) * h <= 0x2000,
{
    lemma_pixel_index(w, h, x, row);
    assert(w * h <= 0x1_0000) by (nonlinear_arith)
        requires
            1 <= w <= 256,
            1 <= h <= 256,
    ;
    let s = stride24_of(w);
    assert(3 * w <= s <= 768);
    assert(0 <= row * s && row * s + s <= s * h && s * h <= 0x3_0000) by (nonlinear_arith)
        requires
            0 <= s <= 768,
            0 <= row < h,
            1 <= h <= 256,
    ;
    let m = mask_stride_of(w);
    assert(x / 8 < m <= 32);
    assert(0 <= row * m && row * m + m <= m * h && m * h <= 0x2000) by (nonlinear_arith)
        requires
            0 <= m <= 32,
            0 <= row < h,
            1 <= h <= 256,
    ;
}

/// Decodes a bottom-up icon bitmap to top-down RGBA. A 32-bpp bitmap uses its
/// alpha channel when it has one and the AND mask otherwise, a 24-bpp bitmap the
/// AND mask; other depths are not supported.
pub fn decode_icon(bpp: u8, width: u16, height: u16, color: &[u8], mask: &[u8]) -> (rgba: Option<Vec<u8>>)
    ensures
        match rgba {
            Some(out) => icon_rgba(bpp, width, height, color@, mask@) == Some(out@),
            None => icon_rgba(bpp, width, height, color@, mask@) is None,
        },
{
    let w: usize = width as usize;
    let h: usize = height as usize;
    if w == 0 || h == 0 || w > 256 || h > 256 {
        return None;
    }
    proof {
        lemma_source_index(w as int, h as int, 0, 0);
    }
    let mask_stride: usize = (w + 31) / 32 * 4;
    let have_mask: bool = mask.len() >= mask_stride * h;
    let stride: usize = (w * 3 + 3) / 4 * 4;
    let mut alpha_used = false;
    if bpp == 32 {
        if color.len() < w * h * 4 {
            return None;
        }
        alpha_used = has_alpha(color);
    } else if bpp == 24 {
        if color.len() < stride * h {
            return None;
        }
    } else {
        return None;
    }
    let total: usize = w * h;
    let mut out: Vec<u8> = Vec::with_capacity(total * 4);
    let mut p: usize = 0;
    let mut x: usize = 0;
    let mut y: usize = 0;
    while p < total
        invariant
            1 <= w <= 256,
            1 <= h <= 256,
            total == w * h,
            total <= 0x1_0000,
            icon_decodable(bpp, w as int, h as int, color@),
            mask_stride == mask_stride_of(w as int),
            stride == stride24_of(w as int),
            have_mask == (mask@.len() >= mask_stride * h),
            alpha_used == (bpp == 32 && any_alpha(color@)),
            p <= total,
            x < w,
            p < total ==> y < h,
            p == y * w + x,
            out@.len() == 4 * p,
            forall|k: int|
                0 <= k < 4 * p ==> #[trigger] out@[k] == icon_byte(bpp, w as int, h as int, color@, mask@, k),
        decreases total - p,
    {
        let row: usize = h - 1 - y;
        proof {
            lemma_pixel_index(w as int, h as int, x as int, y as int);
            lemma_source_index(w as int, h as int, x as int, row as int);
        }
        let at: usize = if bpp == 32 {
            (row * w + x) * 4
        } else {
            row * stride + x * 3
        };
        let alpha: u8 = if alpha_used {
            color[at + 3]
        } else if have_mask && mask_bit(mask, mask_stride, x, row) {
            0
        } else {
            255
        };
        let ghost before = out@;
        out.push(color[at + 2]);
        out.push(color[at + 1]);
        out.push(color[at]);
        out.push(alpha);
        assert forall|k: int| 0 <= k < 4 * (p + 1) implies #[trigger] out@[k] == icon_byte(
            bpp,
            w as int,
            h as int,
            color@,
            mask@,
            k,
        ) by {
            if k < 4 * p {
                assert(out@[k] == before[k]);
            } else {
                assert(k / 4 == p);
            }
        }
        p = p + 1;
        x = x + 1;
        if x == w {
            proof {
                assert(y * w + w == (y + 1) * w) by (nonlinear_arith);
                assert(p < total ==> y + 1 < h) by (nonlinear_arith)
                    requires
                        p == (y + 1) * w,
                        total == w * h,
                        w >= 1,
                ;
            }
            x = 0;
            y = y + 1;
        }
    }
    assert(out@ =~= icon_rgba(bpp, width, height, color@, mask@)->0);
    Some(out)
}

/// The event of an icon order, if its icon can be decoded; `None` where it is cut off.
fn parse_icon_order(r: &mut Reader<'_>, window_id: u32) -> (event: Option<Option<WindowEvent>>)
    requires
        old(r).valid(),
    ensures
        match icon_info(old(r).buf@, old(r).pos as int) {
            Some(info) => {
                &&& event is Some
                &&& icon_events(info, window_id) == match event->0 {
                    Some(e) => seq![e@],
                    None => Seq::empty(),
                }
            },
            None => event is None,
        },
        final(r).buf == old(r).buf,
{
    // The cache slot is not used: icons are forwarded, not cached.
    let _cache_entry = r.u16();
    let _cache_id = r.u8();
    let ghost p = r.pos as int;
    assert(p == old(r).pos + icon_cache_len(old(r).buf@, old(r).pos as int));
    let bpp: u8 = r.u8()?;
    let width: u16 = r.u16()?;
    let height: u16 = r.u16()?;
    let table_len: usize = if bpp == 1 || bpp == 4 || bpp == 8 {
        r.u16()? as usize
    } else {
        0
    };
    let mask_len: usize = r.u16()? as usize;
    let color_len: usize = r.u16()? as usize;
    let mask = r.bytes(mask_len)?;
    let _color_table = r.bytes(table_len)?;
    let color = r.bytes(color_len)?;
    match decode_icon(bpp, width, height, color, mask) {
        Some(rgba) => Some(Some(WindowEvent::Icon { window_id, width, height, rgba })),
        None => Some(None),
    }
}

/// The mathematical value of a run of events grows with the run.
proof fn lemma_event_views_push(events: Seq<WindowEvent>, event: WindowEvent)
    ensures
        event_views(events.push(event)) == event_views(events).push(event@),
{
    assert(event_views(events.push(event)) =~= event_views(events).push(event@));
}

/// Adds the events of a desktop order and says whether all of it was there.
fn parse_desktop_order(r: &mut Reader<'_>, ff: u32, events: &mut Vec<WindowEvent>) -> (whole: bool)
    requires
        old(r).valid(),
    ensures
        whole == desktop_whole(old(r).buf@, old(r).pos as int, ff),
        event_views(final(events)@) == event_views(old(events)@) + desktop_events(
            old(r).buf@,
            old(r).pos as int,
            ff,
        ),
        final(r).valid(),
        final(r).buf == old(r).buf,
{
    let ghost before = event_views(events@);
    let ghost buf = r.buf@;
    let ghost at = r.pos as int;
    if ff & WINDOW_ORDER_FIELD_DESKTOP_ACTIVE_WND != 0 {
        match r.u32() {
            Some(active) => {
                let event = WindowEvent::ActiveWindow(active);
                proof {
                    lemma_event_views_push(events@, event);
                }
                events.push(event);
                assert(event_views(events@) =~= before + seq![WindowEventView::ActiveWindow(active)]);
            }
            None => {
                assert(event_views(events@) =~= before + desktop_events(buf, at, ff));
                return false;
            }
        }
    }
    let ghost p = r.pos as int;
    let ghost middle = event_views(events@);
    if ff & WINDOW_ORDER_FIELD_DESKTOP_ZORDER != 0 {
        let num: usize = match r.u8() {
            Some(v) => v as usize,
            None => {
                assert(event_views(events@) =~= before + desktop_events(buf, at, ff));
                return false;
            }
        };
        let mut ids: Vec<u32> = Vec::with_capacity(num);
        let mut i: usize = 0;
        while i < num
            invariant
                i <= num,
                num == buf[p],
                r.valid(),
                r.buf == old(r).buf,
                r.buf@ == buf,
                r.pos == p + 1 + 4 * i,
                ids@ == ids_at(buf, p + 1, i as int),
                p + 1 + 4 * num > buf.len() ==> !desktop_whole(buf, at, ff) && before + desktop_events(buf, at, ff) == middle,
                event_views(events@) == middle,
                event_views(old(events)@) == before,
                at == old(r).pos,
                buf == old(r).buf@,
            decreases num - i,
        {
            match r.u32() {
                Some(id) => {
                    ids.push(id);
                }
                None => {
                    return false;
                }
            }
            i = i + 1;
            assert(ids@ =~= ids_at(buf, p + 1, i as int));
        }
        let event = WindowEvent::ZOrder(ids);
        proof {
            lemma_event_views_push(events@, event);
        }
        events.push(event);
    }
    assert(event_views(events@) =~= before + desktop_events(buf, at, ff));
    true
}

/// Adds the events of a window order and says whether the fields that are read of it
/// were all there.
fn parse_window_order(r: &mut Reader<'_>, ff: u32, events: &mut Vec<WindowEvent>) -> (whole: bool)
    requires
        old(r).valid(),
    ensures
        whole == window_order_whole(old(r).buf@, old(r).pos as int, ff),
        event_views(final(events)@) == event_views(old(events)@) + window_order_events(
            old(r).buf@,
            old(r).pos as int,
            ff,
        ),
        final(r).buf == old(r).buf,
{
    let ghost before = event_views(events@);
    let ghost expected = window_order_events(r.buf@, r.pos as int, ff);
    if ff & WINDOW_ORDER_TYPE_DESKTOP != 0 {
        return parse_desktop_order(r, ff, events);
    }
    assert(before + Seq::<WindowEventView>::empty() =~= before);
    if ff & (WINDOW_ORDER_TYPE_WINDOW | WINDOW_ORDER_TYPE_NOTIFY) == 0 {
        return true;
    }
    let window_id: u32 = match r.u32() {
        Some(id) => id,
        None => return false,
    };
    let mut event: Option<WindowEvent> = None;
    if ff & WINDOW_ORDER_ICON != 0 {
        event = match parse_icon_order(r, window_id) {
            Some(event) => event,
            None => return false,
        };
    } else if ff & WINDOW_ORDER_CACHED_ICON != 0 || ff & WINDOW_ORDER_TYPE_NOTIFY != 0 {
        // Icons by cache id and notification icons are not shown.
    } else if ff & WINDOW_ORDER_STATE_DELETED != 0 {
        event = Some(WindowEvent::Deleted(window_id));
    } else {
        event = match parse_window_state(r, ff, window_id) {
            Some(info) => Some(WindowEvent::NewOrUpdate(info)),
            None => return false,
        };
    }
    match event {
        Some(e) => {
            proof {
                lemma_event_views_push(events@, e);
                assert(expected =~= seq![e@]);
                assert(before + seq![e@] =~= before.push(e@));
            }
            events.push(e);
        }
        None => {
            assert(expected =~= Seq::<WindowEventView>::empty());
        }
    }
    true
}

/// Parses an orders payload and gives all the window events found. A malformed order ends
/// the parse, and what was found before stands: one that is neither a window order nor a
/// frame marker, one whose header is cut off or gives a size that is too small or leaves
/// the payload, and one whose fields are cut off. What a window order holds behind the
/// fields that are read is stepped over by its size.
pub fn parse(payload: &[u8]) -> (events: Vec<WindowEvent>)
    ensures
        event_views(events@) == payload_events(payload@),
{
    let mut events: Vec<WindowEvent> = Vec::new();
    assert(event_views(events@) =~= Seq::<WindowEventView>::empty());
    let mut r = Reader::new(payload);
    let number_orders: u16 = match r.u16() {
        Some(n) => n,
        None => return events,
    };
    let ghost total = payload_events(payload@);
    let mut left: u16 = number_orders;
    assert(event_views(events@) + total =~= total);
    while left > 0
        invariant
            r.valid(),
            r.buf@ == payload@,
            event_views(events@) + orders_events(payload@, r.pos as int, left as nat) == total,
            total == payload_events(payload@),
        decreases left,
    {
        let ghost at = r.pos as int;
        let ghost n = left as nat;
        let ghost before = event_views(events@);
        proof {
            assert(before + Seq::<WindowEventView>::empty() =~= before);
        }
        left = left - 1;
        let order_start: usize = r.pos;
        let control: u8 = match r.u8() {
            Some(v) => v,
            None => return events,
        };
        // A primary or secondary order carries no size to step over it by.
        if control & ORDER_STANDARD != 0 {
            return events;
        }
        let order_type: u8 = control >> 2u8;
        if order_type == ORDER_TYPE_FRAME_MARKER {
            if r.skip(4).is_none() {
                return events;
            }
        } else if order_type == ORDER_TYPE_WINDOW {
            let order_size: u16 = match r.u16() {
                Some(v) => v,
                None => return events,
            };
            let field_flags: u32 = match r.u32() {
                Some(v) => v,
                None => return events,
            };
            if order_size < 3 || order_size as usize > payload.len() - order_start {
                return events;
            }
            if !parse_window_order(&mut r, field_flags, &mut events) {
                proof {
                    let these = window_order_events(payload@, at + 7, field_flags);
                    assert(these + Seq::<WindowEventView>::empty() =~= these);
                }
                return events;
            }
            // The size is trusted: the next order begins behind it, whichever
            // fields of this one were read.
            r.pos = order_start + order_size as usize;
            proof {
                let these = window_order_events(payload@, at + 7, field_flags);
                let rest = orders_events(payload@, r.pos as int, (n - 1) as nat);
                assert(before + (these + rest) =~= (before + these) + rest);
            }
        } else {
            return events;
        }
    }
    assert(event_views(events@) =~= total);
    events
}

/// The size of an order that is whole alone decides where the next order begins:
/// whatever stands in the part of a window order that is not read, the events of the
/// orders behind it follow the order's own.
pub proof fn law_resync_by_order_size(payload: Seq<u8>, at: int, n: nat)
    requires
        0 <= at,
        n > 0,
        window_order_at(payload, at),
        window_order_whole(payload, at + 7, le32_at(payload, at + 3)),
    ensures
        orders_events(payload, at, n) == window_order_events(payload, at + 7, le32_at(payload, at + 3))
            + orders_events(payload, at + le16_at(payload, at + 1), (n - 1) as nat),
{
    assert(ORDER_TYPE_WINDOW != ORDER_TYPE_FRAME_MARKER);
}

/// A malformed order ends the parse: whatever is said to follow it, nothing comes behind
/// what it holds itself, which is nothing unless it is a desktop order that is cut off in
/// its z-order.
pub proof fn law_malformed_order_ends_the_parse(payload: Seq<u8>, at: int, n: nat)
    requires
        0 <= at,
        n > 0,
        !frame_marker_at(payload, at),
        !(window_order_at(payload, at) && window_order_whole(payload, at + 7, le32_at(payload, at + 3))),
    ensures
        orders_events(payload, at, n) == if window_order_at(payload, at) && le32_at(payload, at + 3)
            & WINDOW_ORDER_TYPE_DESKTOP != 0 {
            desktop_events(payload, at + 7, le32_at(payload, at + 3))
        } else {
            Seq::empty()
        },
{
    let own = window_order_events(payload, at + 7, le32_at(payload, at + 3));
    assert(own + Seq::<WindowEventView>::empty() =~= own);
}

/// What follows an order takes nothing back, also where a malformed order ends the parse:
/// the events of a payload begin with those of any shorter count of its orders.
pub proof fn law_earlier_events_stand(payload: Seq<u8>, at: int, fewer: nat, more: nat)
    requires
        fewer <= more,
    ensures
        orders_events(payload, at, fewer).is_prefix_of(orders_events(payload, at, more)),
    decreases more,
{
    if fewer > 0 {
        if frame_marker_at(payload, at) {
            law_earlier_events_stand(payload, at + 5, (fewer - 1) as nat, (more - 1) as nat);
        } else if window_order_at(payload, at) {
            let next = at + le16_at(payload, at + 1);
            law_earlier_events_stand(payload, next, (fewer - 1) as nat, (more - 1) as nat);
            let ff = le32_at(payload, at + 3);
            let own = window_order_events(payload, at + 7, ff);
            let short = orders_events(payload, next, (fewer - 1) as nat);
            let long = orders_events(payload, next, (more - 1) as nat);
            if window_order_whole(payload, at + 7, ff) {
                assert((own + short) =~= (own + long).subrange(0, (own + short).len() as int)) by {
                    assert(short =~= long.subrange(0, short.len() as int));
                }
            } else {
                let alone = own + Seq::<WindowEventView>::empty();
                assert(alone =~= alone.subrange(0, alone.len() as int));
            }
        }
    }
}

/// A counted text is read back whole, zero characters included, and what is read next
/// begins behind it; where not all of its bytes are there, nothing is read.
pub proof fn law_counted_text_reads_back(before: Seq<u8>, text: Seq<char>, tail: Seq<u8>, n: int)
    requires
        text_bytes(text).len() <= 0xFFFF,
    ensures
        ({
            let bytes = text_bytes(text);
            let head = before + le16_bytes(bytes.len() as u16);
            let end = before.len() + 2 + bytes.len();
            &&& counted_text(head + bytes + tail, before.len() as int) == Some((text, end as int))
            &&& (head + bytes + tail).skip(end as int) == tail
            &&& 0 <= n < bytes.len() ==> counted_text(head + bytes.take(n), before.len() as int) is None
        }),
{
    let bytes = text_bytes(text);
    let head = before + le16_bytes(bytes.len() as u16);
    let at = before.len() as int;
    let buf = head + bytes + tail;
    crate::utf16::law_text_round_trip(text);
    crate::wire::law_le16_round_trip(bytes.len() as u16, before, bytes + tail);
    assert(buf =~= before + le16_bytes(bytes.len() as u16) + (bytes + tail));
    assert(buf.subrange(at + 2, at + 2 + bytes.len()) =~= bytes);
    assert(buf.skip(at + 2 + bytes.len()) =~= tail);
    if 0 <= n < bytes.len() {
        crate::wire::law_le16_round_trip(bytes.len() as u16, before, bytes.take(n));
    }
}

/// What [`law_counted_text_reads_back`] says, of a place in a buffer.
proof fn lemma_counted_text_at(buf: Seq<u8>, at: int)
    requires
        0 <= at <= buf.len(),
    ensures
        forall|written: Seq<char>, tail: Seq<u8>|
            text_bytes(written).len() <= 0xFFFF && buf.skip(at) == #[trigger] counted_bytes(written, tail)
                ==> counted_text(buf, at) == Some((written, at + 2 + text_bytes(written).len())),
{
    let before = buf.take(at);
    assert forall|written: Seq<char>, tail: Seq<u8>|
        text_bytes(written).len() <= 0xFFFF && buf.skip(at) == #[trigger] counted_bytes(
            written,
            tail,
        ) implies counted_text(buf, at) == Some((written, at + 2 + text_bytes(written).len())) by {
        let bytes = text_bytes(written);
        law_counted_text_reads_back(before, written, tail, 0);
        assert(buf =~= before + counted_bytes(written, tail));
        assert(buf =~= before + le16_bytes(bytes.len() as u16) + bytes + tail);
    }
}

/// Every icon event holds a whole bitmap: four bytes for each of its pixels.
pub proof fn law_icon_is_whole(bpp: u8, width: u16, height: u16, color: Seq<u8>, mask: Seq<u8>)
    requires
        icon_rgba(bpp, width, height, color, mask) is Some,
    ensures
        icon_rgba(bpp, width, height, color, mask)->0.len() == width * height * 4,
        forall|x: int, y: int|
            0 <= x < width && 0 <= y < height ==> {
                let k = (y * width + x) * 4;
                let rgba = icon_rgba(bpp, width, height, color, mask)->0;
                (rgba[k], rgba[k + 1], rgba[k + 2], rgba[k + 3]) == #[trigger] icon_pixel(
                    bpp,
                    width as int,
                    height as int,
                    color,
                    mask,
                    x,
                    y,
                )
            },
{
    let (w, h) = (width as int, height as int);
    let rgba = icon_rgba(bpp, width, height, color, mask)->0;
    assert(w * h >= 0) by (nonlinear_arith)
        requires
            w >= 0,
            h >= 0,
    ;
    assert forall|x: int, y: int| 0 <= x < width && 0 <= y < height implies {
        let k = (y * width + x) * 4;
        (rgba[k], rgba[k + 1], rgba[k + 2], rgba[k + 3]) == #[trigger] icon_pixel(bpp, w, h, color, mask, x, y)
    } by {
        let k = (y * w + x) * 4;
        lemma_pixel_index(w, h, x, y);
        assert(k / 4 == y * w + x && (k + 1) / 4 == y * w + x && (k + 2) / 4 == y * w + x && (k + 3) / 4 == y * w
            + x);
    }
}

/// The number of the first byte of a row of an icon's colour bitmap, where rows of `stride`
/// bytes stand from the bottom up.
pub open spec fn row_start(h: int, y: int, stride: int) -> int {
    (h - 1 - y) * stride
}

/// An icon shows its picture upright, in red, green, blue and alpha. The bitmap of an icon
/// holds its rows from the bottom up, blue first, then green and red: with 32 bits a pixel,
/// and then alpha; with 24 bits in rows filled up to a multiple of four bytes. With 32 bits
/// the alpha is the bitmap's own, if any pixel of it has some; otherwise, and with 24 bits, a
/// pixel is opaque unless its bit of the mask is set. The mask has a bit for each pixel, the
/// highest bit of a byte first, in rows from the bottom up that are filled up to a multiple of
/// four bytes; one that is too short hides nothing.
pub proof fn law_icon_shows_its_picture(
    bpp: u8,
    width: u16,
    height: u16,
    color: Seq<u8>,
    mask: Seq<u8>,
    stride: int,
    mask_stride: int,
    x: int,
    y: int,
)
    requires
        1 <= width <= 256,
        1 <= height <= 256,
        bpp == 32 || bpp == 24,
        bpp == 32 ==> stride == 4 * width,
        bpp == 24 ==> stride % 4 == 0 && 3 * width <= stride < 3 * width + 4,
        color.len() >= stride * height,
        mask_stride % 4 == 0,
        width <= 8 * mask_stride < width + 32,
        0 <= x < width,
        0 <= y < height,
    ensures
        ({
            let shown = icon_rgba(bpp, width, height, color, mask);
            let rgba = shown->0;
            let k = (y * width + x) * 4;
            let at = row_start(height as int, y, stride) + x * (bpp / 8);
            let hidden = mask.len() >= mask_stride * height && (mask[row_start(height as int, y, mask_stride) + x
                / 8] >> ((7 - x % 8) as usize)) & 1u8 == 1;
            let own_alpha = bpp == 32 && exists|p: int| 0 <= p < color.len() && p % 4 == 3 && color[p] != 0;
            &&& shown is Some
            &&& rgba.len() == 4 * width * height
            &&& rgba[k] == color[at + 2]
            &&& rgba[k + 1] == color[at + 1]
            &&& rgba[k + 2] == color[at]
            &&& own_alpha ==> rgba[k + 3] == color[at + 3]
            &&& !own_alpha && hidden ==> rgba[k + 3] == 0
            &&& !own_alpha && !hidden ==> rgba[k + 3] == 255
        }),
{
    let (w, h) = (width as int, height as int);
    let row = h - 1 - y;
    assert(bpp == 24 ==> stride == stride24_of(w));
    assert(mask_stride == mask_stride_of(w));
    assert(w * h * 4 == stride * h || bpp == 24) by (nonlinear_arith)
        requires
            bpp == 32 ==> stride == 4 * w,
            bpp == 32 || bpp == 24,
    ;
    assert(row * (4 * w) == row * w * 4) by (nonlinear_arith);
    assert(4 * w * h == w * h * 4) by (nonlinear_arith);
    law_icon_is_whole(bpp, width, height, color, mask);
    let px = icon_pixel(bpp, w, h, color, mask, x, y);
    if mask.len() >= mask_stride * h {
        assert(row * mask_stride + mask_stride <= mask_stride * h) by (nonlinear_arith)
            requires
                row < h,
                0 <= mask_stride,
        ;
    }
}

/// An icon of any other depth, of no or more than 256 pixels either way, or with too few bytes
/// for its pixels shows nothing.
pub proof fn law_other_icons_show_nothing(bpp: u8, width: u16, height: u16, color: Seq<u8>, mask: Seq<u8>)
    requires
        ({
            ||| bpp != 24 && bpp != 32
            ||| width == 0
            ||| height == 0
            ||| width > 256
            ||| height > 256
            ||| color.len() < 3 * width * height
            ||| bpp == 32 && color.len() < 4 * width * height
        }),
    ensures
        icon_rgba(bpp, width, height, color, mask) is None,
{
    let (w, h) = (width as int, height as int);
    assert(w * h * 4 == 4 * w * h && w * h * 4 >= 3 * w * h) by (nonlinear_arith)
        requires
            w >= 0,
            h >= 0,
    ;
    assert(stride24_of(w) * h >= 3 * w * h) by (nonlinear_arith)
        requires
            stride24_of(w) >= 3 * w,
            h >= 0,
    ;
}

} // verus!
