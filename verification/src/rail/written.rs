//! Window orders as a server writes them, field by field, and the laws that they are read
//! back.

use vstd::prelude::*;

use crate::rail::window::{
    at_offset, at_show, at_visibility, behind, behind_counted, desktop_events, desktop_whole, frame_marker_at,
    icon_info, icon_rgba, ids_at, orders_events, payload_events, rects_at, window_order_at, window_order_events, window_order_whole, window_state,
    window_state_end, IconInfo, Rect, WindowEventView, WindowInfoView,
};
use crate::utf16::{decode, text_bytes, units_of};
use crate::wire::{le16_at, le16_bytes, le32_at, le32_bytes};

verus! {

// ---------------------------------------------------------------------------
// Runs of fields
// ---------------------------------------------------------------------------
/// Fields written one behind the other.
pub open spec fn joined(fields: Seq<Seq<u8>>) -> Seq<u8>
    decreases fields.len(),
{
    if fields.len() == 0 {
        Seq::empty()
    } else {
        joined(fields.drop_last()) + fields.last()
    }
}

/// A field that is written only if its flag says so.
pub open spec fn if_flagged(flagged: bool, field: Seq<u8>) -> Seq<u8> {
    if flagged {
        field
    } else {
        Seq::empty()
    }
}

/// Where field `i` of a run begins, counted from the run's beginning.
pub open spec fn place(fields: Seq<Seq<u8>>, i: int) -> int {
    joined(fields.take(i)).len() as int
}

proof fn lemma_joined_prefix(fields: Seq<Seq<u8>>, i: int)
    requires
        0 <= i <= fields.len(),
    ensures
        place(fields, i) <= joined(fields).len(),
        joined(fields).take(place(fields, i)) == joined(fields.take(i)),
    decreases fields.len(),
{
    if i == fields.len() {
        assert(fields.take(i) =~= fields);
        assert(joined(fields).take(place(fields, i)) =~= joined(fields));
    } else {
        let front = fields.drop_last();
        lemma_joined_prefix(front, i);
        assert(front.take(i) =~= fields.take(i));
        assert(joined(fields).take(place(fields, i)) =~= joined(front).take(place(fields, i)));
    }
}

/// Field `i` of a run stands at its place, whatever is before and behind the run.
proof fn lemma_field(before: Seq<u8>, fields: Seq<Seq<u8>>, tail: Seq<u8>, i: int)
    requires
        0 <= i < fields.len(),
    ensures
        ({
            let buf = before + joined(fields) + tail;
            let (p, q) = (before.len() + place(fields, i), before.len() + place(fields, i + 1));
            &&& q == p + fields[i].len()
            &&& 0 <= place(fields, i)
            &&& q <= buf.len()
            &&& place(fields, i + 1) <= joined(fields).len()
            &&& buf.subrange(p, q) == fields[i]
        }),
{
    let buf = before + joined(fields) + tail;
    let (p, q) = (place(fields, i), place(fields, i + 1));
    lemma_joined_prefix(fields, i + 1);
    let head = fields.take(i + 1);
    assert(head.drop_last() =~= fields.take(i));
    assert(head.last() == fields[i]);
    assert(joined(head) == joined(fields.take(i)) + fields[i]);
    assert(buf.subrange(before.len() + p, before.len() + q) =~= joined(fields).take(q).subrange(p, q));
    assert(joined(head).subrange(p, q) =~= fields[i]);
}

proof fn lemma_le16_in(buf: Seq<u8>, p: int, value: u16)
    requires
        0 <= p,
        p + 2 <= buf.len(),
        buf.subrange(p, p + 2) == le16_bytes(value),
    ensures
        le16_at(buf, p) == value,
{
    assert(buf =~= buf.take(p) + le16_bytes(value) + buf.skip(p + 2)) by {
        assert(buf =~= buf.take(p) + buf.subrange(p, p + 2) + buf.skip(p + 2));
    }
    crate::wire::law_le16_round_trip(value, buf.take(p), buf.skip(p + 2));
}

proof fn lemma_le32_in(buf: Seq<u8>, p: int, value: u32)
    requires
        0 <= p,
        p + 4 <= buf.len(),
        buf.subrange(p, p + 4) == le32_bytes(value),
    ensures
        le32_at(buf, p) == value,
{
    assert(buf =~= buf.take(p) + le32_bytes(value) + buf.skip(p + 4)) by {
        assert(buf =~= buf.take(p) + buf.subrange(p, p + 4) + buf.skip(p + 4));
    }
    crate::wire::law_le32_round_trip(value, buf.take(p), buf.skip(p + 4));
}

/// A pair of 32-bit numbers.
pub open spec fn pair_bytes(first: u32, second: u32) -> Seq<u8> {
    le32_bytes(first) + le32_bytes(second)
}

proof fn lemma_pair_in(buf: Seq<u8>, p: int, first: u32, second: u32)
    requires
        0 <= p,
        p + 8 <= buf.len(),
        buf.subrange(p, p + 8) == pair_bytes(first, second),
    ensures
        le32_at(buf, p) == first,
        le32_at(buf, p + 4) == second,
{
    let both = buf.subrange(p, p + 8);
    assert(buf.subrange(p, p + 4) =~= both.take(4));
    assert(both.take(4) =~= le32_bytes(first));
    assert(buf.subrange(p + 4, p + 8) =~= both.skip(4));
    assert(both.skip(4) =~= le32_bytes(second));
    lemma_le32_in(buf, p, first);
    lemma_le32_in(buf, p + 4, second);
}

/// A counted text: the number of its bytes in two bytes, then its UTF-16.
pub open spec fn text_field(text: Seq<char>) -> Seq<u8> {
    le16_bytes(text_bytes(text).len() as u16) + text_bytes(text)
}

/// The four edges of a rectangle, two bytes each.
pub open spec fn rect_bytes(r: Rect) -> Seq<u8> {
    le16_bytes(r.left) + le16_bytes(r.top) + le16_bytes(r.right) + le16_bytes(r.bottom)
}

/// Rectangles one behind the other.
pub open spec fn rects_bytes(rects: Seq<Rect>) -> Seq<u8>
    decreases rects.len(),
{
    if rects.len() == 0 {
        Seq::empty()
    } else {
        rects_bytes(rects.drop_last()) + rect_bytes(rects.last())
    }
}

/// Counted rectangles: their number in two bytes, then the rectangles.
pub open spec fn rects_field(rects: Seq<Rect>) -> Seq<u8> {
    le16_bytes(rects.len() as u16) + rects_bytes(rects)
}

proof fn lemma_rects_in(buf: Seq<u8>, p: int, rects: Seq<Rect>)
    requires
        0 <= p,
        p + rects_bytes(rects).len() <= buf.len(),
        buf.subrange(p, p + rects_bytes(rects).len()) == rects_bytes(rects),
    ensures
        rects_bytes(rects).len() == 8 * rects.len(),
        rects_at(buf, p, rects.len() as int) == rects,
    decreases rects.len(),
{
    if rects.len() > 0 {
        let front = rects.drop_last();
        let r = rects.last();
        let all = rects_bytes(rects);
        lemma_rects_len(front);
        let q = p + 8 * front.len();
        assert(rect_bytes(r).len() == 8);
        assert(buf.subrange(p, p + rects_bytes(front).len()) =~= all.take(rects_bytes(front).len() as int));
        assert(all.take(rects_bytes(front).len() as int) =~= rects_bytes(front));
        lemma_rects_in(buf, p, front);
        let own = buf.subrange(q, q + 8);
        assert(own =~= all.skip(rects_bytes(front).len() as int));
        assert(own =~= rect_bytes(r));
        assert(buf.subrange(q, q + 2) =~= own.subrange(0, 2));
        assert(own.subrange(0, 2) =~= le16_bytes(r.left));
        assert(buf.subrange(q + 2, q + 4) =~= own.subrange(2, 4));
        assert(own.subrange(2, 4) =~= le16_bytes(r.top));
        assert(buf.subrange(q + 4, q + 6) =~= own.subrange(4, 6));
        assert(own.subrange(4, 6) =~= le16_bytes(r.right));
        assert(buf.subrange(q + 6, q + 8) =~= own.subrange(6, 8));
        assert(own.subrange(6, 8) =~= le16_bytes(r.bottom));
        lemma_le16_in(buf, q, r.left);
        lemma_le16_in(buf, q + 2, r.top);
        lemma_le16_in(buf, q + 4, r.right);
        lemma_le16_in(buf, q + 6, r.bottom);
        let read = rects_at(buf, p, rects.len() as int);
        assert forall|i: int| 0 <= i < rects.len() implies #[trigger] read[i] == rects[i] by {
            if i < front.len() {
                assert(rects_at(buf, p, front.len() as int)[i] == front[i]);
            }
        }
        assert(read =~= rects);
    } else {
        assert(rects_at(buf, p, 0) =~= rects);
    }
}

proof fn lemma_rects_len(rects: Seq<Rect>)
    ensures
        rects_bytes(rects).len() == 8 * rects.len(),
    decreases rects.len(),
{
    if rects.len() > 0 {
        lemma_rects_len(rects.drop_last());
    }
}

// ---------------------------------------------------------------------------
// Window orders
// ---------------------------------------------------------------------------
/// The values of all fields that a window create or update order can carry.
pub struct WindowFields {
    pub owner: u32,
    pub style: u32,
    pub extended_style: u32,
    pub show_state: u8,
    pub title: Seq<char>,
    pub client_offset: (u32, u32),
    pub client_size: (u32, u32),
    pub margin_x: (u32, u32),
    pub margin_y: (u32, u32),
    pub rp_content: u8,
    pub root_parent: u32,
    pub x: i32,
    pub y: i32,
    pub client_delta: (u32, u32),
    pub width: u32,
    pub height: u32,
    pub window_rects: Seq<Rect>,
    pub visible_offset: (u32, u32),
    pub visibility_rects: Seq<Rect>,
}

/// Whether what is counted can be counted in 16 bits.
pub open spec fn countable(f: WindowFields) -> bool {
    &&& text_bytes(f.title).len() <= 0xFFFF
    &&& f.window_rects.len() <= 0xFFFF
    &&& f.visibility_rects.len() <= 0xFFFF
}

/// The fields of an order with flags `ff`, in the order in which they are written; one whose
/// flag is not set takes no bytes.
pub open spec fn window_fields(ff: u32, f: WindowFields) -> Seq<Seq<u8>> {
    seq![
        if_flagged(ff & 0x2 != 0, le32_bytes(f.owner)),
        if_flagged(ff & 0x8 != 0, pair_bytes(f.style, f.extended_style)),
        if_flagged(ff & 0x10 != 0, seq![f.show_state]),
        if_flagged(ff & 0x4 != 0, text_field(f.title)),
        if_flagged(ff & 0x4000 != 0, pair_bytes(f.client_offset.0, f.client_offset.1)),
        if_flagged(ff & 0x1_0000 != 0, pair_bytes(f.client_size.0, f.client_size.1)),
        if_flagged(ff & 0x80 != 0, pair_bytes(f.margin_x.0, f.margin_x.1)),
        if_flagged(ff & 0x800_0000 != 0, pair_bytes(f.margin_y.0, f.margin_y.1)),
        if_flagged(ff & 0x2_0000 != 0, seq![f.rp_content]),
        if_flagged(ff & 0x4_0000 != 0, le32_bytes(f.root_parent)),
        if_flagged(ff & 0x800 != 0, pair_bytes(f.x as u32, f.y as u32)),
        if_flagged(ff & 0x8000 != 0, pair_bytes(f.client_delta.0, f.client_delta.1)),
        if_flagged(ff & 0x400 != 0, pair_bytes(f.width, f.height)),
        if_flagged(ff & 0x100 != 0, rects_field(f.window_rects)),
        if_flagged(ff & 0x1000 != 0, pair_bytes(f.visible_offset.0, f.visible_offset.1)),
        if_flagged(ff & 0x200 != 0, rects_field(f.visibility_rects)),
    ]
}

/// What was written of a window, as far as the order carried it.
pub open spec fn told_of(ff: u32, f: WindowFields, window_id: u32) -> WindowInfoView {
    WindowInfoView {
        window_id,
        is_new: ff & 0x1000_0000 != 0,
        show_state: if ff & 0x10 != 0 {
            Some(f.show_state)
        } else {
            None
        },
        title: if ff & 0x4 != 0 {
            Some(f.title)
        } else {
            None
        },
        x: if ff & 0x800 != 0 {
            Some(f.x)
        } else {
            None
        },
        y: if ff & 0x800 != 0 {
            Some(f.y)
        } else {
            None
        },
        width: if ff & 0x400 != 0 {
            Some(f.width)
        } else {
            None
        },
        height: if ff & 0x400 != 0 {
            Some(f.height)
        } else {
            None
        },
        visibility_rects: if ff & 0x200 != 0 && f.visibility_rects.len() > 1 {
            Some(f.visibility_rects)
        } else {
            None
        },
    }
}

/// A counted field is stepped over whole.
proof fn lemma_counted_field(buf: Seq<u8>, p: int, n: int, unit: int, body: Seq<u8>)
    requires
        0 <= p,
        0 <= n <= 0xFFFF,
        body.len() == n * unit,
        p + 2 + body.len() <= buf.len(),
        buf.subrange(p, p + 2 + body.len()) == le16_bytes(n as u16) + body,
    ensures
        le16_at(buf, p) == n,
        buf.subrange(p + 2, p + 2 + body.len()) == body,
        behind_counted(buf, Some(p), true, unit) == Some(p + 2 + body.len()),
{
    let all = buf.subrange(p, p + 2 + body.len());
    assert(buf.subrange(p, p + 2) =~= all.take(2));
    assert(all.take(2) =~= le16_bytes(n as u16));
    lemma_le16_in(buf, p, n as u16);
    assert(buf.subrange(p + 2, p + 2 + body.len()) =~= all.skip(2));
    assert(all.skip(2) =~= body);
}

/// The bytes in which the fields of an order stand.
spec fn around(before: Seq<u8>, ff: u32, f: WindowFields, tail: Seq<u8>) -> Seq<u8> {
    before + joined(window_fields(ff, f)) + tail
}

/// Where field `i` of an order stands in its bytes.
spec fn spot(before: Seq<u8>, ff: u32, f: WindowFields, i: int) -> int {
    before.len() + place(window_fields(ff, f), i)
}

proof fn lemma_to_show(before: Seq<u8>, ff: u32, f: WindowFields, tail: Seq<u8>)
    ensures
        at_show(around(before, ff, f, tail), before.len() as int, ff) == Some(spot(before, ff, f, 2)),
{
    let fields = window_fields(ff, f);
    assert(fields.take(0) =~= Seq::<Seq<u8>>::empty());
    lemma_field(before, fields, tail, 0);
    lemma_field(before, fields, tail, 1);
}

proof fn lemma_show(before: Seq<u8>, ff: u32, f: WindowFields, tail: Seq<u8>)
    ensures
        behind(around(before, ff, f, tail), Some(spot(before, ff, f, 2)), ff & 0x10 != 0, 1) == Some(
            spot(before, ff, f, 3),
        ),
        ff & 0x10 != 0 ==> around(before, ff, f, tail)[spot(before, ff, f, 2)] == f.show_state,
{
    let fields = window_fields(ff, f);
    let buf = around(before, ff, f, tail);
    lemma_field(before, fields, tail, 2);
    if ff & 0x10 != 0 {
        assert(buf.subrange(spot(before, ff, f, 2), spot(before, ff, f, 3))[0] == f.show_state);
    }
}

proof fn lemma_title(before: Seq<u8>, ff: u32, f: WindowFields, tail: Seq<u8>)
    requires
        countable(f),
    ensures
        ({
            let buf = around(before, ff, f, tail);
            let (p, q) = (spot(before, ff, f, 3), spot(before, ff, f, 4));
            &&& behind_counted(buf, Some(p), ff & 0x4 != 0, 1) == Some(q)
            &&& ff & 0x4 != 0 ==> decode(units_of(buf.subrange(p + 2, q))) == f.title
        }),
{
    let fields = window_fields(ff, f);
    let buf = around(before, ff, f, tail);
    lemma_field(before, fields, tail, 3);
    if ff & 0x4 != 0 {
        let body = text_bytes(f.title);
        lemma_counted_field(buf, spot(before, ff, f, 3), body.len() as int, 1, body);
        crate::utf16::law_text_round_trip(f.title);
    }
}

/// A field of fixed length is stepped over whole.
proof fn lemma_fixed_field(before: Seq<u8>, ff: u32, f: WindowFields, tail: Seq<u8>, i: int, flagged: bool, n: int)
    requires
        0 <= i < window_fields(ff, f).len(),
        window_fields(ff, f)[i].len() == if flagged {
            n
        } else {
            0
        },
    ensures
        behind(around(before, ff, f, tail), Some(spot(before, ff, f, i)), flagged, n) == Some(
            spot(before, ff, f, i + 1),
        ),
{
    lemma_field(before, window_fields(ff, f), tail, i);
}

proof fn lemma_to_offset(before: Seq<u8>, ff: u32, f: WindowFields, tail: Seq<u8>)
    ensures
        at_offset(around(before, ff, f, tail), Some(spot(before, ff, f, 4)), ff) == Some(spot(before, ff, f, 10)),
{
    lemma_fixed_field(before, ff, f, tail, 4, ff & 0x4000 != 0, 8);
    lemma_fixed_field(before, ff, f, tail, 5, ff & 0x1_0000 != 0, 8);
    lemma_fixed_field(before, ff, f, tail, 6, ff & 0x80 != 0, 8);
    lemma_fixed_field(before, ff, f, tail, 7, ff & 0x800_0000 != 0, 8);
    lemma_fixed_field(before, ff, f, tail, 8, ff & 0x2_0000 != 0, 1);
    lemma_fixed_field(before, ff, f, tail, 9, ff & 0x4_0000 != 0, 4);
}

proof fn lemma_position(before: Seq<u8>, ff: u32, f: WindowFields, tail: Seq<u8>)
    ensures
        ({
            let buf = around(before, ff, f, tail);
            let p = spot(before, ff, f, 10);
            &&& behind(buf, behind(buf, Some(p), ff & 0x800 != 0, 8), ff & 0x8000 != 0, 8) == Some(
                spot(before, ff, f, 12),
            )
            &&& ff & 0x800 != 0 ==> le32_at(buf, p) as i32 == f.x && le32_at(buf, p + 4) as i32 == f.y
        }),
{
    let fields = window_fields(ff, f);
    let buf = around(before, ff, f, tail);
    lemma_field(before, fields, tail, 10);
    lemma_field(before, fields, tail, 11);
    if ff & 0x800 != 0 {
        lemma_pair_in(buf, spot(before, ff, f, 10), f.x as u32, f.y as u32);
        let (x, y) = (f.x, f.y);
        assert((x as u32) as i32 == x) by (bit_vector);
        assert((y as u32) as i32 == y) by (bit_vector);
    }
}

proof fn lemma_size(before: Seq<u8>, ff: u32, f: WindowFields, tail: Seq<u8>)
    ensures
        ({
            let buf = around(before, ff, f, tail);
            let p = spot(before, ff, f, 12);
            &&& behind(buf, Some(p), ff & 0x400 != 0, 8) == Some(spot(before, ff, f, 13))
            &&& ff & 0x400 != 0 ==> le32_at(buf, p) == f.width && le32_at(buf, p + 4) == f.height
        }),
{
    let fields = window_fields(ff, f);
    lemma_field(before, fields, tail, 12);
    if ff & 0x400 != 0 {
        lemma_pair_in(around(before, ff, f, tail), spot(before, ff, f, 12), f.width, f.height);
    }
}

proof fn lemma_to_visibility(before: Seq<u8>, ff: u32, f: WindowFields, tail: Seq<u8>)
    requires
        countable(f),
    ensures
        at_visibility(around(before, ff, f, tail), Some(spot(before, ff, f, 13)), ff) == Some(
            spot(before, ff, f, 15),
        ),
{
    let fields = window_fields(ff, f);
    lemma_field(before, fields, tail, 13);
    lemma_field(before, fields, tail, 14);
    if ff & 0x100 != 0 {
        let body = rects_bytes(f.window_rects);
        lemma_rects_len(f.window_rects);
        lemma_counted_field(
            around(before, ff, f, tail),
            spot(before, ff, f, 13),
            f.window_rects.len() as int,
            8,
            body,
        );
    }
}

proof fn lemma_visibility(before: Seq<u8>, ff: u32, f: WindowFields, tail: Seq<u8>)
    requires
        countable(f),
    ensures
        ({
            let buf = around(before, ff, f, tail);
            let p = spot(before, ff, f, 15);
            &&& behind_counted(buf, Some(p), ff & 0x200 != 0, 8) == Some(
                before.len() as int + joined(window_fields(ff, f)).len(),
            )
            &&& ff & 0x200 != 0 ==> le16_at(buf, p) == f.visibility_rects.len() && rects_at(
                buf,
                p + 2,
                f.visibility_rects.len() as int,
            ) == f.visibility_rects
        }),
{
    let fields = window_fields(ff, f);
    let buf = around(before, ff, f, tail);
    let p = spot(before, ff, f, 15);
    lemma_field(before, fields, tail, 15);
    assert(fields.take(16) =~= fields);
    if ff & 0x200 != 0 {
        let body = rects_bytes(f.visibility_rects);
        lemma_rects_len(f.visibility_rects);
        lemma_counted_field(buf, p, f.visibility_rects.len() as int, 8, body);
        lemma_rects_in(buf, p + 2, f.visibility_rects);
    }
}

/// A window order that is written field by field is read back, for every set of flags and all
/// values of the fields: the fields end where they were written to end, and the show state,
/// the title, the position, the size and the visible rectangles are those that were written,
/// each where its flag is set.
pub proof fn law_window_fields_read_back(before: Seq<u8>, ff: u32, f: WindowFields, tail: Seq<u8>, window_id: u32)
    requires
        countable(f),
    ensures
        ({
            let written = joined(window_fields(ff, f));
            let buf = before + written + tail;
            let at = before.len() as int;
            &&& window_state_end(buf, at, ff) == Some(at + written.len())
            &&& window_state(buf, at, ff, window_id) == Some(told_of(ff, f, window_id))
        }),
{
    let buf = around(before, ff, f, tail);
    assert(buf == before + joined(window_fields(ff, f)) + tail);
    lemma_to_show(before, ff, f, tail);
    lemma_show(before, ff, f, tail);
    lemma_title(before, ff, f, tail);
    lemma_to_offset(before, ff, f, tail);
    lemma_position(before, ff, f, tail);
    lemma_size(before, ff, f, tail);
    lemma_to_visibility(before, ff, f, tail);
    lemma_visibility(before, ff, f, tail);
}

/// An order whose fields are cut off anywhere is refused: where the bytes end before the last
/// field does, there is no window state.
pub proof fn law_cut_fields_are_refused(buf: Seq<u8>, at: int, ff: u32, window_id: u32, k: int)
    requires
        0 <= at <= k <= buf.len(),
        window_state_end(buf, at, ff) is Some,
        k < window_state_end(buf, at, ff)->0,
    ensures
        window_state_end(buf.take(k), at, ff) is None,
        window_state(buf.take(k), at, ff, window_id) is None,
{
    let cut = buf.take(k);
    let (a, b) = (Some(at), Some(at));
    let owner = ff & 0x2 != 0;
    lemma_cut(buf, k, a, b, owner, 4);
    let (a, b) = (behind(cut, a, owner, 4), behind(buf, b, owner, 4));
    lemma_cut(buf, k, a, b, ff & 0x8 != 0, 8);
    let (a, b) = (at_show(cut, at, ff), at_show(buf, at, ff));
    lemma_cut(buf, k, a, b, ff & 0x10 != 0, 1);
    let (a, b) = (behind(cut, a, ff & 0x10 != 0, 1), behind(buf, b, ff & 0x10 != 0, 1));
    lemma_cut_counted(buf, k, a, b, ff & 0x4 != 0, 1);
    let (a, b) = (behind_counted(cut, a, ff & 0x4 != 0, 1), behind_counted(buf, b, ff & 0x4 != 0, 1));
    lemma_cut_offset(buf, k, a, b, ff);
    let (a, b) = (at_offset(cut, a, ff), at_offset(buf, b, ff));
    lemma_cut(buf, k, a, b, ff & 0x800 != 0, 8);
    let (a, b) = (behind(cut, a, ff & 0x800 != 0, 8), behind(buf, b, ff & 0x800 != 0, 8));
    lemma_cut(buf, k, a, b, ff & 0x8000 != 0, 8);
    let (a, b) = (behind(cut, a, ff & 0x8000 != 0, 8), behind(buf, b, ff & 0x8000 != 0, 8));
    lemma_cut(buf, k, a, b, ff & 0x400 != 0, 8);
    let (a, b) = (behind(cut, a, ff & 0x400 != 0, 8), behind(buf, b, ff & 0x400 != 0, 8));
    lemma_cut_counted(buf, k, a, b, ff & 0x100 != 0, 8);
    let (c, d) = (behind_counted(cut, a, ff & 0x100 != 0, 8), behind_counted(buf, b, ff & 0x100 != 0, 8));
    lemma_cut(buf, k, c, d, ff & 0x1000 != 0, 8);
    let (a, b) = (at_visibility(cut, a, ff), at_visibility(buf, b, ff));
    lemma_cut_counted(buf, k, a, b, ff & 0x200 != 0, 8);
}

/// Whether an offset in the first `k` bytes of a buffer, if there is one, is the same as in
/// the whole buffer.
spec fn agree(cut: Option<int>, whole: Option<int>, k: int) -> bool {
    cut is Some ==> whole == cut && 0 <= cut->0 <= k
}

proof fn lemma_cut(buf: Seq<u8>, k: int, a: Option<int>, b: Option<int>, present: bool, n: int)
    requires
        0 <= k <= buf.len(),
        0 <= n,
        agree(a, b, k),
    ensures
        agree(behind(buf.take(k), a, present, n), behind(buf, b, present, n), k),
{
}

proof fn lemma_cut_counted(buf: Seq<u8>, k: int, a: Option<int>, b: Option<int>, present: bool, unit: int)
    requires
        0 <= k <= buf.len(),
        0 <= unit,
        agree(a, b, k),
    ensures
        agree(behind_counted(buf.take(k), a, present, unit), behind_counted(buf, b, present, unit), k),
{
    lemma_cut(buf, k, a, b, present, 2);
    let (c, d) = (behind(buf.take(k), a, present, 2), behind(buf, b, present, 2));
    if present && c is Some {
        let n = le16_at(buf, c->0 - 2);
        assert(n == le16_at(buf.take(k), c->0 - 2));
        assert(0 <= n * unit) by (nonlinear_arith)
            requires
                0 <= n,
                0 <= unit,
        ;
        lemma_cut(buf, k, c, d, true, n * unit);
    }
}

proof fn lemma_cut_offset(buf: Seq<u8>, k: int, a: Option<int>, b: Option<int>, ff: u32)
    requires
        0 <= k <= buf.len(),
        agree(a, b, k),
    ensures
        agree(at_offset(buf.take(k), a, ff), at_offset(buf, b, ff), k),
{
    let cut = buf.take(k);
    lemma_cut(buf, k, a, b, ff & 0x4000 != 0, 8);
    let (a, b) = (behind(cut, a, ff & 0x4000 != 0, 8), behind(buf, b, ff & 0x4000 != 0, 8));
    lemma_cut(buf, k, a, b, ff & 0x1_0000 != 0, 8);
    let (a, b) = (behind(cut, a, ff & 0x1_0000 != 0, 8), behind(buf, b, ff & 0x1_0000 != 0, 8));
    lemma_cut(buf, k, a, b, ff & 0x80 != 0, 8);
    let (a, b) = (behind(cut, a, ff & 0x80 != 0, 8), behind(buf, b, ff & 0x80 != 0, 8));
    lemma_cut(buf, k, a, b, ff & 0x800_0000 != 0, 8);
    let (a, b) = (behind(cut, a, ff & 0x800_0000 != 0, 8), behind(buf, b, ff & 0x800_0000 != 0, 8));
    lemma_cut(buf, k, a, b, ff & 0x2_0000 != 0, 1);
    let (a, b) = (behind(cut, a, ff & 0x2_0000 != 0, 1), behind(buf, b, ff & 0x2_0000 != 0, 1));
    lemma_cut(buf, k, a, b, ff & 0x4_0000 != 0, 4);
}

/// An order with its header: a control byte, the size of the whole order in two bytes, the
/// flags in four, then its fields.
pub open spec fn order_bytes(control: u8, ff: u32, body: Seq<u8>) -> Seq<u8> {
    seq![control] + le16_bytes((7 + body.len()) as u16) + le32_bytes(ff) + body
}

/// Whether a control byte is one of an alternate secondary order of a kind: its lowest bit is
/// not set, and the six highest are the kind.
pub open spec fn control_of(control: u8, kind: int) -> bool {
    control % 2 == 0 && control / 4 == kind
}

/// The header of a written window order is found, and its fields stand behind it.
proof fn lemma_order_header(before: Seq<u8>, control: u8, ff: u32, body: Seq<u8>, rest: Seq<u8>)
    requires
        control_of(control, 0x0B),
        7 + body.len() <= 0xFFFF,
    ensures
        ({
            let buf = before + order_bytes(control, ff, body) + rest;
            let at = before.len() as int;
            let head = before + seq![control] + le16_bytes((7 + body.len()) as u16) + le32_bytes(ff);
            &&& window_order_at(buf, at)
            &&& !frame_marker_at(buf, at)
            &&& le16_at(buf, at + 1) == 7 + body.len()
            &&& le32_at(buf, at + 3) == ff
            &&& buf == head + body + rest
            &&& head.len() == at + 7
            &&& order_bytes(control, ff, body).len() == 7 + body.len()
        }),
{
    let buf = before + order_bytes(control, ff, body) + rest;
    let at = before.len() as int;
    let head = before + seq![control] + le16_bytes((7 + body.len()) as u16) + le32_bytes(ff);
    assert(buf =~= head + body + rest);
    assert(buf.subrange(at + 1, at + 3) =~= le16_bytes((7 + body.len()) as u16));
    assert(buf.subrange(at + 3, at + 7) =~= le32_bytes(ff));
    lemma_le16_in(buf, at + 1, (7 + body.len()) as u16);
    lemma_le32_in(buf, at + 3, ff);
    assert(buf[at] == control);
    assert(control & 1 == 0) by (bit_vector)
        requires
            control % 2 == 0,
    ;
    assert(control >> 2u8 == control / 4) by (bit_vector);
}

/// Whether the flags are those of an order on a window itself: not of the desktop, not of a
/// notification icon, not of an icon.
pub open spec fn on_window(ff: u32) -> bool {
    ff & 0x100_0000 != 0 && ff & 0x200_0000 == 0 && ff & 0x400_0000 == 0 && ff & 0x4000_0000 == 0 && ff & 0x8000_0000
        == 0
}

/// A window order that is written whole is read back as one event, and what is written behind
/// it is read next, however many bytes of the order are not understood: a create or update
/// order tells of the window what was written, a delete order of its end.
pub proof fn law_window_order_reads_back(
    before: Seq<u8>,
    control: u8,
    ff: u32,
    window_id: u32,
    f: WindowFields,
    unknown: Seq<u8>,
    rest: Seq<u8>,
    n: nat,
)
    requires
        control_of(control, 0x0B),
        on_window(ff),
        countable(f),
        n > 0,
        11 + joined(window_fields(ff, f)).len() + unknown.len() <= 0xFFFF,
    ensures
        ({
            let body = le32_bytes(window_id) + joined(window_fields(ff, f)) + unknown;
            let order = order_bytes(control, ff, body);
            let event = if ff & 0x2000_0000 != 0 {
                WindowEventView::Deleted(window_id)
            } else {
                WindowEventView::NewOrUpdate(told_of(ff, f, window_id))
            };
            orders_events(before + order + rest, before.len() as int, n) == seq![event] + orders_events(
                before + order + rest,
                (before + order).len() as int,
                (n - 1) as nat,
            )
        }),
{
    let written = joined(window_fields(ff, f));
    let body = le32_bytes(window_id) + written + unknown;
    let buf = before + order_bytes(control, ff, body) + rest;
    let at = before.len() as int;
    lemma_order_header(before, control, ff, body, rest);
    let head = before + seq![control] + le16_bytes((7 + body.len()) as u16) + le32_bytes(ff);
    assert(buf.subrange(at + 7, at + 11) =~= le32_bytes(window_id));
    lemma_le32_in(buf, at + 7, window_id);
    let start = head + le32_bytes(window_id);
    assert(buf =~= start + written + (unknown + rest));
    law_window_fields_read_back(start, ff, f, unknown + rest, window_id);
    assert(ff & 0x100_0000 != 0 ==> ff & (0x100_0000u32 | 0x200_0000u32) != 0) by (bit_vector);
    assert(window_order_events(buf, at + 7, ff) =~= seq![
        if ff & 0x2000_0000 != 0 {
            WindowEventView::Deleted(window_id)
        } else {
            WindowEventView::NewOrUpdate(told_of(ff, f, window_id))
        },
    ]);
    assert(window_order_whole(buf, at + 7, ff));
}

/// Ids one behind the other, four bytes each.
pub open spec fn ids_bytes(ids: Seq<u32>) -> Seq<u8>
    decreases ids.len(),
{
    if ids.len() == 0 {
        Seq::empty()
    } else {
        ids_bytes(ids.drop_last()) + le32_bytes(ids.last())
    }
}

proof fn lemma_ids_in(buf: Seq<u8>, p: int, ids: Seq<u32>)
    requires
        0 <= p,
        p + 4 * ids.len() <= buf.len(),
        buf.subrange(p, p + 4 * ids.len()) == ids_bytes(ids),
    ensures
        ids_bytes(ids).len() == 4 * ids.len(),
        ids_at(buf, p, ids.len() as int) == ids,
    decreases ids.len(),
{
    if ids.len() > 0 {
        let front = ids.drop_last();
        let all = ids_bytes(ids);
        let q = p + 4 * front.len();
        lemma_ids_len(front);
        assert(buf.subrange(p, p + 4 * front.len()) =~= all.take(4 * front.len() as int));
        assert(all.take(4 * front.len() as int) =~= ids_bytes(front));
        lemma_ids_in(buf, p, front);
        assert(buf.subrange(q, q + 4) =~= all.skip(4 * front.len() as int));
        assert(all.skip(4 * front.len() as int) =~= le32_bytes(ids.last()));
        lemma_le32_in(buf, q, ids.last());
        let read = ids_at(buf, p, ids.len() as int);
        assert forall|i: int| 0 <= i < ids.len() implies #[trigger] read[i] == ids[i] by {
            if i < front.len() {
                assert(ids_at(buf, p, front.len() as int)[i] == front[i]);
            }
        }
        assert(read =~= ids);
    } else {
        assert(ids_at(buf, p, 0) =~= ids);
    }
}

proof fn lemma_ids_len(ids: Seq<u32>)
    ensures
        ids_bytes(ids).len() == 4 * ids.len(),
    decreases ids.len(),
{
    if ids.len() > 0 {
        lemma_ids_len(ids.drop_last());
    }
}

/// The fields of a desktop order: the active window, then the z-order, a count in one byte and
/// the ids; each where its flag is set.
pub open spec fn desktop_fields(ff: u32, active: u32, ids: Seq<u32>) -> Seq<u8> {
    if_flagged(ff & 0x20 != 0, le32_bytes(active)) + if_flagged(
        ff & 0x10 != 0,
        seq![ids.len() as u8] + ids_bytes(ids),
    )
}

/// What the fields of a desktop order tell.
pub open spec fn desktop_told(ff: u32, active: u32, ids: Seq<u32>) -> Seq<WindowEventView> {
    let first = if ff & 0x20 != 0 {
        seq![WindowEventView::ActiveWindow(active)]
    } else {
        Seq::empty()
    };
    let second = if ff & 0x10 != 0 {
        seq![WindowEventView::ZOrder(ids)]
    } else {
        Seq::empty()
    };
    first + second
}

proof fn lemma_desktop_fields(head: Seq<u8>, ff: u32, active: u32, ids: Seq<u32>, tail: Seq<u8>)
    requires
        ids.len() <= 0xFF,
    ensures
        desktop_events(head + desktop_fields(ff, active, ids) + tail, head.len() as int, ff) == desktop_told(
            ff,
            active,
            ids,
        ),
        desktop_whole(head + desktop_fields(ff, active, ids) + tail, head.len() as int, ff),
{
    let one = if_flagged(ff & 0x20 != 0, le32_bytes(active));
    let two = if_flagged(ff & 0x10 != 0, seq![ids.len() as u8] + ids_bytes(ids));
    let buf = head + desktop_fields(ff, active, ids) + tail;
    let at = head.len() as int;
    let p = at + one.len();
    lemma_ids_len(ids);
    if ff & 0x20 != 0 {
        assert(buf.subrange(at, at + 4) =~= le32_bytes(active));
        lemma_le32_in(buf, at, active);
    }
    if ff & 0x10 != 0 {
        assert(buf[p] == two[0]);
        assert(buf.subrange(p + 1, p + 1 + 4 * ids.len()) =~= ids_bytes(ids));
        lemma_ids_in(buf, p + 1, ids);
    }
    assert(desktop_events(buf, at, ff) =~= desktop_told(ff, active, ids));
}

/// A desktop order is read back: the active window where its flag is set, then the z-order, as
/// it was written, where its flag is set; what is written behind the order is read next.
pub proof fn law_desktop_order_reads_back(
    before: Seq<u8>,
    control: u8,
    ff: u32,
    active: u32,
    ids: Seq<u32>,
    unknown: Seq<u8>,
    rest: Seq<u8>,
    n: nat,
)
    requires
        control_of(control, 0x0B),
        ff & 0x400_0000 != 0,
        ids.len() <= 0xFF,
        n > 0,
        7 + desktop_fields(ff, active, ids).len() + unknown.len() <= 0xFFFF,
    ensures
        ({
            let order = order_bytes(control, ff, desktop_fields(ff, active, ids) + unknown);
            orders_events(before + order + rest, before.len() as int, n) == desktop_told(ff, active, ids)
                + orders_events(before + order + rest, (before + order).len() as int, (n - 1) as nat)
        }),
{
    let body = desktop_fields(ff, active, ids) + unknown;
    let buf = before + order_bytes(control, ff, body) + rest;
    lemma_order_header(before, control, ff, body, rest);
    let head = before + seq![control] + le16_bytes((7 + body.len()) as u16) + le32_bytes(ff);
    assert(buf =~= head + desktop_fields(ff, active, ids) + (unknown + rest));
    lemma_desktop_fields(head, ff, active, ids, unknown + rest);
    assert(window_order_whole(buf, before.len() as int + 7, ff));
}

/// The information of an icon as it is written: the cache entry and the cache id, the depth,
/// the size, for a depth of 1, 4 or 8 the length of the colour table, the lengths of the mask
/// and of the colour bitmap, then the mask, the colour table and the bitmap.
pub open spec fn icon_bytes(entry: u16, id: u8, info: IconInfo, table: Seq<u8>) -> Seq<u8> {
    joined(
        seq![
            le16_bytes(entry),
            seq![id],
            seq![info.bpp],
            le16_bytes(info.width),
            le16_bytes(info.height),
            if_flagged(info.bpp == 1 || info.bpp == 4 || info.bpp == 8, le16_bytes(table.len() as u16)),
            le16_bytes(info.mask.len() as u16),
            le16_bytes(info.color.len() as u16),
            info.mask,
            if_flagged(info.bpp == 1 || info.bpp == 4 || info.bpp == 8, table),
            info.color,
        ],
    )
}

/// The information of an icon is read back as it was written, whatever stands before and
/// behind it.
#[verifier::rlimit(40)]
pub proof fn law_icon_info_reads_back(before: Seq<u8>, entry: u16, id: u8, info: IconInfo, table: Seq<u8>, tail: Seq<
    u8,
>)
    requires
        table.len() <= 0xFFFF,
        info.mask.len() <= 0xFFFF,
        info.color.len() <= 0xFFFF,
    ensures
        icon_info(before + icon_bytes(entry, id, info, table) + tail, before.len() as int) == Some(info),
{
    let palettized = info.bpp == 1 || info.bpp == 4 || info.bpp == 8;
    let fields = seq![
        le16_bytes(entry),
        seq![id],
        seq![info.bpp],
        le16_bytes(info.width),
        le16_bytes(info.height),
        if_flagged(palettized, le16_bytes(table.len() as u16)),
        le16_bytes(info.mask.len() as u16),
        le16_bytes(info.color.len() as u16),
        info.mask,
        if_flagged(palettized, table),
        info.color,
    ];
    let buf = before + joined(fields) + tail;
    let at = before.len() as int;
    assert(fields.take(0) =~= Seq::<Seq<u8>>::empty());
    assert(buf == before + icon_bytes(entry, id, info, table) + tail);
    lemma_field(before, fields, tail, 0);
    lemma_field(before, fields, tail, 1);
    lemma_field(before, fields, tail, 2);
    let p = at + 3;
    assert(buf[p] == info.bpp) by {
        assert(buf.subrange(p, p + 1)[0] == info.bpp);
    }
    lemma_field(before, fields, tail, 3);
    lemma_le16_in(buf, p + 1, info.width);
    lemma_field(before, fields, tail, 4);
    lemma_le16_in(buf, p + 3, info.height);
    lemma_field(before, fields, tail, 5);
    if palettized {
        lemma_le16_in(buf, p + 5, table.len() as u16);
    }
    let q = if palettized {
        p + 7
    } else {
        p + 5
    };
    lemma_field(before, fields, tail, 6);
    lemma_le16_in(buf, q, info.mask.len() as u16);
    lemma_field(before, fields, tail, 7);
    lemma_le16_in(buf, q + 2, info.color.len() as u16);
    lemma_field(before, fields, tail, 8);
    lemma_field(before, fields, tail, 9);
    lemma_field(before, fields, tail, 10);
}

/// Orders on icons by their place in a cache and on notification icons tell nothing and are
/// stepped over; an icon order tells of the icon, if it can be decoded.
pub proof fn law_icon_order_reads_back(
    before: Seq<u8>,
    control: u8,
    ff: u32,
    window_id: u32,
    entry: u16,
    id: u8,
    info: IconInfo,
    table: Seq<u8>,
    unknown: Seq<u8>,
    rest: Seq<u8>,
    n: nat,
)
    requires
        control_of(control, 0x0B),
        ff & 0x400_0000 == 0,
        ff & 0x100_0000 != 0 || ff & 0x200_0000 != 0,
        ff & 0x4000_0000 != 0 || ff & 0x8000_0000 != 0 || ff & 0x200_0000 != 0,
        table.len() <= 0xFFFF,
        info.mask.len() <= 0xFFFF,
        info.color.len() <= 0xFFFF,
        n > 0,
        11 + icon_bytes(entry, id, info, table).len() + unknown.len() <= 0xFFFF,
    ensures
        ({
            let body = le32_bytes(window_id) + icon_bytes(entry, id, info, table) + unknown;
            let order = order_bytes(control, ff, body);
            let shown = icon_rgba(info.bpp, info.width, info.height, info.color, info.mask);
            let own = if ff & 0x4000_0000 != 0 && shown is Some {
                seq![
                    WindowEventView::Icon { window_id, width: info.width, height: info.height, rgba: shown->0 },
                ]
            } else {
                Seq::empty()
            };
            orders_events(before + order + rest, before.len() as int, n) == own + orders_events(
                before + order + rest,
                (before + order).len() as int,
                (n - 1) as nat,
            )
        }),
{
    let written = icon_bytes(entry, id, info, table);
    let body = le32_bytes(window_id) + written + unknown;
    let buf = before + order_bytes(control, ff, body) + rest;
    let at = before.len() as int;
    lemma_order_header(before, control, ff, body, rest);
    let head = before + seq![control] + le16_bytes((7 + body.len()) as u16) + le32_bytes(ff);
    assert(buf.subrange(at + 7, at + 11) =~= le32_bytes(window_id));
    lemma_le32_in(buf, at + 7, window_id);
    let start = head + le32_bytes(window_id);
    assert(buf =~= start + written + (unknown + rest));
    law_icon_info_reads_back(start, entry, id, info, table, unknown + rest);
    assert(ff & 0x100_0000 != 0 || ff & 0x200_0000 != 0 ==> ff & (0x100_0000u32 | 0x200_0000u32) != 0) by (bit_vector);
    assert(window_order_whole(buf, at + 7, ff));
}

/// A frame marker, a control byte and four bytes, is stepped over.
pub proof fn law_frame_marker_is_stepped_over(before: Seq<u8>, control: u8, action: u32, rest: Seq<u8>, n: nat)
    requires
        control_of(control, 0x0D),
        n > 0,
    ensures
        ({
            let order = seq![control] + le32_bytes(action);
            orders_events(before + order + rest, before.len() as int, n) == orders_events(
                before + order + rest,
                (before + order).len() as int,
                (n - 1) as nat,
            )
        }),
{
    let order = seq![control] + le32_bytes(action);
    let buf = before + order + rest;
    assert(buf[before.len() as int] == control);
    assert(control & 1 == 0) by (bit_vector)
        requires
            control % 2 == 0,
    ;
    assert(control >> 2u8 == control / 4) by (bit_vector);
}

/// An orders payload is the number of its orders in two bytes and the orders: that many of
/// them are read, from the first on, and where the orders end no more come.
pub proof fn law_payload_counts_its_orders(count: u16, orders: Seq<u8>, n: nat)
    ensures
        payload_events(le16_bytes(count) + orders) == orders_events(le16_bytes(count) + orders, 2, count as nat),
        orders_events(orders, orders.len() as int, n).len() == 0,
        payload_events(le16_bytes(0) + orders).len() == 0,
{
    let payload = le16_bytes(count) + orders;
    assert(payload.subrange(0, 2) =~= le16_bytes(count));
    lemma_le16_in(payload, 0, count);
    let none = le16_bytes(0) + orders;
    assert(none.subrange(0, 2) =~= le16_bytes(0));
    lemma_le16_in(none, 0, 0);
}

} // verus!
