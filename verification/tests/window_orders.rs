//! Window orders: what a payload of orders says of the server's windows.

use web_rdp::rail::window::{
    decode_icon, parse, Reader, Rect, WindowEvent, ORDER_TYPE_FRAME_MARKER, ORDER_TYPE_WINDOW, SW_SHOWMINIMIZED,
    WINDOW_ORDER_FIELD_DESKTOP_ACTIVE_WND, WINDOW_ORDER_FIELD_DESKTOP_ZORDER, WINDOW_ORDER_FIELD_SHOW,
    WINDOW_ORDER_FIELD_TITLE, WINDOW_ORDER_FIELD_VISIBILITY, WINDOW_ORDER_FIELD_WND_OFFSET,
    WINDOW_ORDER_FIELD_WND_SIZE, WINDOW_ORDER_ICON, WINDOW_ORDER_STATE_DELETED, WINDOW_ORDER_STATE_NEW,
    WINDOW_ORDER_TYPE_DESKTOP, WINDOW_ORDER_TYPE_WINDOW,
};

// Build one ALTSEC window order: controlFlags, orderSize, fieldFlags, body.
fn window_order(field_flags: u32, body: &[u8]) -> Vec<u8> {
    let order_size = 1 + 2 + 4 + body.len(); // controlFlags + orderSize + fieldFlags + body
    let mut o = Vec::new();
    o.push(ORDER_TYPE_WINDOW << 2); // STANDARD bit clear, altsec type 0x0B
    o.extend_from_slice(&(order_size as u16).to_le_bytes());
    o.extend_from_slice(&field_flags.to_le_bytes());
    o.extend_from_slice(body);
    o
}

fn payload(orders: &[Vec<u8>]) -> Vec<u8> {
    let mut p = (orders.len() as u16).to_le_bytes().to_vec();
    for o in orders {
        p.extend_from_slice(o);
    }
    p
}

#[test]
fn create_window_with_geometry_and_title() {
    // windowId + SHOW(showState=1) + TITLE("Hi") + WND_OFFSET(30,40) + WND_SIZE(300,200)
    let mut body = Vec::new();
    body.extend_from_slice(&0xDEAD_BEEFu32.to_le_bytes()); // windowId
    body.push(1); // showState = SW_SHOWNORMAL
    let title: Vec<u16> = "Hi".encode_utf16().collect();
    body.extend_from_slice(&((title.len() * 2) as u16).to_le_bytes());
    for u in &title {
        body.extend_from_slice(&u.to_le_bytes());
    }
    body.extend_from_slice(&30i32.to_le_bytes()); // windowOffsetX
    body.extend_from_slice(&40i32.to_le_bytes()); // windowOffsetY
    body.extend_from_slice(&300u32.to_le_bytes()); // windowWidth
    body.extend_from_slice(&200u32.to_le_bytes()); // windowHeight

    let ff = WINDOW_ORDER_TYPE_WINDOW
        | WINDOW_ORDER_STATE_NEW
        | WINDOW_ORDER_FIELD_SHOW
        | WINDOW_ORDER_FIELD_TITLE
        | WINDOW_ORDER_FIELD_WND_OFFSET
        | WINDOW_ORDER_FIELD_WND_SIZE;
    let ev = parse(&payload(&[window_order(ff, &body)]));
    assert_eq!(ev.len(), 1);
    match &ev[0] {
        WindowEvent::NewOrUpdate(w) => {
            assert_eq!(w.window_id, 0xDEAD_BEEF);
            assert!(w.is_new);
            assert_eq!(w.show_state, Some(1));
            assert_eq!(w.title.as_deref(), Some("Hi"));
            assert_eq!(w.x, Some(30));
            assert_eq!(w.y, Some(40));
            assert_eq!(w.width, Some(300));
            assert_eq!(w.height, Some(200));
        }
        other => panic!("expected NewOrUpdate, got {other:?}"),
    }
}

#[test]
fn delete_window() {
    let mut body = Vec::new();
    body.extend_from_slice(&0x1234u32.to_le_bytes());
    let ff = WINDOW_ORDER_TYPE_WINDOW | WINDOW_ORDER_STATE_DELETED;
    let ev = parse(&payload(&[window_order(ff, &body)]));
    assert_eq!(ev, vec![WindowEvent::Deleted(0x1234)]);
}

#[test]
fn desktop_zorder_and_active() {
    let mut body = Vec::new();
    body.extend_from_slice(&0xAAu32.to_le_bytes()); // activeWindowId
    body.push(2); // numWindowIds
    body.extend_from_slice(&0xAAu32.to_le_bytes());
    body.extend_from_slice(&0xBBu32.to_le_bytes());
    let ff = WINDOW_ORDER_TYPE_DESKTOP | WINDOW_ORDER_FIELD_DESKTOP_ACTIVE_WND | WINDOW_ORDER_FIELD_DESKTOP_ZORDER;
    let ev = parse(&payload(&[window_order(ff, &body)]));
    assert_eq!(
        ev,
        vec![WindowEvent::ActiveWindow(0xAA), WindowEvent::ZOrder(vec![0xAA, 0xBB])]
    );
}

#[test]
fn trailing_unknown_fields_skipped_via_ordersize() {
    // SHOW only, but append 5 junk trailing bytes inside orderSize.
    let mut body = Vec::new();
    body.extend_from_slice(&7u32.to_le_bytes()); // windowId
    body.push(SW_SHOWMINIMIZED);
    body.extend_from_slice(&[0xFF; 5]); // pretend Win8+ trailing fields
    let ff = WINDOW_ORDER_TYPE_WINDOW | WINDOW_ORDER_FIELD_SHOW;
    // second order proves we resync to the next order boundary
    let mut body2 = Vec::new();
    body2.extend_from_slice(&8u32.to_le_bytes());
    let ff2 = WINDOW_ORDER_TYPE_WINDOW | WINDOW_ORDER_STATE_DELETED;
    let ev = parse(&payload(&[window_order(ff, &body), window_order(ff2, &body2)]));
    assert_eq!(ev.len(), 2);
    assert!(matches!(&ev[0], WindowEvent::NewOrUpdate(w) if w.show_state == Some(SW_SHOWMINIMIZED)));
    assert_eq!(ev[1], WindowEvent::Deleted(8));
}

#[test]
fn icon_32bpp_decoded_bottom_up_to_rgba() {
    // 2x2 32-bpp icon, bottom-up BGRA, alpha present (no AND mask).
    let mut body = Vec::new();
    body.extend_from_slice(&0x55u32.to_le_bytes()); // windowId
    // TS_ICON_INFO
    body.extend_from_slice(&0u16.to_le_bytes()); // cacheEntry
    body.push(0); // cacheId
    body.push(32); // bpp
    body.extend_from_slice(&2u16.to_le_bytes()); // width
    body.extend_from_slice(&2u16.to_le_bytes()); // height
    body.extend_from_slice(&0u16.to_le_bytes()); // cbBitsMask (no mask)
    body.extend_from_slice(&16u16.to_le_bytes()); // cbBitsColor = 2*2*4
    // bitsColor, bottom-up, BGRA: src row0 (bottom), then src row1 (top)
    body.extend_from_slice(&[10, 20, 30, 255, 40, 50, 60, 255]); // bottom row
    body.extend_from_slice(&[70, 80, 90, 255, 100, 110, 120, 255]); // top row

    let ff = WINDOW_ORDER_TYPE_WINDOW | WINDOW_ORDER_STATE_NEW | WINDOW_ORDER_ICON;
    let ev = parse(&payload(&[window_order(ff, &body)]));
    assert_eq!(ev.len(), 1);
    match &ev[0] {
        WindowEvent::Icon { window_id, width, height, rgba } => {
            assert_eq!(*window_id, 0x55);
            assert_eq!((*width, *height), (2, 2));
            // Top-down RGBA: out row0 = src top row (BGRA→RGBA), row1 = src bottom.
            assert_eq!(
                rgba,
                &[90, 80, 70, 255, 120, 110, 100, 255, 30, 20, 10, 255, 60, 50, 40, 255]
            );
        }
        other => panic!("expected Icon, got {other:?}"),
    }
}

#[test]
fn frame_marker_between_orders() {
    // frame marker (type 0x0D, 4-byte action) then a delete order.
    let mut fm = vec![ORDER_TYPE_FRAME_MARKER << 2];
    fm.extend_from_slice(&0u32.to_le_bytes());
    let mut body = Vec::new();
    body.extend_from_slice(&9u32.to_le_bytes());
    let del = window_order(WINDOW_ORDER_TYPE_WINDOW | WINDOW_ORDER_STATE_DELETED, &body);
    let ev = parse(&payload(&[fm, del]));
    assert_eq!(ev, vec![WindowEvent::Deleted(9)]);
}

#[test]
fn no_payload_gives_no_events() {
    assert_eq!(parse(&[]), vec![]);
    assert_eq!(parse(&[1]), vec![]);
    assert_eq!(parse(&[0, 0]), vec![]);
}

#[test]
fn events_before_a_cut_off_order_stand() {
    let mut body = Vec::new();
    body.extend_from_slice(&3u32.to_le_bytes());
    let whole = window_order(WINDOW_ORDER_TYPE_WINDOW | WINDOW_ORDER_STATE_DELETED, &body);
    let mut p = payload(&[whole.clone(), whole]);
    p.truncate(p.len() - 3);
    assert_eq!(parse(&p)[0], WindowEvent::Deleted(3));
}

#[test]
fn several_visibility_rectangles_are_kept() {
    let mut body = Vec::new();
    body.extend_from_slice(&5u32.to_le_bytes());
    body.extend_from_slice(&2u16.to_le_bytes());
    for v in [1u16, 2, 3, 4, 5, 6, 7, 8] {
        body.extend_from_slice(&v.to_le_bytes());
    }
    let ff = WINDOW_ORDER_TYPE_WINDOW | WINDOW_ORDER_FIELD_VISIBILITY;
    let ev = parse(&payload(&[window_order(ff, &body)]));
    match &ev[0] {
        WindowEvent::NewOrUpdate(w) => assert_eq!(
            w.visibility_rects,
            Some(vec![
                Rect { left: 1, top: 2, right: 3, bottom: 4 },
                Rect { left: 5, top: 6, right: 7, bottom: 8 },
            ])
        ),
        other => panic!("expected NewOrUpdate, got {other:?}"),
    }
}

#[test]
fn icon_24bpp_takes_alpha_from_the_mask() {
    // One row of two pixels; rows of both are padded to four bytes, and the mask hides
    // the second pixel.
    let color = [1u8, 2, 3, 4, 5, 6, 0, 0];
    let mask = [0b0100_0000u8, 0, 0, 0];
    assert_eq!(decode_icon(24, 2, 1, &color, &mask), Some(vec![3, 2, 1, 255, 6, 5, 4, 0]));
}

#[test]
fn icon_that_cannot_be_decoded_is_none() {
    assert_eq!(decode_icon(32, 0, 1, &[0; 4], &[]), None);
    assert_eq!(decode_icon(32, 257, 1, &[0; 2000], &[]), None);
    assert_eq!(decode_icon(32, 2, 2, &[0; 15], &[]), None);
    assert_eq!(decode_icon(8, 1, 1, &[0; 4], &[]), None);
}

/// An update of window 7: a title, of which `kept` bytes are there, and behind it the
/// window's offset.
fn titled(title: &str, kept: usize) -> Vec<u8> {
    let text: Vec<u8> = title.encode_utf16().flat_map(|unit| unit.to_le_bytes()).collect();
    let mut body = 7u32.to_le_bytes().to_vec();
    body.extend_from_slice(&(text.len() as u16).to_le_bytes());
    body.extend_from_slice(&text[..kept]);
    if kept == text.len() {
        body.extend_from_slice(&30i32.to_le_bytes());
        body.extend_from_slice(&40i32.to_le_bytes());
    }
    window_order(WINDOW_ORDER_TYPE_WINDOW | WINDOW_ORDER_FIELD_TITLE | WINDOW_ORDER_FIELD_WND_OFFSET, &body)
}

#[test]
fn a_counted_text_is_read_back_whole() {
    for (title, len) in [("", 0), ("a\0b\0", 8), ("Wörter 🪟", 18)] {
        match &parse(&payload(&[titled(title, len)]))[..] {
            [WindowEvent::NewOrUpdate(w)] => {
                assert_eq!(w.title.as_deref(), Some(title));
                assert_eq!((w.x, w.y), (Some(30), Some(40)));
            }
            other => panic!("expected one update, got {other:?}"),
        }
    }
}

#[test]
fn a_counted_text_leaves_the_reader_behind_it() {
    let buf = [6, 0, b'a', 0, 0, 0, b'b', 0, 2, 0, b'c', 0, 4, 0, b'd', 0];
    let mut r = Reader::new(&buf);
    assert_eq!(r.unicode_string().as_deref(), Some("a\0b"));
    assert_eq!(r.pos, 8);
    assert_eq!(r.unicode_string().as_deref(), Some("c"));
    assert_eq!(r.pos, 12);
    // Two of four bytes are there.
    assert_eq!(r.unicode_string(), None);
}

#[test]
fn a_malformed_order_ends_the_parse() {
    // A title that claims 65535 bytes, then an order that deletes a window.
    let payload_bytes = [
        2, 0, 0x2C, 13, 0, 0x04, 0, 0, 0x01, 7, 0, 0, 0, 0xFF, 0xFF, 0x2C, 11, 0, 0, 0, 0, 0x21, 8, 0, 0, 0,
    ];
    assert_eq!(parse(&payload_bytes), vec![]);
    let gone = |id: u32| window_order(WINDOW_ORDER_TYPE_WINDOW | WINDOW_ORDER_STATE_DELETED, &id.to_le_bytes());
    // What was found before it stands.
    let cut = titled("a title that goes on and on", 4);
    assert_eq!(parse(&payload(&[gone(8), cut, gone(9)])), vec![WindowEvent::Deleted(8)]);
    // An icon whose colour bitmap claims 65535 bytes.
    let icon = window_order(
        WINDOW_ORDER_TYPE_WINDOW | WINDOW_ORDER_ICON,
        &[5, 0, 0, 0, 0, 0, 0, 32, 2, 0, 2, 0, 0, 0, 0xFF, 0xFF],
    );
    assert_eq!(parse(&payload(&[icon, gone(9)])), vec![]);
    // A desktop order with a z-order of 255 windows: the active window has been found.
    let desktop = window_order(
        WINDOW_ORDER_TYPE_DESKTOP | WINDOW_ORDER_FIELD_DESKTOP_ACTIVE_WND | WINDOW_ORDER_FIELD_DESKTOP_ZORDER,
        &[3, 0, 0, 0, 255],
    );
    assert_eq!(parse(&payload(&[desktop, gone(9)])), vec![WindowEvent::ActiveWindow(3)]);
}

#[test]
fn what_is_not_read_of_an_order_is_stepped_over() {
    let gone = window_order(WINDOW_ORDER_TYPE_WINDOW | WINDOW_ORDER_STATE_DELETED, &9u32.to_le_bytes());
    // An order without a type, and an icon of a depth that is not decoded.
    let untyped = window_order(0, &[1, 2, 3]);
    let icon = window_order(
        WINDOW_ORDER_TYPE_WINDOW | WINDOW_ORDER_ICON,
        &[5, 0, 0, 0, 0, 0, 0, 16, 1, 0, 1, 0, 0, 0, 2, 0, 0xAA, 0xBB],
    );
    assert_eq!(parse(&payload(&[untyped, icon, gone])), vec![WindowEvent::Deleted(9)]);
}
