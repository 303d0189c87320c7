//! PDUs out of a stream that comes in pieces.

use web_rdp::framed::{Action, FramedError, HintAnswer, Progress, WasmFramed, WsMessage};
use web_rdp::session::SessionStats;

fn feed(framed: &mut WasmFramed, stats: &mut SessionStats, bytes: &[u8]) {
    assert!(framed.fill_buf(&WsMessage::Bytes(bytes.to_vec()), stats));
}

fn framed_with(bytes: &[u8]) -> WasmFramed {
    let mut framed = WasmFramed::new();
    feed(&mut framed, &mut SessionStats::new(), bytes);
    framed
}

#[test]
fn a_pdu_in_two_pieces_is_one_pdu() {
    let mut framed = WasmFramed::new();
    let mut stats = SessionStats::new();
    feed(&mut framed, &mut stats, &[3, 0, 0]);
    assert_eq!(framed.read_pdu(), Ok(Progress::NeedMore));
    feed(&mut framed, &mut stats, &[6, 0xAA]);
    assert_eq!(framed.read_pdu(), Ok(Progress::NeedMore));
    feed(&mut framed, &mut stats, &[0xBB, 0x00, 0x04]);
    assert_eq!(framed.read_pdu(), Ok(Progress::Ready((Action::X224, vec![3, 0, 0, 6, 0xAA, 0xBB]))));
    assert_eq!(framed.read_pdu(), Ok(Progress::NeedMore));
    assert_eq!(framed.buffered(), 2);
    assert_eq!(stats.rx_bytes, 8);
}

#[test]
fn two_pdus_in_one_piece_are_two_pdus() {
    let mut framed = framed_with(&[0, 3, 9, 0, 2]);
    assert_eq!(framed.read_pdu(), Ok(Progress::Ready((Action::FastPath, vec![0, 3, 9]))));
    assert_eq!(framed.read_pdu(), Ok(Progress::Ready((Action::FastPath, vec![0, 2]))));
    assert_eq!(framed.buffered(), 0);
}

#[test]
fn a_long_fast_path_length_takes_two_bytes() {
    let mut bytes = vec![0, 0x81, 0x00];
    bytes.extend(std::iter::repeat(7).take(253));
    let mut framed = framed_with(&bytes);
    match framed.read_pdu() {
        Ok(Progress::Ready((Action::FastPath, pdu))) => assert_eq!(pdu.len(), 256),
        other => panic!("expected a PDU, got {other:?}"),
    }
}

#[test]
fn the_first_byte_must_name_a_framing() {
    assert_eq!(framed_with(&[1, 4, 0, 0]).read_pdu(), Err(FramedError::UnknownAction(1)));
    assert_eq!(framed_with(&[2, 4, 0, 0]).read_pdu(), Err(FramedError::UnknownAction(2)));
}

#[test]
fn an_empty_pdu_is_an_error() {
    assert_eq!(framed_with(&[0, 0]).read_pdu(), Err(FramedError::ZeroLength));
    assert_eq!(framed_with(&[3, 0, 0, 0]).read_pdu(), Err(FramedError::ZeroLength));
    assert_eq!(framed_with(&[1]).read_by_hint(HintAnswer::Size(0)), Err(FramedError::ZeroLength));
}

#[test]
fn a_hint_tells_how_much_to_read() {
    let mut framed = framed_with(&[1, 2, 3, 4]);
    assert_eq!(framed.read_by_hint(HintAnswer::Unknown), Ok(Progress::NeedMore));
    assert_eq!(framed.read_by_hint(HintAnswer::Size(5)), Ok(Progress::NeedMore));
    assert_eq!(framed.read_by_hint(HintAnswer::Size(3)), Ok(Progress::Ready(vec![1, 2, 3])));
    assert_eq!(framed.read_by_hint(HintAnswer::Failed), Err(FramedError::HintFailed));
    assert_eq!(framed.read_exact(2), Progress::NeedMore);
    assert_eq!(framed.read_exact(1), Progress::Ready(vec![4]));
}

#[test]
fn an_x224_pdu_is_read_whole() {
    let mut framed = framed_with(&[3, 0, 0, 7, 2, 0xF0, 0x80, 1]);
    assert_eq!(framed.read_x224(), Ok(Progress::Ready(vec![3, 0, 0, 7, 2, 0xF0, 0x80])));
    assert_eq!(framed.buffered(), 1);
    assert_eq!(framed_with(&[3, 0, 0]).read_x224(), Ok(Progress::NeedMore));
    // The low bits name X.224, but the version is not 3.
    assert_eq!(framed_with(&[7, 0, 0, 7, 2, 0xF0, 0x80]).read_x224(), Err(FramedError::HintFailed));
    assert_eq!(framed_with(&[1, 0, 0, 7]).read_x224(), Err(FramedError::HintFailed));
}

#[test]
fn texts_do_not_disturb_the_bytes() {
    let mut framed = framed_with(&[0]);
    let mut stats = SessionStats::new();
    assert!(!framed.fill_buf(&WsMessage::Text("x".to_string()), &mut stats));
    assert_eq!(framed.read_text_message(WsMessage::Bytes(vec![2]), &mut stats), None);
    assert_eq!(
        framed.read_text_message(WsMessage::Text("hello".to_string()), &mut stats),
        Some("hello".to_string())
    );
    assert_eq!(stats, SessionStats { rx_bytes: 1, tx_bytes: 0 });
    assert_eq!(framed.read_pdu(), Ok(Progress::Ready((Action::FastPath, vec![0, 2]))));
}

#[test]
fn an_authentication_message_says_how_long_it_is() {
    let mut framed = framed_with(&[0x30, 2, 5, 6, 7]);
    assert!(framed.credssp_length_fits());
    assert_eq!(framed.read_credssp_response(), Ok(Progress::Ready(vec![0x30, 2, 5, 6])));
    let mut framed = framed_with(&[0x30, 0x82, 0, 3, 1, 2]);
    assert_eq!(framed.read_credssp_response(), Ok(Progress::NeedMore));
    feed(&mut framed, &mut SessionStats::new(), &[3, 4]);
    assert_eq!(framed.read_credssp_response(), Ok(Progress::Ready(vec![0x30, 0x82, 0, 3, 1, 2, 3])));
    assert_eq!(framed.buffered(), 1);
}

#[test]
fn an_authentication_message_is_a_sequence() {
    assert_eq!(framed_with(&[0x31, 2, 5, 6]).read_credssp_response(), Err(FramedError::NotSequence(0x31)));
}

#[test]
fn a_length_that_cannot_be_counted_is_seen() {
    let framed = framed_with(&[0x30, 0x88, 255, 255, 255, 255, 255, 255, 255, 255]);
    assert!(!framed.credssp_length_fits());
}

#[test]
fn cuts_do_not_change_the_pdus() {
    let stream = [0u8, 4, 1, 2, 3, 0, 0, 5, 9, 0, 0x80, 4, 8];
    let read_all = |pieces: &[&[u8]]| {
        let mut framed = WasmFramed::new();
        let mut stats = SessionStats::new();
        let mut pdus = Vec::new();
        for piece in pieces {
            feed(&mut framed, &mut stats, piece);
            while let Ok(Progress::Ready(pdu)) = framed.read_pdu() {
                pdus.push(pdu);
            }
        }
        (pdus, framed.buffered())
    };
    let whole = read_all(&[&stream]);
    assert_eq!(whole.0.len(), 3);
    for cut in 0..=stream.len() {
        assert_eq!(read_all(&[&stream[..cut], &stream[cut..]]), whole);
    }
}
