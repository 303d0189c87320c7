//! The RAIL channel: its orders, and what the client does about the server's.

use web_rdp::rail::client::{Rail, CHANNEL_FLAG_SHOW_PROTOCOL, RAIL_CLIENT_BUILD};
use web_rdp::rail::notices::{dispatch_window_events, RailNotice, WasmRailHandler};
use web_rdp::rail::pdu::{
    ClientRailOrder, ExecResult, RailDecodeError, RailEncodeError, ServerRailOrder, SC_CLOSE,
};

fn rail() -> Rail<WasmRailHandler> {
    Rail::new(
        WasmRailHandler::new(),
        "||notepad".to_string(),
        String::new(),
        "a b".to_string(),
        800,
        600,
    )
}

#[test]
fn activate_order_has_its_exact_bytes() {
    let order = ClientRailOrder::Activate { window_id: 0x01020304, enabled: true };
    assert_eq!(order.encode(), Ok(vec![0x02, 0, 9, 0, 4, 3, 2, 1, 1]));
    assert_eq!(order.size(), 9);
}

#[test]
fn sys_command_order_has_its_exact_bytes() {
    let order = ClientRailOrder::SysCommand { window_id: 7, command: SC_CLOSE };
    assert_eq!(order.encode(), Ok(vec![0x04, 0, 10, 0, 7, 0, 0, 0, 0x60, 0xF0]));
}

#[test]
fn exec_order_carries_its_texts() {
    let order = ClientRailOrder::Exec {
        exe_or_file: "a".to_string(),
        working_dir: String::new(),
        arguments: "é".to_string(),
    };
    let bytes = order.encode().unwrap();
    assert_eq!(bytes, vec![1, 0, 16, 0, 9, 0, 2, 0, 0, 0, 2, 0, b'a', 0, 0xE9, 0]);
}

#[test]
fn order_too_long_for_its_length_field_is_refused() {
    let order = ClientRailOrder::Exec {
        exe_or_file: "x".repeat(40_000),
        working_dir: String::new(),
        arguments: String::new(),
    };
    assert_eq!(order.encode(), Err(RailEncodeError::OrderLength));
}

#[test]
fn server_orders_are_told_apart() {
    assert_eq!(ServerRailOrder::decode(&[5, 0, 8, 0, 1, 0, 0, 0]), Ok(ServerRailOrder::Handshake));
    assert_eq!(ServerRailOrder::decode(&[0x13, 0, 8, 0]), Ok(ServerRailOrder::Handshake));
    assert_eq!(ServerRailOrder::decode(&[0x0A, 0, 4, 0]), Ok(ServerRailOrder::Other(0x0A)));
    assert_eq!(ServerRailOrder::decode(&[1, 0]), Err(RailDecodeError::HeaderTruncated));
    assert_eq!(ServerRailOrder::decode(&[0x80, 0, 4, 0, 0]), Err(RailDecodeError::ExecResultTruncated));
}

#[test]
fn handshake_starts_the_client_once() {
    let mut client = rail();
    let first = client.handle_pdu(&[5, 0, 8, 0, 1, 0, 0, 0]).unwrap();
    assert_eq!(first[0], ClientRailOrder::Handshake { build_number: RAIL_CLIENT_BUILD });
    assert!(first.iter().any(|o| matches!(o, ClientRailOrder::Exec { exe_or_file, .. } if exe_or_file == "||notepad")));
    assert!(first.contains(&ClientRailOrder::SysParamWorkArea { width: 800, height: 600 }));
    let again = client.handle_pdu(&[5, 0, 8, 0, 1, 0, 0, 0]).unwrap();
    assert_eq!(again, vec![]);
}

#[test]
fn launch_result_reaches_the_handler() {
    let mut client = rail();
    let mut pdu = vec![0x80, 0, 16, 0];
    pdu.extend_from_slice(&[9, 0, 3, 0, 0x78, 0x56, 0x34, 0x12, 0, 0, 0, 0]);
    assert_eq!(client.process(&pdu), Ok(vec![]));
    assert_eq!(client.handler.take_results(), vec![ExecResult { exec_result: 3, raw_result: 0x12345678 }]);
    assert_eq!(client.handler.take_results(), vec![]);
}

#[test]
fn window_commands_go_out_with_the_protocol_flag() {
    let client = rail();
    let out = client.activate(5, false);
    assert_eq!(out[0].order, ClientRailOrder::Activate { window_id: 5, enabled: false });
    assert_eq!(out[0].flags, CHANNEL_FLAG_SHOW_PROTOCOL);
    let out = client.sys_command(5, SC_CLOSE);
    assert_eq!(out[0].order, ClientRailOrder::SysCommand { window_id: 5, command: SC_CLOSE });
}

#[test]
fn the_page_is_told_of_windows() {
    // One order that deletes window 9, one that names the active window.
    let mut data = vec![2u8, 0];
    data.extend_from_slice(&[0x0B << 2, 11, 0]);
    data.extend_from_slice(&0x2100_0000u32.to_le_bytes());
    data.extend_from_slice(&9u32.to_le_bytes());
    data.extend_from_slice(&[0x0B << 2, 11, 0]);
    data.extend_from_slice(&0x0400_0020u32.to_le_bytes());
    data.extend_from_slice(&4u32.to_le_bytes());
    assert_eq!(dispatch_window_events(&data), vec![RailNotice::WindowDeleted(9), RailNotice::Active(4)]);
}

#[test]
fn a_window_notice_says_what_the_order_carried() {
    let mut data = vec![1u8, 0];
    data.extend_from_slice(&[0x0B << 2, 12, 0]);
    data.extend_from_slice(&0x1100_0010u32.to_le_bytes());
    data.extend_from_slice(&6u32.to_le_bytes());
    data.push(2);
    match &dispatch_window_events(&data)[0] {
        RailNotice::Window(w) => {
            assert_eq!((w.id, w.is_new, w.show_state), (6, true, 2));
            assert!(!w.has_pos && !w.has_size);
            assert_eq!(w.title, None);
            assert_eq!(w.vis_rects, Vec::<i32>::new());
        }
        other => panic!("expected a window, got {other:?}"),
    }
}
