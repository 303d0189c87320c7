//! Monitor layouts, the session's handle, and its loop.

use web_rdp::canvas::Canvas;
use web_rdp::clipboard::FileDescriptor;
use web_rdp::framed::Action;
use web_rdp::gfx::VideoCodec;
use web_rdp::input::InputPdu;
use web_rdp::monitor::{
    combined_desktop_size, desktop_for, find_main_monitor, layout_in_range, layout_is_usable, parse_dc_monitor_layout,
    parse_monitor_layout, primary_surface_rect, DcMonitor, Monitor,
};
use web_rdp::pixels::InclusiveRectangle;
use web_rdp::redirect::RedirectionPacket;
use web_rdp::session::{
    classify_end, on_outputs, outputs_after, ClipboardMessage, DisconnectReason, EndReason, InputEvent, LoopAction,
    LoopCommand, LoopError, LoopEvent, LoopState, LoopStep, PointerImage, Session, SessionLoop, SessionStats,
    StageOutput, Work, WorkResult,
};

const TWO: [i32; 10] = [0, 0, 1920, 1080, 1, 1920, 0, 1280, 1024, 0];

fn session() -> Session {
    Session::new(800, 600, Canvas::new(0, 0, 800, 600))
}

fn events(event: InputEvent) -> Vec<InputPdu> {
    match event {
        InputEvent::FastPath(events) => events,
        other => panic!("expected input, got {other:?}"),
    }
}

#[test]
fn monitor_edges_lie_inside() {
    let monitors = parse_monitor_layout(&TWO);
    assert_eq!(
        monitors,
        vec![
            Monitor { left: 0, top: 0, right: 1919, bottom: 1079, primary: true },
            Monitor { left: 1920, top: 0, right: 3199, bottom: 1023, primary: false },
        ]
    );
    assert_eq!(combined_desktop_size(&monitors), (3200, 1080));
    assert_eq!(primary_surface_rect(&monitors, 3200, 1080), (0, 0, 1920, 1080));
}

#[test]
fn an_unfinished_monitor_is_left_out() {
    assert_eq!(parse_monitor_layout(&TWO[..9]).len(), 1);
    assert_eq!(parse_monitor_layout(&[]), vec![]);
    assert_eq!(combined_desktop_size(&[]), (1, 1));
}

#[test]
fn without_a_primary_monitor_the_first_is_shown() {
    let monitors = parse_monitor_layout(&[5, 6, 10, 20, 0, 15, 6, 10, 20, 0]);
    assert_eq!(find_main_monitor(&monitors), Some(monitors[0]));
    assert_eq!(primary_surface_rect(&monitors, 1, 1), (5, 6, 10, 20));
    assert_eq!(primary_surface_rect(&[], 640, 480), (0, 0, 640, 480));
    let later = parse_monitor_layout(&[5, 6, 10, 20, 0, 15, 6, 30, 40, 1]);
    assert_eq!(primary_surface_rect(&later, 1, 1), (15, 6, 30, 40));
}

#[test]
fn sizes_are_kept_in_range() {
    let monitors = parse_monitor_layout(&[-5, -6, 3, 0, 1]);
    assert_eq!(combined_desktop_size(&monitors), (1, 1));
    assert_eq!(primary_surface_rect(&monitors, 1, 1), (0, 0, 3, 1));
    assert_eq!(combined_desktop_size(&parse_monitor_layout(&[0, 0, 70000, 10, 1])), (65535, 10));
}

#[test]
fn a_layout_that_cannot_be_counted_is_seen() {
    assert!(layout_in_range(&TWO));
    assert!(!layout_in_range(&[i32::MAX, 0, 1, 1, 1]));
    assert!(layout_is_usable(&TWO));
    assert!(layout_is_usable(&[]));
    assert!(!layout_is_usable(&[1, 0, i32::MIN, 1, 1]));
}

#[test]
fn the_desktop_is_as_asked_for_without_a_layout() {
    assert_eq!(desktop_for(&[], 1024, 768), ((1024, 768), (0, 0, 1024, 768)));
    assert_eq!(desktop_for(&TWO, 1024, 768), ((3200, 1080), (0, 0, 1920, 1080)));
}

#[test]
fn display_control_takes_allowed_monitors_only() {
    assert_eq!(
        parse_dc_monitor_layout(&[0, 0, 1921, 100, 1, 7, 8, -4, 9000, 0, 5, 0, 800, 600, 1]),
        vec![
            DcMonitor { primary: true, left: 0, top: 0, width: 1920, height: 200 },
            DcMonitor { primary: false, left: 7, top: 8, width: 200, height: 8192 },
        ]
    );
}

#[test]
fn keys_go_down_and_up() {
    let mut s = session();
    assert_eq!(events(s.send_keyboard(0x1E, true, false)), vec![InputPdu::Key { state: 0, code: 0x1E }]);
    // Held down: released and pressed again.
    assert_eq!(
        events(s.send_keyboard(0x1E, true, false)),
        vec![InputPdu::Key { state: 1, code: 0x1E }, InputPdu::Key { state: 0, code: 0x1E }]
    );
    assert_eq!(events(s.send_keyboard(0x1E, false, false)), vec![InputPdu::Key { state: 1, code: 0x1E }]);
    assert_eq!(events(s.send_keyboard(0x1E, false, false)), vec![]);
    assert_eq!(events(s.send_keyboard(0x1D, true, true)), vec![InputPdu::Key { state: 2, code: 0x1D }]);
    assert_eq!(events(s.send_keyboard(0x1D, false, false)), vec![]);
    assert_eq!(events(s.send_keyboard(0x1D, false, true)), vec![InputPdu::Key { state: 3, code: 0x1D }]);
}

#[test]
fn the_pointer_moves_once() {
    let mut s = session();
    assert_eq!(
        events(s.send_mouse_move(3, 4)),
        vec![InputPdu::Mouse { flags: 0x0800, wheel: 0, x: 3, y: 4 }]
    );
    assert_eq!(events(s.send_mouse_move(3, 4)), vec![]);
}

#[test]
fn buttons_move_the_pointer_first() {
    let mut s = session();
    assert_eq!(
        events(s.send_mouse_button(0, true, 5, 6).unwrap()),
        vec![
            InputPdu::Mouse { flags: 0x0800, wheel: 0, x: 5, y: 6 },
            InputPdu::Mouse { flags: 0x9000, wheel: 0, x: 5, y: 6 },
        ]
    );
    assert_eq!(events(s.send_mouse_button(0, true, 5, 6).unwrap()), vec![]);
    assert_eq!(
        events(s.send_mouse_button(0, false, 5, 6).unwrap()),
        vec![InputPdu::Mouse { flags: 0x1000, wheel: 0, x: 5, y: 6 }]
    );
    let down = |s: &mut Session, b| events(s.send_mouse_button(b, true, 5, 6).unwrap());
    assert_eq!(down(&mut s, 1), vec![InputPdu::Mouse { flags: 0xC000, wheel: 0, x: 5, y: 6 }]);
    assert_eq!(down(&mut s, 2), vec![InputPdu::Mouse { flags: 0xA000, wheel: 0, x: 5, y: 6 }]);
}

#[test]
fn other_buttons_are_not_forwarded() {
    let mut s = session();
    s.send_mouse_button(2, true, 5, 6);
    for button in [3, 4, 5, 255] {
        assert_eq!(s.send_mouse_button(button, true, 9, 9), None);
        assert_eq!(s.send_mouse_button(button, false, 9, 9), None);
    }
    // The pointer has not moved, and the right button is still down.
    assert_eq!(events(s.send_mouse_move(5, 6)), vec![]);
    assert_eq!(
        events(s.send_mouse_button(2, false, 5, 6).unwrap()),
        vec![InputPdu::Mouse { flags: 0x2000, wheel: 0, x: 5, y: 6 }]
    );
}

#[test]
fn the_wheel_turns_both_ways() {
    let mut s = session();
    assert_eq!(
        events(s.send_mouse_wheel(false, -120)),
        vec![InputPdu::Mouse { flags: 0x0200, wheel: -120, x: 0, y: 0 }]
    );
    assert_eq!(
        events(s.send_mouse_wheel(true, 1)),
        vec![InputPdu::Mouse { flags: 0x0400, wheel: 1, x: 0, y: 0 }]
    );
}

#[test]
fn a_resize_is_remembered_and_asked_for() {
    let mut s = session();
    assert_eq!(s.resize(1000, 700), InputEvent::Resize { width: 1000, height: 700 });
    assert_eq!((s.width(), s.height()), (1000, 700));
    assert_eq!(s.apply_monitor_layout(vec![]), None);
    assert_eq!((s.width(), s.height()), (1000, 700));
    assert_eq!(
        s.apply_monitor_layout(TWO.to_vec()),
        Some(InputEvent::MonitorLayout { monitors: TWO.to_vec() })
    );
    assert_eq!((s.width(), s.height()), (3200, 1080));
    assert_eq!(s.shutdown(), InputEvent::Terminate);
}

#[test]
fn surfaces_are_cleared_and_added() {
    let mut s = session();
    assert_eq!(s.surfaces, vec![Canvas::new(0, 0, 800, 600)]);
    s.clear_surfaces();
    assert_eq!(s.surfaces, vec![]);
    s.add_surface(1, 2, 3, 4);
    s.add_surface(5, 6, 7, 8);
    assert_eq!(s.surfaces, vec![Canvas::new(1, 2, 3, 4), Canvas::new(5, 6, 7, 8)]);
}

#[test]
fn bytes_are_counted() {
    let mut s = session();
    s.stats.count_received(10);
    s.stats.count_sent(3);
    s.stats.count_sent(4);
    assert_eq!((s.rx_bytes(), s.tx_bytes()), (10, 7));
    assert_eq!(s.stats, SessionStats { rx_bytes: 10, tx_bytes: 7 });
    assert_eq!(s.video_codec(), "RFX");
    s.video_codec = VideoCodec::Planar;
    assert_eq!(s.video_codec(), "Planar");
}

#[test]
fn messages_for_the_clipboard_are_handed_on() {
    let s = session();
    let message = || ClipboardMessage::InitiatePaste(13);
    assert_eq!(s.send_cliprdr_message(message()), InputEvent::Cliprdr(message()));
    let files = || vec![FileDescriptor { name: "a".to_string(), file_size: Some(1), attributes: None }];
    assert_eq!(s.send_file_copy(files()), InputEvent::FileCopy(files()));
}

fn region() -> InclusiveRectangle {
    InclusiveRectangle { left: 1, top: 2, right: 3, bottom: 4 }
}

fn step(l: &mut SessionLoop, event: LoopEvent) -> LoopStep {
    l.handle(event, false).unwrap()
}

#[test]
fn a_pdu_is_processed_and_its_outputs_acted_on() {
    let mut l = SessionLoop::new();
    let pdu = LoopEvent::Pdu { action: Action::X224, payload: vec![1] };
    assert_eq!(
        step(&mut l, pdu),
        LoopStep::Work(LoopCommand::ProcessPdu { action: Action::X224, payload: vec![1] })
    );
    let outputs = vec![
        StageOutput::ResponseFrame(vec![9]),
        StageOutput::Other,
        StageOutput::GraphicsUpdate(region()),
        StageOutput::PointerHidden,
        StageOutput::PointerDefault,
    ];
    assert_eq!(
        step(&mut l, LoopEvent::Worked(WorkResult::Outputs(outputs))),
        LoopStep::Act(vec![
            LoopAction::Send(vec![9]),
            LoopAction::Paint(region()),
            LoopAction::HideCursor,
            LoopAction::DefaultCursor,
        ])
    );
    assert_eq!(l.state, LoopState::Waiting);
}

#[test]
fn updates_of_the_image_are_not_drawn_over_the_pipeline() {
    let outputs = || vec![StageOutput::GraphicsUpdate(region())];
    assert_eq!(on_outputs(outputs(), true, &mut None), vec![]);
    assert_eq!(on_outputs(outputs(), false, &mut None), vec![LoopAction::Paint(region())]);
}

#[test]
fn a_cursor_of_the_server_is_shown() {
    let image = || PointerImage { width: 1, height: 1, hotspot_x: 0, hotspot_y: 0, rgba: vec![1, 2, 3, 4] };
    assert_eq!(
        on_outputs(vec![StageOutput::PointerBitmap(image())], true, &mut None),
        vec![LoopAction::CustomCursor(image())]
    );
}

#[test]
fn nothing_is_done_after_the_end() {
    let mut l = SessionLoop::new();
    step(&mut l, LoopEvent::Pdu { action: Action::X224, payload: vec![] });
    let outputs = vec![
        StageOutput::Terminate(DisconnectReason::ServerInitiated),
        StageOutput::ResponseFrame(vec![1]),
    ];
    assert_eq!(
        step(&mut l, LoopEvent::Worked(WorkResult::Outputs(outputs))),
        LoopStep::Act(vec![LoopAction::End(EndReason::ServerDisconnect)])
    );
    assert_eq!(l.state, LoopState::Ended(EndReason::ServerDisconnect));
    assert_eq!(l.handle(LoopEvent::ReadFailed, false), Err(LoopError::OutOfOrder));
}

#[test]
fn ends_are_told_apart() {
    let other = |t: &str| DisconnectReason::Other(t.to_string());
    assert_eq!(classify_end(DisconnectReason::UserInitiated).as_str(), "user_disconnect");
    assert_eq!(classify_end(DisconnectReason::ServerInitiated).as_str(), "server_disconnect");
    assert_eq!(classify_end(other("logged off")).as_str(), "server_disconnect");
    assert_eq!(
        classify_end(other("[0x5] Another user connected to the server.")).as_str(),
        "session_replaced"
    );
    assert_eq!(EndReason::ConnectionLost.as_str(), "connection_lost");
    assert_eq!(EndReason::Redirected.as_str(), "redirected");
}

#[test]
fn a_redirection_is_kept() {
    let mut l = SessionLoop::new();
    step(&mut l, LoopEvent::Pdu { action: Action::X224, payload: vec![] });
    let packet = RedirectionPacket {
        load_balance_info: Some(vec![1]),
        user_name: Some(vec![2]),
        domain: None,
        password: Some(vec![3]),
        redirection_guid: Some(vec![4]),
        target_certificate: None,
    };
    let outputs = vec![StageOutput::Redirect(packet)];
    assert_eq!(
        step(&mut l, LoopEvent::Worked(WorkResult::Outputs(outputs))),
        LoopStep::Act(vec![LoopAction::End(EndReason::Redirected)])
    );
    let pending = l.pending.unwrap();
    assert_eq!(pending.routing_token, Some(vec![1]));
    assert_eq!((pending.user_name, pending.domain), (vec![2], vec![]));
}

#[test]
fn events_become_work() {
    let mut l = SessionLoop::new();
    assert_eq!(
        step(&mut l, LoopEvent::Input(Some(InputEvent::Resize { width: 3, height: 4 }))),
        LoopStep::Work(LoopCommand::EncodeResize { width: 3, height: 4 })
    );
    assert_eq!(l.state, LoopState::Working(Work::Layout));
    assert_eq!(step(&mut l, LoopEvent::Worked(WorkResult::Unavailable)), LoopStep::Act(vec![]));
    let layout = InputEvent::MonitorLayout { monitors: TWO.to_vec() };
    match step(&mut l, LoopEvent::Input(Some(layout))) {
        LoopStep::Work(LoopCommand::EncodeLayout { entries, width, height }) => {
            assert_eq!((entries.len(), width, height), (2, 3200, 1080));
        }
        other => panic!("expected a layout, got {other:?}"),
    }
    assert_eq!(
        step(&mut l, LoopEvent::Worked(WorkResult::Frame(vec![7]))),
        LoopStep::Act(vec![LoopAction::Send(vec![7])])
    );
    let refused = InputEvent::MonitorLayout { monitors: vec![5, 5, 800, 600, 1] };
    assert_eq!(step(&mut l, LoopEvent::Input(Some(refused))), LoopStep::Act(vec![]));
    assert_eq!(
        step(&mut l, LoopEvent::Input(Some(InputEvent::Terminate))),
        LoopStep::Work(LoopCommand::Shutdown)
    );
}

#[test]
fn without_a_handle_the_session_ends() {
    let mut l = SessionLoop::new();
    assert_eq!(
        step(&mut l, LoopEvent::Input(None)),
        LoopStep::Act(vec![LoopAction::End(EndReason::UserDisconnect)])
    );
}

#[test]
fn only_some_failures_end_the_session() {
    assert_eq!(outputs_after(Work::Pdu, WorkResult::Failed), Ok(vec![]));
    assert_eq!(outputs_after(Work::Layout, WorkResult::Failed), Ok(vec![]));
    assert_eq!(outputs_after(Work::Clipboard, WorkResult::Refused), Ok(vec![]));
    assert_eq!(outputs_after(Work::Clipboard, WorkResult::Failed), Err(LoopError::ClipboardEncodeFailed));
    assert_eq!(outputs_after(Work::Input, WorkResult::Failed), Err(LoopError::InputFailed));
    assert_eq!(outputs_after(Work::Shutdown, WorkResult::Failed), Err(LoopError::ShutdownFailed));
    let mut l = SessionLoop::new();
    assert_eq!(l.handle(LoopEvent::ReadFailed, false), Err(LoopError::ReadFailed));
    assert_eq!(l.state, LoopState::Ended(EndReason::ConnectionLost));
}
