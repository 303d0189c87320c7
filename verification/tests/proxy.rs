//! The proxy: what it serves and how it relays.

use web_rdp::server::{
    asset_body, asset_path, asset_response, base_of, extension, inject_config, version_text, AppConfig, ControlReply,
    ControlRequest, Relay, RelayAction, RelayEvent, RelayState, ServiceControl, PONG,
};
use web_rdp::tls::{tls_error_message, tls_ready_message, TLS_UPGRADE_COMMAND};

fn config(app_name: Option<&str>) -> AppConfig {
    AppConfig {
        rdp_target: "localhost:3389".to_string(),
        app_name: app_name.map(str::to_string),
        enable_text_clipboard: true,
        enable_file_clipboard: false,
    }
}

#[test]
fn paths_name_files() {
    assert_eq!(asset_path("/"), "index.html");
    assert_eq!(asset_path(""), "index.html");
    assert_eq!(asset_path("///pkg/app.js"), "pkg/app.js");
    assert_eq!(base_of("/"), "");
    assert_eq!(base_of("/rdp//"), "/rdp");
    assert_eq!(base_of("/rdp"), "/rdp");
    assert_eq!(PONG, "pong");
}

#[test]
fn the_page_is_told_how_the_proxy_was_started() {
    assert_eq!(
        inject_config("<head></head><body>", &config(None)),
        "<head><script>window.__IB_TEXT_CLIPBOARD=true;window.__IB_FILE_CLIPBOARD=false;</script></head><body>"
    );
    assert_eq!(
        inject_config("</head>", &config(Some("A \"B\" \\ C"))),
        "<script>window.__IB_TEXT_CLIPBOARD=true;window.__IB_FILE_CLIPBOARD=false;\
         window.__APP_NAME=\"A \\\"B\\\" \\\\ C\";</script></head>"
    );
    assert_eq!(inject_config("<body>", &config(None)), "<body>");
}

#[test]
fn only_the_page_is_patched() {
    assert_eq!(asset_body("app.js", b"</head>", &config(None)), b"</head>".to_vec());
    assert_eq!(asset_body("index.html", &[0xFF, b'<'], &config(None)), vec![0xFF, b'<']);
    assert!(asset_body("index.html", b"</head>", &config(None)).starts_with(b"<script>"));
}

#[test]
fn files_are_served_with_their_type() {
    let page = asset_response("/", Some(b"hi"), &config(None));
    assert_eq!((page.status, page.content_type.as_deref(), page.body), (200, Some("text/html"), b"hi".to_vec()));
    let wasm = asset_response("/pkg/a.wasm", Some(b"x"), &config(None));
    assert_eq!(wasm.content_type.as_deref(), Some("application/wasm"));
    // The last part of the path decides, on every system.
    assert_eq!(extension("a.b/c.tar.gz"), "gz");
    assert_eq!(extension("a.b/c"), "");
    assert_eq!(extension("a/.hidden"), "");
    assert_eq!(extension("a/b."), "");
    assert_eq!(extension("a.html/"), "html");
    assert_eq!(extension("a.html/./"), "html");
    assert_eq!(extension("a.html/.."), "");
    assert_eq!(extension("."), "");
    assert_eq!(extension("a.html\\"), "html\\");
    let unknown = asset_response("/noextension", Some(b"x"), &config(None));
    assert_eq!(unknown.content_type.as_deref(), Some("application/octet-stream"));
    let missing = asset_response("/nowhere", None, &config(None));
    assert_eq!((missing.status, missing.content_type, missing.body), (404, None, b"404 Not Found".to_vec()));
}

#[test]
fn bytes_pass_until_tls_is_asked_for() {
    let mut relay = Relay::new();
    assert_eq!(relay.handle(RelayEvent::Binary(vec![1])), RelayAction::ToServer(vec![1]));
    assert_eq!(relay.handle(RelayEvent::FromServer(vec![2])), RelayAction::ToBrowser(vec![2]));
    assert_eq!(relay.handle(RelayEvent::Text("{}".to_string())), RelayAction::Nothing);
    assert_eq!(relay.handle(RelayEvent::Other), RelayAction::Nothing);
    assert_eq!(relay.handle(RelayEvent::Text(TLS_UPGRADE_COMMAND.to_string())), RelayAction::StartTls);
    assert_eq!(relay.state, RelayState::Upgrading);
    assert_eq!(
        relay.handle(RelayEvent::TlsUp(vec![0xAB])),
        RelayAction::Tell(tls_ready_message(&[0xAB]))
    );
    assert_eq!(relay.state, RelayState::Secure);
    assert_eq!(relay.handle(RelayEvent::Binary(vec![3])), RelayAction::ToServer(vec![3]));
    assert_eq!(relay.handle(RelayEvent::FromServer(vec![4])), RelayAction::ToBrowser(vec![4]));
    assert_eq!(relay.handle(RelayEvent::Text(TLS_UPGRADE_COMMAND.to_string())), RelayAction::Nothing);
    assert_eq!(relay.handle(RelayEvent::FromServer(vec![])), RelayAction::Close);
    assert_eq!(relay.handle(RelayEvent::Binary(vec![5])), RelayAction::Close);
}

#[test]
fn a_failed_handshake_is_told() {
    let mut relay = Relay { state: RelayState::Upgrading };
    assert_eq!(
        relay.handle(RelayEvent::TlsFailed("no".to_string())),
        RelayAction::TellAndClose(tls_error_message("no"))
    );
    assert_eq!(relay.state, RelayState::Closed);
}

#[test]
fn a_relay_ends_with_either_side() {
    for event in [RelayEvent::BrowserClosed, RelayEvent::ServerFailed, RelayEvent::WriteFailed] {
        let mut relay = Relay::new();
        assert_eq!(relay.handle(event), RelayAction::Close);
        assert_eq!(relay.state, RelayState::Closed);
    }
    let mut relay = Relay::new();
    assert_eq!(relay.step(RelayEvent::Text(String::new()), true), RelayAction::StartTls);
}

#[test]
fn a_service_stops_once() {
    let mut control = ServiceControl::new();
    assert_eq!(control.handle(ControlRequest::Interrogate), ControlReply { stop: false, known: true });
    assert_eq!(control.handle(ControlRequest::Stop), ControlReply { stop: true, known: true });
    assert_eq!(control.handle(ControlRequest::Stop), ControlReply { stop: false, known: true });
    assert_eq!(control.handle(ControlRequest::Other), ControlReply { stop: false, known: false });
}

#[test]
fn a_version_is_the_tag_or_the_commit() {
    assert_eq!(version_text(Some(" v1.2.3\n"), Some("0.1.0"), Some("abc")), "1.2.3");
    assert_eq!(version_text(None, Some("0.1.0"), Some("abc\n")), "0.1.0 (commit: abc)");
    assert_eq!(version_text(None, None, None), "unknown (commit: unknown)");
}
