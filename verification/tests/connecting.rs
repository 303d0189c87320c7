//! How a connection comes about: configuration, sequence, authentication, handover.

use sspi::credssp::{ServerState, TsRequest};
use sspi::generator::GeneratorState;
use web_rdp::connect::{
    build_connector_config, performance_flags, plan_redirected, plan_session, socket_step, Looks, SessionOptions,
    SocketState, SocketStep,
};
use web_rdp::connection::{
    names_hybrid_ex, perform_tls_upgrade, tls_reply_readable, ConnectionAction, ConnectionError, ConnectionEvent,
    ConnectionSequence, ConnectionState, ConnectorStatus,
};
use web_rdp::credssp::{
    credentials_usable, CredsspAction, CredsspError, CredsspEvent, CredsspExchange, CredsspReply, CredsspSession,
    CredsspState,
};
use web_rdp::redirect::{
    build_auth_request, check_cert_pin, connection_request, contains_subslice, describe_denial, describe_result_code,
    parse_auth_response, parse_capabilities, pin_of_decoded, selected_protocol, value_of_token, CertPin, NegoConfirm,
    PendingRedirect, RedirectAction, RedirectError, RedirectEvent, RedirectHandshake, RedirectState,
};
use web_rdp::tls::{
    extract_public_key, hex_decodable, hex_decode, hex_encode, is_tls_upgrade, is_tls_upgrade_command,
    parse_tls_ready, tls_error_message, tls_ready_message, usable_key, HexError, KeyError, TLS_UPGRADE_COMMAND,
};

const PLAIN: Looks = Looks {
    enable_font_smoothing: false,
    disable_cursor_effects: false,
    allow_wallpaper: true,
    allow_themes: true,
    allow_animations: true,
};

fn options(monitors: Vec<i32>, enable_audio: bool) -> SessionOptions {
    SessionOptions {
        width: 1024,
        height: 768,
        monitors,
        enable_opus: false,
        enable_aac: false,
        enable_text_clipboard: true,
        enable_file_clipboard: false,
        enable_audio,
        looks: PLAIN,
    }
}

fn pending() -> PendingRedirect {
    PendingRedirect {
        routing_token: Some(b"Cookie: msts=4711\r\n".to_vec()),
        user_name: vec![b'j', 0, b'o', 0, 0, 0],
        domain: vec![],
        password: vec![0xAA, 0xBB],
        redirection_guid: vec![1, 2, 3],
        target_certificate: None,
    }
}

#[test]
fn performance_flags_follow_the_choices() {
    assert_eq!(performance_flags(PLAIN), 0x86);
    let spare = Looks {
        enable_font_smoothing: true,
        disable_cursor_effects: true,
        allow_wallpaper: false,
        allow_themes: false,
        allow_animations: false,
    };
    assert_eq!(performance_flags(spare), 0xCF);
}

#[test]
fn the_configuration_names_the_client() {
    let config = build_connector_config(
        "u".to_string(),
        "p".to_string(),
        String::new(),
        640,
        480,
        vec![],
        true,
        PLAIN,
        true,
    );
    assert_eq!((config.username.as_str(), config.password.as_str(), config.domain), ("u", "p", None));
    assert_eq!(config.client_name, "web-rdp-rust");
    assert_eq!(config.client_dir, "C:\\Windows\\System32\\mstscax.dll");
    assert_eq!((config.keyboard_type, config.keyboard_functional_keys_count), (4, 12));
    assert!(config.enable_tls && config.enable_credssp && config.autologon && config.enable_server_pointer);
    assert!(!config.pointer_software_rendering);
    assert_eq!((config.width, config.height), (640, 480));
}

#[test]
fn a_plan_takes_its_size_from_the_monitors() {
    let alone = plan_session(&options(vec![], true), "u".to_string(), "p".to_string(), "d".to_string());
    assert_eq!((alone.config.width, alone.config.height), (1024, 768));
    assert_eq!(alone.surface, (0, 0, 1024, 768));
    assert_eq!(alone.config.domain, Some("d".to_string()));
    assert!(alone.static_audio && alone.dynamic_audio && alone.config.enable_audio_playback);
    let layout = vec![0, 0, 800, 600, 1, 800, 0, 800, 600, 0];
    let two = plan_session(&options(layout, false), "u".to_string(), "p".to_string(), String::new());
    assert_eq!((two.config.width, two.config.height), (1600, 600));
    assert_eq!(two.surface, (0, 0, 800, 600));
    assert_eq!(two.config.monitors.len(), 2);
    assert!(!two.static_audio && !two.dynamic_audio && !two.config.enable_audio_playback);
    assert!(two.dynamic_channels && two.graphics_pipeline && two.config.support_graphics_pipeline);
}

#[test]
fn a_redirected_plan_uses_the_packet_once() {
    let mut slot = Some(pending());
    let (plan, used) = plan_redirected(&options(vec![], false), &mut slot).unwrap();
    assert_eq!(plan.config.username, "jo");
    assert_eq!(plan.config.password, "");
    assert_eq!(plan.config.domain, None);
    assert_eq!(used, pending());
    assert_eq!(slot, None);
    assert!(plan_redirected(&options(vec![], false), &mut slot).is_none());
}

#[test]
fn a_socket_is_waited_for() {
    assert_eq!(socket_step(SocketState::Connecting), SocketStep::Wait);
    assert_eq!(socket_step(SocketState::Open), SocketStep::Ready);
    assert_eq!(socket_step(SocketState::Closing), SocketStep::Fail);
    assert_eq!(socket_step(SocketState::Closed), SocketStep::Fail);
}

// --- TLS ---------------------------------------------------------------------

#[test]
fn hexadecimal_goes_both_ways() {
    assert_eq!(hex_encode(&[0x00, 0x9A, 0xFF]), "009aff");
    assert_eq!(hex_decode("009AfF"), Ok(vec![0x00, 0x9A, 0xFF]));
    assert_eq!(hex_decode("abc"), Err(HexError::OddLength));
    assert_eq!(hex_decode("zz"), Err(HexError::InvalidDigit));
    // A sign before a digit is read as a number.
    assert_eq!(hex_decode("+f"), Ok(vec![0x0F]));
    assert!(hex_decodable("é1a"));
    assert!(!hex_decodable("a\u{20AC}"));
}

#[test]
fn the_proxy_understands_its_command() {
    assert!(is_tls_upgrade(TLS_UPGRADE_COMMAND));
    assert!(is_tls_upgrade(" { \"x\": 1, \"cmd\" : \"tls_upgrade\" } "));
    assert!(!is_tls_upgrade("{\"cmd\":\"other\"}"));
    assert!(!is_tls_upgrade("{\"cmd\":7}"));
    assert!(!is_tls_upgrade("tls_upgrade"));
    assert!(is_tls_upgrade_command(Some("tls_upgrade".to_string())));
    assert!(!is_tls_upgrade_command(Some("tls_upgrad".to_string())));
    assert!(!is_tls_upgrade_command(None));
}

#[test]
fn the_certificate_arrives_through_the_proxys_answer() {
    let answer = tls_ready_message(&[0xDE, 0xAD]);
    assert_eq!(answer, "{\"cmd\":\"tls_ready\",\"server_cert\":\"dead\"}");
    assert_eq!(parse_tls_ready(&answer), Some("dead".to_string()));
    assert!(tls_reply_readable(&answer));
    assert_eq!(perform_tls_upgrade(&answer), Ok(vec![0xDE, 0xAD]));
    let failure = tls_error_message("a \"bad\"\n\u{1}");
    assert_eq!(failure, "{\"cmd\":\"tls_error\",\"error\":\"a \\\"bad\\\"\\n\\u0001\"}");
    assert_eq!(perform_tls_upgrade(&failure), Err(ConnectionError::InvalidTlsReply));
    assert_eq!(
        perform_tls_upgrade("tls_ready \"server_cert\":\"abc\""),
        Err(ConnectionError::InvalidCertificateHex(HexError::OddLength))
    );
    assert!(!tls_reply_readable("tls_ready \"server_cert\":\"a\u{20AC}\""));
}

fn tlv(tag: u8, content: &[u8]) -> Vec<u8> {
    let mut out = vec![tag];
    if content.len() < 128 {
        out.push(content.len() as u8);
    } else {
        out.extend_from_slice(&[0x82, (content.len() >> 8) as u8, content.len() as u8]);
    }
    out.extend_from_slice(content);
    out
}

/// A certificate with an Ed25519 key, whose bit string has `unused` unused bits.
fn certificate(key: &[u8], unused: u8) -> Vec<u8> {
    let algorithm = tlv(0x30, &tlv(0x06, &[0x2B, 0x65, 0x70]));
    let name = tlv(0x30, &[]);
    let time = tlv(0x17, b"250101000000Z");
    let validity = tlv(0x30, &[time.clone(), time].concat());
    let bits = tlv(0x03, &[vec![unused], key.to_vec()].concat());
    let spki = tlv(0x30, &[algorithm.clone(), bits].concat());
    let tbs = tlv(
        0x30,
        &[tlv(0x02, &[1]), algorithm.clone(), name.clone(), validity, name, spki].concat(),
    );
    tlv(0x30, &[tbs, algorithm, tlv(0x03, &[0, 0xAB])].concat())
}

#[test]
fn the_public_key_is_taken_out_of_a_certificate() {
    let key = [7u8; 32];
    assert_eq!(extract_public_key(&certificate(&key, 0)), Ok(key.to_vec()));
    assert_eq!(extract_public_key(&certificate(&[0xF0], 4)), Err(KeyError::UnusedBits));
    assert_eq!(extract_public_key(&[1, 2, 3]), Err(KeyError::Unparsable));
    assert_eq!(usable_key(Some(Some(vec![1]))), Ok(vec![1]));
    assert_eq!(usable_key(Some(None)), Err(KeyError::UnusedBits));
    assert_eq!(usable_key(None), Err(KeyError::Unparsable));
}

// --- The sequence ------------------------------------------------------------

const IDLE: ConnectorStatus = ConnectorStatus {
    connected: false,
    should_perform_security_upgrade: false,
    should_perform_credssp: false,
    hybrid_ex: false,
    wants_pdu: false,
};

#[test]
fn a_connection_goes_through_its_steps() {
    let mut c = ConnectionSequence::new();
    let status = |s| ConnectionEvent::Status(s);
    assert_eq!(c.handle(status(IDLE)), Ok(ConnectionAction::StepNoInput));
    assert_eq!(
        c.handle(ConnectionEvent::Stepped { nothing: false, filled: vec![1, 2] }),
        Ok(ConnectionAction::Send(vec![1, 2]))
    );
    assert_eq!(c.handle(status(ConnectorStatus { wants_pdu: true, ..IDLE })), Ok(ConnectionAction::ReadByHint));
    assert_eq!(c.handle(ConnectionEvent::Received(vec![3])), Ok(ConnectionAction::Step(vec![3])));
    assert_eq!(
        c.handle(ConnectionEvent::Stepped { nothing: true, filled: vec![1] }),
        Ok(ConnectionAction::Continue)
    );
    let upgrade = ConnectorStatus { should_perform_security_upgrade: true, wants_pdu: true, ..IDLE };
    assert_eq!(c.handle(status(upgrade)), Ok(ConnectionAction::RequestTls));
    let answer = tls_ready_message(&certificate(&[9; 32], 0));
    assert_eq!(c.handle(ConnectionEvent::Text(answer)), Ok(ConnectionAction::MarkSecurityUpgradeAsDone));
    assert_eq!(c.server_public_key, vec![9; 32]);
    let credssp = ConnectorStatus { should_perform_credssp: true, hybrid_ex: true, ..IDLE };
    assert_eq!(c.handle(status(credssp)), Ok(ConnectionAction::Authenticate { hybrid_ex: true }));
    assert_eq!(c.handle(ConnectionEvent::Authenticated), Ok(ConnectionAction::MarkCredsspAsDone));
    assert_eq!(c.handle(status(IDLE)), Ok(ConnectionAction::StepNoInput));
    assert_eq!(
        c.handle(ConnectionEvent::Stepped { nothing: false, filled: vec![] }),
        Ok(ConnectionAction::ClearBuffer)
    );
    let connected = ConnectorStatus { connected: true, should_perform_credssp: true, ..IDLE };
    assert_eq!(c.handle(status(connected)), Ok(ConnectionAction::Finish));
    assert_eq!(c.state, ConnectionState::Done);
}

#[test]
fn without_a_certificate_there_is_no_authentication() {
    let mut c = ConnectionSequence::new();
    let credssp = ConnectorStatus { should_perform_credssp: true, ..IDLE };
    assert_eq!(c.handle(ConnectionEvent::Status(credssp)), Ok(ConnectionAction::MarkCredsspAsDone));
    assert_eq!(c.state, ConnectionState::Turn);
}

#[test]
fn a_failed_authentication_ends_the_connection() {
    let mut c = ConnectionSequence { state: ConnectionState::Credssp, server_public_key: vec![1] };
    assert_eq!(
        c.handle(ConnectionEvent::AuthenticationFailed),
        Err(ConnectionError::AuthenticationFailed)
    );
    assert_eq!(c.handle(ConnectionEvent::Status(IDLE)), Err(ConnectionError::OutOfOrder));
}

#[test]
fn other_failures_end_the_connection() {
    let mut c = ConnectionSequence { state: ConnectionState::Step, server_public_key: vec![] };
    assert_eq!(c.handle(ConnectionEvent::StepFailed), Err(ConnectionError::StepFailed));
    let mut c = ConnectionSequence { state: ConnectionState::Tls, server_public_key: vec![] };
    let bad = tls_ready_message(&[1, 2, 3]);
    assert_eq!(
        c.handle(ConnectionEvent::Text(bad)),
        Err(ConnectionError::InvalidCertificate(KeyError::Unparsable))
    );
    let mut c = ConnectionSequence { state: ConnectionState::Tls, server_public_key: vec![] };
    assert_eq!(
        c.step(ConnectionEvent::Text(String::new()), Ok(vec![5])),
        Ok(ConnectionAction::MarkSecurityUpgradeAsDone)
    );
    assert_eq!(c.server_public_key, vec![5]);
}

#[test]
fn hybrid_ex_is_read_from_the_state() {
    assert!(names_hybrid_ex("Credssp { selected_protocol: SecurityProtocol(HYBRID | HYBRID_EX) }"));
    assert!(!names_hybrid_ex("Credssp { selected_protocol: SecurityProtocol(HYBRID) }"));
}

// --- The authentication ------------------------------------------------------

#[test]
fn an_exchange_ends_after_the_last_message() {
    let mut x = CredsspExchange::new(false);
    assert_eq!(x.step(CredsspEvent::Begin, false), Ok(CredsspAction::Process(None)));
    let reply = CredsspEvent::Processed(CredsspReply::Reply(vec![1]));
    assert_eq!(x.step(reply, false), Ok(CredsspAction::Send(vec![1])));
    assert_eq!(x.step(CredsspEvent::Sent, false), Ok(CredsspAction::ReadMessage));
    assert_eq!(
        x.step(CredsspEvent::Received(vec![2]), true),
        Ok(CredsspAction::Process(Some(vec![2])))
    );
    assert_eq!(x.round, 2);
    let last = CredsspEvent::Processed(CredsspReply::Final(vec![3]));
    assert_eq!(x.step(last, false), Ok(CredsspAction::Send(vec![3])));
    assert_eq!(x.step(CredsspEvent::Sent, false), Ok(CredsspAction::Finish));
    assert_eq!(x.step(CredsspEvent::Begin, false), Err(CredsspError::OutOfOrder));
}

#[test]
fn a_verdict_of_zeros_lets_the_user_in() {
    let sent = CredsspExchange { round: 3, hybrid_ex: true, state: CredsspState::FinalSent };
    let mut x = sent;
    assert_eq!(x.step(CredsspEvent::Sent, false), Ok(CredsspAction::ReadExact(4)));
    let mut denied = x;
    assert_eq!(x.step(CredsspEvent::Received(vec![0; 4]), false), Ok(CredsspAction::Finish));
    assert_eq!(
        denied.step(CredsspEvent::Received(vec![5, 0, 0, 0]), false),
        Err(CredsspError::Denied(vec![5, 0, 0, 0]))
    );
}

#[test]
fn an_exchange_does_not_go_on_for_ever() {
    let mut x = CredsspExchange::new(false);
    x.step(CredsspEvent::Begin, false).unwrap();
    let mut processed = 1;
    let error = loop {
        x.step(CredsspEvent::Processed(CredsspReply::Reply(vec![])), false).unwrap();
        x.step(CredsspEvent::Sent, false).unwrap();
        match x.step(CredsspEvent::Received(vec![]), true) {
            Ok(_) => processed += 1,
            Err(e) => break e,
        }
    };
    assert_eq!(error, CredsspError::TooManyRounds);
    assert_eq!(processed, 11);
}

#[test]
fn each_failure_of_an_exchange_has_its_error() {
    let processing = CredsspExchange { round: 1, hybrid_ex: false, state: CredsspState::Processing };
    let fail = |reply| {
        let mut x = processing;
        x.step(CredsspEvent::Processed(reply), false)
    };
    assert_eq!(
        fail(CredsspReply::Failed("no".to_string())),
        Err(CredsspError::ProcessFailed("no".to_string()))
    );
    assert_eq!(fail(CredsspReply::NetworkRequest), Err(CredsspError::NetworkRequest));
    assert_eq!(fail(CredsspReply::NotEncoded), Err(CredsspError::EncodeFailed));
    let mut x = CredsspExchange { round: 11, hybrid_ex: false, state: CredsspState::AwaitingMessage };
    assert_eq!(x.step(CredsspEvent::Received(vec![]), false), Err(CredsspError::DecodeFailed));
}

#[test]
fn the_client_sends_a_real_first_message() {
    let mut s = CredsspSession::new(&[1, 2, 3], "user", "pass", "", false).ok().unwrap();
    match s.handle(CredsspEvent::Begin) {
        Ok(CredsspAction::Send(bytes)) => {
            assert_eq!(bytes[0], 0x30);
            assert!(contains_subslice(&bytes, b"NTLMSSP\0"));
        }
        other => panic!("expected a message, got {other:?}"),
    }
    assert_eq!(s.handle(CredsspEvent::Sent), Ok(CredsspAction::ReadMessage));
    assert_eq!(s.handle(CredsspEvent::Received(vec![1, 2])), Err(CredsspError::DecodeFailed));
}

/// The bytes of a message.
fn bytes_of(message: &TsRequest) -> Vec<u8> {
    let mut bytes = Vec::new();
    message.encode_ts_request(&mut bytes).unwrap();
    bytes
}

/// A server's challenge without any names.
fn challenge() -> TsRequest {
    let mut token = b"NTLMSSP\0".to_vec();
    token.extend_from_slice(&[2, 0, 0, 0]);
    token.extend_from_slice(&[0, 0, 0, 0, 48, 0, 0, 0]);
    token.extend_from_slice(&[0, 0, 0, 0]);
    token.extend_from_slice(&[1, 2, 3, 4, 5, 6, 7, 8]);
    token.extend_from_slice(&[0; 8]);
    token.extend_from_slice(&[0, 0, 0, 0, 48, 0, 0, 0]);
    TsRequest { nego_tokens: Some(token), ..TsRequest::default() }
}

/// What comes of messages of the server, where all but the last are answered.
fn after(password: &str, messages: &[TsRequest]) -> Result<CredsspAction, CredsspError> {
    let mut s = CredsspSession::new(&[1, 2, 3], "user", password, "", false).ok().unwrap();
    let mut action = s.handle(CredsspEvent::Begin);
    for message in messages {
        assert!(matches!(action, Ok(CredsspAction::Send(_))));
        assert_eq!(s.handle(CredsspEvent::Sent), Ok(CredsspAction::ReadMessage));
        action = s.handle(CredsspEvent::Received(bytes_of(message)));
    }
    action
}

#[test]
fn a_key_echo_must_hold_its_signature() {
    let echo = |len: usize| TsRequest { pub_key_auth: Some(vec![7; len]), ..TsRequest::default() };
    let answer = |message: TsRequest| after("pass", &[challenge(), message]);
    assert_eq!(answer(echo(0)), Err(CredsspError::DecodeFailed));
    assert_eq!(answer(echo(15)), Err(CredsspError::DecodeFailed));
    // One that is long enough is handed to the client, which finds it wrong.
    assert!(matches!(answer(echo(16)), Err(CredsspError::ProcessFailed(_))));
    assert!(matches!(answer(TsRequest::default()), Err(CredsspError::ProcessFailed(_))));
    // The client does not look at the echo before.
    let early = TsRequest { pub_key_auth: Some(vec![7; 5]), ..challenge() };
    assert!(matches!(after("pass", &[early]), Ok(CredsspAction::Send(_))));
}

#[test]
fn an_answer_that_is_too_long_is_not_sent() {
    // The client's answer carries what the server sent as credentials.
    let carrying = |len: usize| TsRequest { auth_info: Some(vec![7; len]), ..challenge() };
    assert!(matches!(after("pass", &[carrying(65000)]), Ok(CredsspAction::Send(_))));
    assert_eq!(after("pass", &[carrying(65400)]), Err(CredsspError::EncodeFailed));
}

#[test]
fn credentials_that_cannot_be_sent_are_told() {
    assert!(credentials_usable(&"u".repeat(32745), "", ""));
    assert!(!credentials_usable(&"u".repeat(32746), "", ""));
    assert!(!credentials_usable(&"u".repeat(32744), "p", "d"));
    // A password that is a hash: 32 digits, or anything that is cut between characters.
    let hash = "$NTLM$:32ed87bdb5fdc5e9cba88547376818d4";
    assert!(credentials_usable("user", hash, ""));
    assert!(matches!(after(hash, &[challenge()]), Ok(CredsspAction::Send(_))));
    let cut = format!("$NTLM$:aé{}", "b".repeat(29));
    assert!(!credentials_usable("user", &cut, ""));
    let clean = format!("$NTLM$:éa{}", "b".repeat(29));
    assert!(credentials_usable("user", &clean, ""));
    assert!(matches!(after(&clean, &[challenge()]), Err(CredsspError::ProcessFailed(_))));
    assert!(credentials_usable("user", "aé", ""));
}

/// The server's side: it knows one user.
struct OneUser;

impl sspi::credssp::CredentialsProxy for OneUser {
    type AuthenticationData = sspi::AuthIdentity;

    fn auth_data_by_user(&mut self, username: &sspi::Username) -> std::io::Result<sspi::AuthIdentity> {
        Ok(sspi::AuthIdentity { username: username.clone(), password: "s\u{e9}cret".to_owned().into() })
    }

    fn auth_data(&mut self) -> std::io::Result<Vec<sspi::AuthIdentity>> {
        Ok(vec![])
    }
}

/// Takes an authentication to its end and gives what the server has been told.
fn authenticated(server_key: &[u8], password: &str) -> Result<(String, String), CredsspError> {
    let mode = sspi::credssp::ServerMode::Ntlm(sspi::ntlm::NtlmConfig::default());
    let mut server = sspi::credssp::CredSspServer::new(server_key.to_vec(), OneUser, mode).unwrap();
    let mut client = CredsspSession::new(&[4, 5, 6], "user", password, "DOM", false)?;
    let mut action = client.handle(CredsspEvent::Begin)?;
    loop {
        let bytes = match action {
            CredsspAction::Send(bytes) => bytes,
            other => panic!("expected a message, got {other:?}"),
        };
        let next = client.handle(CredsspEvent::Sent)?;
        let request = TsRequest::from_buffer(&bytes).unwrap();
        let answer = match server.process(request).start() {
            GeneratorState::Completed(Ok(ServerState::ReplyNeeded(answer))) => answer,
            GeneratorState::Completed(Ok(ServerState::Finished(identity))) => {
                assert_eq!(next, CredsspAction::Finish);
                let told: &String = identity.password.as_ref();
                return Ok((identity.username.inner().to_owned(), told.clone()));
            }
            GeneratorState::Completed(Err(refusal)) => *refusal.ts_request.unwrap(),
            GeneratorState::Suspended(_) => panic!("the server asks another one"),
        };
        assert_eq!(next, CredsspAction::ReadMessage);
        action = client.handle(CredsspEvent::Received(bytes_of(&answer)))?;
    }
}

#[test]
fn a_server_is_told_the_credentials_in_the_end() {
    let told = authenticated(&[4, 5, 6], "s\u{e9}cret");
    assert_eq!(told, Ok(("DOM\\user".to_owned(), "s\u{e9}cret".to_owned())));
    // Another password, and another key.
    assert!(matches!(authenticated(&[4, 5, 6], "guess"), Err(CredsspError::ProcessFailed(_))));
    assert!(matches!(authenticated(&[4, 5, 7], "s\u{e9}cret"), Err(CredsspError::ProcessFailed(_))));
}

#[test]
fn names_that_cannot_be_used_are_refused() {
    let start = |user: &str, domain: &str| CredsspSession::new(&[], user, "p", domain, false).err();
    assert_eq!(start("user@example.org", ""), None);
    assert_eq!(start("DOM\\user", ""), None);
    assert_eq!(start("user", "DOM"), None);
    assert_eq!(start("a@b@c", ""), None);
    assert_eq!(start("A\\b\\c", ""), Some(CredsspError::InvalidUsername));
    assert_eq!(start("A\\b@c", ""), Some(CredsspError::InvalidUsername));
    assert_eq!(start("user@x", "DOM"), Some(CredsspError::InvalidUsername));
    assert_eq!(start("user", "D\\M"), Some(CredsspError::InvalidUsername));
}

// --- The handover ------------------------------------------------------------

#[test]
fn capabilities_must_name_version_one() {
    assert_eq!(parse_capabilities(&[1, 0, 1, 0, 1, 0, 1, 0]), Ok(()));
    assert_eq!(parse_capabilities(&[1, 0, 1]), Err(RedirectError::CapabilitiesTooShort(3)));
    assert_eq!(parse_capabilities(&[1, 0, 2, 0, 1, 0, 1, 0]), Err(RedirectError::NotCapabilities(2)));
    assert_eq!(
        parse_capabilities(&[1, 0, 1, 0, 1, 0, 2, 0]),
        Err(RedirectError::VersionUnsupported { version: 1, supported: 2 })
    );
}

#[test]
fn credentials_are_replayed_verbatim() {
    assert_eq!(
        build_auth_request(&[1], &[2, 2], &[], &[3]),
        vec![1, 0, 2, 0, 1, 0, 1, 0, 1, 2, 0, 2, 2, 0, 0, 1, 0, 3]
    );
}

#[test]
fn a_refusal_is_explained() {
    let answer = |code: u32| {
        let mut bytes = vec![1, 0, 4, 0, 1, 0];
        bytes.extend_from_slice(&code.to_le_bytes());
        parse_auth_response(&bytes)
    };
    assert_eq!(answer(0), Ok(()));
    assert_eq!(answer(0x52e), Err(RedirectError::Denied(0x52e)));
    assert_eq!(parse_auth_response(&[0; 9]), Err(RedirectError::ResponseTooShort(9)));
    assert_eq!(parse_auth_response(&[0; 10]), Err(RedirectError::NotResponse(0)));
    assert_eq!(describe_denial(0x12ab_0005), "RDSTLS authentication failed: unknown error (0x12ab0005)");
    assert_eq!(describe_denial(0x533), "RDSTLS authentication failed: account disabled (0x00000533)");
    assert_eq!(describe_result_code(0x52e), "logon failure (unknown username or bad password)");
    assert_eq!(describe_result_code(0x775), "account locked out");
    assert_eq!(describe_result_code(1), "unknown error");
}

#[test]
fn a_token_goes_out_as_the_line_that_it_came_in() {
    assert_eq!(value_of_token("Cookie: msts=4711\r\n"), "4711");
    assert_eq!(value_of_token("4711"), "4711");
    let bytes = connection_request(&pending()).unwrap();
    assert!(contains_subslice(&bytes, b"Cookie: msts=4711\r\n"));
    assert_eq!(&bytes[bytes.len() - 8..], &[1, 0, 8, 0, 5, 0, 0, 0]);
    assert_eq!((bytes[0], bytes[1], bytes[3] as usize), (3, 0, bytes.len()));
    let mut long = pending();
    long.routing_token = Some(vec![b'x'; 300]);
    assert_eq!(connection_request(&long), Err(RedirectError::RequestTooLong));
}

#[test]
fn the_certificate_is_compared_with_the_packets() {
    assert_eq!(check_cert_pin(None, &[1]), CertPin::NotGiven);
    // "AQID" in UTF-16 is the bytes 1, 2, 3 in base64.
    let field = [b'A', 0, b'Q', 0, b'I', 0, b'D', 0];
    assert_eq!(check_cert_pin(Some(&field), &[1, 2, 3]), CertPin::Matches);
    assert_eq!(check_cert_pin(Some(&field), &[9, 9]), CertPin::Mismatch);
    assert_eq!(check_cert_pin(Some(&[b'!', 0]), &[1]), CertPin::Undecodable);
    assert_eq!(pin_of_decoded(Some(vec![0, 1, 2, 3]), &[1, 2]), CertPin::Matches);
    assert!(contains_subslice(&[1, 2, 3], &[2, 3]));
    assert!(!contains_subslice(&[1, 2, 3], &[3, 2]));
}

const CONFIRM: [u8; 19] = [3, 0, 0, 19, 14, 0xD0, 0, 0, 0, 0, 0, 2, 0, 8, 0, 4, 0, 0, 0];

#[test]
fn a_handover_goes_through_its_steps() {
    let mut h = RedirectHandshake::new(pending());
    let request = connection_request(&pending()).unwrap();
    assert_eq!(h.handle(RedirectEvent::Opened), Ok(RedirectAction::Send(request)));
    assert_eq!(h.handle(RedirectEvent::Sent), Ok(RedirectAction::ReadX224));
    assert_eq!(h.handle(RedirectEvent::Received(CONFIRM.to_vec())), Ok(RedirectAction::UpgradeTls));
    assert_eq!(h.handle(RedirectEvent::TlsReady(vec![1])), Ok(RedirectAction::ReadExact(8)));
    assert_eq!(h.cert_pin, Some(CertPin::NotGiven));
    let credentials = build_auth_request(&[1, 2, 3], &[b'j', 0, b'o', 0, 0, 0], &[], &[0xAA, 0xBB]);
    assert_eq!(
        h.handle(RedirectEvent::Received(vec![1, 0, 1, 0, 1, 0, 1, 0])),
        Ok(RedirectAction::Send(credentials))
    );
    assert_eq!(h.handle(RedirectEvent::Sent), Ok(RedirectAction::ReadExact(10)));
    assert_eq!(
        h.handle(RedirectEvent::Received(vec![1, 0, 4, 0, 1, 0, 0, 0, 0, 0])),
        Ok(RedirectAction::Finish { protocol: 4 })
    );
    assert_eq!(h.state, RedirectState::Done);
    assert_eq!(h.handle(RedirectEvent::Sent), Err(RedirectError::OutOfOrder));
}

#[test]
fn a_server_without_rdstls_ends_the_handover() {
    assert_eq!(selected_protocol(Some(NegoConfirm::Response(1))), Err(RedirectError::RdstlsNotSelected(1)));
    assert_eq!(selected_protocol(Some(NegoConfirm::Failure(5))), Err(RedirectError::NegotiationFailed(5)));
    assert_eq!(selected_protocol(None), Err(RedirectError::ConfirmUnreadable));
    let awaiting = || {
        let mut h = RedirectHandshake::new(pending());
        h.handle(RedirectEvent::Opened).unwrap();
        h.handle(RedirectEvent::Sent).unwrap();
        h
    };
    let mut failure = CONFIRM.to_vec();
    failure[11] = 3;
    failure[15] = 5;
    assert_eq!(
        awaiting().handle(RedirectEvent::Received(failure)),
        Err(RedirectError::NegotiationFailed(5))
    );
    assert_eq!(
        awaiting().handle(RedirectEvent::Received(vec![1])),
        Err(RedirectError::ConfirmUnreadable)
    );
}
