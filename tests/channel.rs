use paircoded::channel::{
    bearer_header, control_inbound, data_inbound, terminal_closed, terminal_started, ControlCommand,
    ControlEvent, ControlInbound, ControlOutbound, ControlSession, DataInbound, HandshakeInfo,
    InboundFrame,
};
use paircoded::protocol::{ControlResponse, RelayMessage};

fn info() -> HandshakeInfo {
    HandshakeInfo {
        version: "0.1.0".to_string(),
        hostname: "host".to_string(),
        username: "alice".to_string(),
        working_dir: "/w".to_string(),
        relay_token: "tok".to_string(),
    }
}

#[test]
fn control_text_request_becomes_event() {
    let frame = InboundFrame::Text(
        r#"{"type":"start_terminal","name":"main","cols":80,"rows":24,"requestId":"R"}"#.to_string(),
    );
    match control_inbound(frame) {
        ControlInbound::Event(ControlEvent::StartTerminal { name, cols, rows, request_id }) => {
            assert_eq!((name.as_str(), cols, rows, request_id.as_str()), ("main", 80, 24, "R"));
        }
        _ => panic!("expected StartTerminal"),
    }
    let frame = InboundFrame::Binary(br#"{"type":"close_terminal","name":"main"}"#.to_vec());
    assert!(matches!(
        control_inbound(frame),
        ControlInbound::Event(ControlEvent::CloseTerminal { signal: None, .. })
    ));
}

#[test]
fn control_parse_failure_keeps_link() {
    assert!(matches!(control_inbound(InboundFrame::Text("garbage".to_string())), ControlInbound::Skip));
    assert!(matches!(control_inbound(InboundFrame::Ping), ControlInbound::Skip));
}

#[test]
fn control_close_and_failure_disconnect() {
    match control_inbound(InboundFrame::Close(Some(1000))) {
        ControlInbound::Finish(ControlEvent::Disconnected { close_code, clean }) => {
            assert_eq!(close_code, Some(1000));
            assert!(clean);
        }
        _ => panic!("expected Disconnected"),
    }
    match control_inbound(InboundFrame::Failed) {
        ControlInbound::Finish(ControlEvent::Disconnected { close_code, clean }) => {
            assert_eq!(close_code, None);
            assert!(!clean);
        }
        _ => panic!("expected Disconnected"),
    }
}

#[test]
fn data_parse_failures_keep_link() {
    assert!(matches!(data_inbound(InboundFrame::Binary(vec![])), DataInbound::Skip));
    assert!(matches!(data_inbound(InboundFrame::Binary(b"7x".to_vec())), DataInbound::Skip));
    assert!(matches!(data_inbound(InboundFrame::Binary(b"4{}".to_vec())), DataInbound::Skip));
    assert!(matches!(data_inbound(InboundFrame::Pong), DataInbound::Skip));
}

#[test]
fn data_frames_delivered_and_close_finishes() {
    match data_inbound(InboundFrame::Binary(b"0ls\n".to_vec())) {
        DataInbound::Deliver(RelayMessage::Input(d)) => assert_eq!(d, b"ls\n"),
        _ => panic!("expected Input"),
    }
    assert!(matches!(
        data_inbound(InboundFrame::Text("1{\"cols\":0,\"rows\":0}".to_string())),
        DataInbound::Deliver(RelayMessage::Resize(_))
    ));
    assert!(matches!(data_inbound(InboundFrame::Close(None)), DataInbound::Finish));
    assert!(matches!(data_inbound(InboundFrame::Ended), DataInbound::Finish));
}

#[test]
fn handshake_is_first_and_only_once() {
    let mut s = ControlSession::new();
    match s.greet(&info()) {
        Some(ControlResponse::ControlHandshake { version, hostname, username, working_dir }) => {
            assert_eq!((version.as_str(), hostname.as_str(), username.as_str(), working_dir.as_str()), ("0.1.0", "host", "alice", "/w"));
        }
        _ => panic!("expected handshake"),
    }
    assert!(s.greet(&info()).is_none());
    // a new link starts a new session, which greets again
    let mut next = ControlSession::new();
    assert!(next.greet(&info()).is_some());
}

#[test]
fn commands_become_text_frames() {
    let mut s = ControlSession::new();
    s.greet(&info());
    match s.on_command(Some(terminal_closed("main".to_string(), 0))) {
        ControlOutbound::Send(t) => assert_eq!(t, r#"{"type":"terminal_closed","name":"main","exitCode":0}"#),
        _ => panic!("expected Send"),
    }
    match s.on_command(Some(terminal_started("m".to_string(), "R".to_string(), Err("no pty".to_string())))) {
        ControlOutbound::Send(t) => assert_eq!(
            t,
            r#"{"type":"terminal_started","name":"m","requestId":"R","success":false,"error":"no pty"}"#
        ),
        _ => panic!("expected Send"),
    }
    assert!(matches!(s.on_command(Some(ControlCommand::Shutdown)), ControlOutbound::Close));
    assert!(matches!(s.on_command(None), ControlOutbound::Stop));
}

#[test]
fn start_response_carries_request_id() {
    match terminal_started("main".to_string(), "R1".to_string(), Ok("4242".to_string())) {
        ControlCommand::TerminalStarted { name, request_id, success, error } => {
            assert_eq!((name.as_str(), request_id.as_str(), success), ("4242", "R1", true));
            assert!(error.is_none());
        }
        _ => panic!("expected TerminalStarted"),
    }
    match terminal_started("main".to_string(), "R2".to_string(), Err("spawn failed".to_string())) {
        ControlCommand::TerminalStarted { name, request_id, success, error } => {
            assert_eq!((name.as_str(), request_id.as_str(), success), ("main", "R2", false));
            assert_eq!(error.as_deref(), Some("spawn failed"));
        }
        _ => panic!("expected TerminalStarted"),
    }
}

#[test]
fn bearer_header_value() {
    assert_eq!(bearer_header("abc"), "Bearer abc");
}
