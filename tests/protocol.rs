use paircoded::protocol::{
    create_input_message, create_resize_message, ClientMessage, ControlMessage, ControlResponse,
    HandshakeMessage, ParseError, RelayMessage, ResizeMessage, SnapshotMessage, SnapshotRequest,
};

#[test]
fn test_parse_input() {
    let data = b"0hello";
    let msg = RelayMessage::parse(data).unwrap();
    match msg {
        RelayMessage::Input(d) => assert_eq!(d, b"hello"),
        _ => panic!("expected Input"),
    }
}

#[test]
fn test_parse_resize() {
    let data = b"1{\"cols\":80,\"rows\":24}";
    let msg = RelayMessage::parse(data).unwrap();
    match msg {
        RelayMessage::Resize(r) => {
            assert_eq!(r.cols, 80);
            assert_eq!(r.rows, 24);
        }
        _ => panic!("expected Resize"),
    }
}

#[test]
fn test_encode_output() {
    let msg = ClientMessage::Output(b"world".to_vec());
    let encoded = msg.encode();
    assert_eq!(encoded[0], b'0');
    assert_eq!(&encoded[1..], b"world");
}

#[test]
fn test_encode_handshake() {
    let msg = ClientMessage::Handshake(HandshakeMessage {
        version: "0.1.0".to_string(),
        shell: "/bin/bash".to_string(),
        cols: Some(80),
        rows: Some(24),
    });
    let encoded = msg.encode();
    assert_eq!(encoded[0], b'1');
    let json: serde_json::Value = serde_json::from_slice(&encoded[1..]).unwrap();
    assert_eq!(json["version"], "0.1.0");
}

#[test]
fn test_parse_control_start_terminal() {
    let json = r#"{"type":"start_terminal","name":"main","cols":80,"rows":24,"requestId":"abc123"}"#;
    let msg = ControlMessage::parse_str(json).unwrap();
    match msg {
        ControlMessage::StartTerminal { name, cols, rows, request_id } => {
            assert_eq!(name, "main");
            assert_eq!(cols, 80);
            assert_eq!(rows, 24);
            assert_eq!(request_id, "abc123");
        }
        _ => panic!("expected StartTerminal"),
    }
}

#[test]
fn test_parse_control_close_terminal() {
    let json = r#"{"type":"close_terminal","name":"main","signal":15}"#;
    let msg = ControlMessage::parse_str(json).unwrap();
    match msg {
        ControlMessage::CloseTerminal { name, signal } => {
            assert_eq!(name, "main");
            assert_eq!(signal, Some(15));
        }
        _ => panic!("expected CloseTerminal"),
    }
}

#[test]
fn test_encode_control_handshake() {
    let msg = ControlResponse::ControlHandshake {
        version: "1.0".to_string(),
        hostname: "myhost".to_string(),
        username: "testuser".to_string(),
        working_dir: "/home/testuser".to_string(),
    };
    let encoded = msg.encode().unwrap();
    let json: serde_json::Value = serde_json::from_str(&encoded).unwrap();
    assert_eq!(json["type"], "control_handshake");
    assert_eq!(json["version"], "1.0");
    assert_eq!(json["hostname"], "myhost");
    assert_eq!(json["username"], "testuser");
    assert_eq!(json["workingDir"], "/home/testuser");
}

#[test]
fn test_encode_terminal_started() {
    let msg = ControlResponse::TerminalStarted {
        name: "main".to_string(),
        request_id: "abc123".to_string(),
        success: true,
        error: None,
    };
    let encoded = msg.encode().unwrap();
    let json: serde_json::Value = serde_json::from_str(&encoded).unwrap();
    assert_eq!(json["type"], "terminal_started");
    assert_eq!(json["name"], "main");
    assert_eq!(json["requestId"], "abc123");
    assert_eq!(json["success"], true);
    assert!(json.get("error").is_none());
}

#[test]
fn test_encode_terminal_closed() {
    let msg = ControlResponse::TerminalClosed { name: "main".to_string(), exit_code: 0 };
    let encoded = msg.encode().unwrap();
    let json: serde_json::Value = serde_json::from_str(&encoded).unwrap();
    assert_eq!(json["type"], "terminal_closed");
    assert_eq!(json["name"], "main");
    assert_eq!(json["exitCode"], 0);
}

#[test]
fn test_parse_request_snapshot() {
    let data = b"4{\"requestId\":\"abc123\"}";
    let msg = RelayMessage::parse(data).unwrap();
    match msg {
        RelayMessage::RequestSnapshot(req) => {
            assert_eq!(req.request_id, "abc123");
        }
        _ => panic!("expected RequestSnapshot"),
    }
}

#[test]
fn test_encode_snapshot() {
    let msg = ClientMessage::Snapshot(SnapshotMessage {
        request_id: "abc123".to_string(),
        screen: b"hello\x1b[31mworld".to_vec(),
        cols: 80,
        rows: 24,
        cursor_x: 5,
        cursor_y: 0,
    });
    let encoded = msg.encode();
    assert_eq!(encoded[0], b'3');
    let json: serde_json::Value = serde_json::from_slice(&encoded[1..]).unwrap();
    assert_eq!(json["requestId"], "abc123");
    assert_eq!(json["cols"], 80);
    assert_eq!(json["rows"], 24);
    assert_eq!(json["cursorX"], 5);
    assert_eq!(json["cursorY"], 0);
    // Screen is base64 encoded
    assert!(json["screen"].is_string());
}

// ---------------------------------------------------------------------------

#[test]
fn empty_data_frame_is_a_parse_error() {
    assert_eq!(RelayMessage::parse(b"").unwrap_err(), ParseError::Empty);
}

#[test]
fn unknown_tag_is_a_parse_error() {
    assert_eq!(RelayMessage::parse(b"9abc").unwrap_err(), ParseError::UnknownTag(b'9'));
    assert_eq!(RelayMessage::parse(b"5").unwrap_err(), ParseError::UnknownTag(b'5'));
}

#[test]
fn snapshot_request_without_id_is_a_parse_error() {
    assert_eq!(RelayMessage::parse(b"4{}").unwrap_err(), ParseError::BadPayload);
    assert_eq!(RelayMessage::parse(b"4{\"id\":\"x\"}").unwrap_err(), ParseError::BadPayload);
    assert_eq!(RelayMessage::parse(b"4").unwrap_err(), ParseError::BadPayload);
}

#[test]
fn bad_resize_payloads_are_parse_errors() {
    assert_eq!(RelayMessage::parse(b"1{\"cols\":80}").unwrap_err(), ParseError::BadPayload);
    assert_eq!(RelayMessage::parse(b"1{\"cols\":70000,\"rows\":24}").unwrap_err(), ParseError::BadPayload);
    assert_eq!(RelayMessage::parse(b"1{\"cols\":080,\"rows\":24}").unwrap_err(), ParseError::BadPayload);
    assert_eq!(RelayMessage::parse(b"1{\"cols\":80,\"rows\":24}x").unwrap_err(), ParseError::BadPayload);
    assert_eq!(RelayMessage::parse(b"1not json").unwrap_err(), ParseError::BadPayload);
}

#[test]
fn resize_to_zero_parses_verbatim() {
    match RelayMessage::parse(b"1{\"cols\":0,\"rows\":0}").unwrap() {
        RelayMessage::Resize(r) => assert_eq!(r, ResizeMessage { cols: 0, rows: 0 }),
        _ => panic!("expected Resize"),
    }
    match RelayMessage::parse(b"1{\"cols\":65535,\"rows\":1}").unwrap() {
        RelayMessage::Resize(r) => assert_eq!(r, ResizeMessage { cols: 65535, rows: 1 }),
        _ => panic!("expected Resize"),
    }
}

#[test]
fn pause_and_resume_ignore_payload() {
    assert!(matches!(RelayMessage::parse(b"2").unwrap(), RelayMessage::Pause));
    assert!(matches!(RelayMessage::parse(b"3").unwrap(), RelayMessage::Resume));
    assert!(matches!(RelayMessage::parse(b"2xyz").unwrap(), RelayMessage::Pause));
}

#[test]
fn empty_input_frame_is_input() {
    match RelayMessage::parse(b"0").unwrap() {
        RelayMessage::Input(d) => assert!(d.is_empty()),
        _ => panic!("expected Input"),
    }
}

#[test]
fn relay_frames_round_trip() {
    let frames: Vec<&[u8]> = vec![
        b"0pwd\n",
        b"1{\"cols\":132,\"rows\":40}",
        b"2",
        b"3",
        b"4{\"requestId\":\"S1\"}",
        b"4{\"requestId\":\"a\\\"b\\\\c\\n\\u0001\"}",
    ];
    for f in frames {
        let m = RelayMessage::parse(f).unwrap();
        assert_eq!(m.encode(), f.to_vec());
    }
}

#[test]
fn relay_messages_round_trip() {
    let msgs = vec![
        RelayMessage::Input(vec![0, 1, 255]),
        RelayMessage::Resize(ResizeMessage { cols: 0, rows: 7 }),
        RelayMessage::RequestSnapshot(SnapshotRequest { request_id: "é\u{1}\"ü".to_string() }),
    ];
    for m in msgs {
        let bytes = m.encode();
        let back = RelayMessage::parse(&bytes).unwrap();
        assert_eq!(back.encode(), bytes);
    }
}

#[test]
fn string_escapes_match_serde_json() {
    let id = "quote\" back\\ nl\n tab\t ctl\u{1f} del\u{7f} é";
    let bytes = RelayMessage::RequestSnapshot(SnapshotRequest { request_id: id.to_string() }).encode();
    let expected = format!("4{{\"requestId\":{}}}", serde_json::to_string(id).unwrap());
    assert_eq!(bytes, expected.into_bytes());
}

#[test]
fn input_message_builders() {
    assert_eq!(create_input_message("pwd\n"), b"0pwd\n".to_vec());
    assert_eq!(create_resize_message(80, 20), b"1{\"cols\":80,\"rows\":20}".to_vec());
}

#[test]
fn exit_frame_encodes_code() {
    assert_eq!(ClientMessage::Exit(0).encode(), b"20".to_vec());
    assert_eq!(ClientMessage::Exit(1).encode(), b"21".to_vec());
    assert_eq!(ClientMessage::Exit(-2147483648).encode(), b"2-2147483648".to_vec());
}

#[test]
fn handshake_leaves_out_absent_sizes() {
    let msg = ClientMessage::Handshake(HandshakeMessage {
        version: "0.1.0".to_string(),
        shell: "/bin/sh".to_string(),
        cols: None,
        rows: Some(24),
    });
    assert_eq!(msg.encode(), b"1{\"version\":\"0.1.0\",\"shell\":\"/bin/sh\",\"rows\":24}".to_vec());
}

#[test]
fn snapshot_screen_is_base64() {
    let msg = ClientMessage::Snapshot(SnapshotMessage {
        request_id: "r".to_string(),
        screen: b"hi".to_vec(),
        cols: 1,
        rows: 2,
        cursor_x: 3,
        cursor_y: 4,
    });
    assert_eq!(
        msg.encode(),
        b"3{\"requestId\":\"r\",\"screen\":\"aGk=\",\"cols\":1,\"rows\":2,\"cursorX\":3,\"cursorY\":4}".to_vec()
    );
}

#[test]
fn control_messages_round_trip() {
    let texts = [
        r#"{"type":"start_terminal","name":"main","cols":80,"rows":24,"requestId":"abc123"}"#,
        r#"{"type":"close_terminal","name":"main","signal":15}"#,
        r#"{"type":"close_terminal","name":"main","signal":-9}"#,
        r#"{"type":"close_terminal","name":"main"}"#,
    ];
    for t in texts {
        let m = ControlMessage::parse_str(t).unwrap();
        assert_eq!(m.encode(), t.as_bytes().to_vec());
    }
}

#[test]
fn close_without_signal_defaults_to_none() {
    match ControlMessage::parse(br#"{"type":"close_terminal","name":"7"}"#).unwrap() {
        ControlMessage::CloseTerminal { name, signal } => {
            assert_eq!(name, "7");
            assert_eq!(signal, None);
        }
        _ => panic!("expected CloseTerminal"),
    }
}

#[test]
fn malformed_control_frames_are_rejected() {
    assert!(ControlMessage::parse_str("").is_err());
    assert!(ControlMessage::parse_str("{}").is_err());
    assert!(ControlMessage::parse_str(r#"{"type":"reboot","name":"x"}"#).is_err());
    assert!(ControlMessage::parse_str(r#"{"type":"close_terminal","name":"x","extra":1}"#).is_err());
    assert!(ControlMessage::parse_str(r#"{"type":"start_terminal","name":"m","cols":80,"rows":24}"#).is_err());
}

#[test]
fn terminal_started_failure_carries_error() {
    let msg = ControlResponse::TerminalStarted {
        name: "x".to_string(),
        request_id: "r".to_string(),
        success: false,
        error: Some("boom".to_string()),
    };
    assert_eq!(
        msg.encode().unwrap(),
        r#"{"type":"terminal_started","name":"x","requestId":"r","success":false,"error":"boom"}"#
    );
}

#[test]
fn resize_in_any_member_order_and_spacing() {
    for f in [
        &b"1{\"rows\":24,\"cols\":80}"[..],
        b"1{ \"cols\": 80, \"rows\": 24 }",
        b"1\n{\"rows\" :\t24 ,\r\n \"cols\":80}  ",
    ] {
        match RelayMessage::parse(f).unwrap() {
            RelayMessage::Resize(r) => assert_eq!(r, ResizeMessage { cols: 80, rows: 24 }),
            _ => panic!("expected Resize"),
        }
    }
}

#[test]
fn snapshot_request_with_escapes() {
    match RelayMessage::parse(b"4{ \"requestId\" : \"\\u0061b\\/c\\u00e9\" }").unwrap() {
        RelayMessage::RequestSnapshot(q) => assert_eq!(q.request_id, "ab/c\u{e9}"),
        _ => panic!("expected RequestSnapshot"),
    }
    assert_eq!(RelayMessage::parse(b"4{\"requestId\":\"\\ud800\"}").unwrap_err(), ParseError::BadPayload);
}

#[test]
fn json_payloads_that_are_rejected() {
    let bad: [&[u8]; 7] = [
        b"1{\"cols\":80,\"rows\":24,\"extra\":1}",
        b"1{\"cols\":80,\"cols\":81,\"rows\":24}",
        b"1{\"cols\":80.5,\"rows\":24}",
        b"1{\"cols\":-1,\"rows\":24}",
        b"1{\"cols\":\"80\",\"rows\":24}",
        b"1{\"cols\":80,\"rows\":24",
        b"1{\"cols\":12345678901,\"rows\":24}",
    ];
    for f in bad {
        assert_eq!(RelayMessage::parse(f).unwrap_err(), ParseError::BadPayload);
    }
}

#[test]
fn control_requests_in_any_json_form() {
    let start = r#" { "requestId": "abc123", "rows": 24, "cols": 80, "name": "main", "type": "start_terminal" } "#;
    match ControlMessage::parse_str(start).unwrap() {
        ControlMessage::StartTerminal { name, cols, rows, request_id } => {
            assert_eq!((name.as_str(), cols, rows, request_id.as_str()), ("main", 80, 24, "abc123"));
        }
        _ => panic!("expected StartTerminal"),
    }
    match ControlMessage::parse_str(r#"{"name":"main","type":"close_terminal","signal":null}"#).unwrap() {
        ControlMessage::CloseTerminal { name, signal } => {
            assert_eq!(name, "main");
            assert_eq!(signal, None);
        }
        _ => panic!("expected CloseTerminal"),
    }
    match ControlMessage::parse_str("{\n \"signal\": 9,\n \"type\": \"close_terminal\",\n \"name\": \"x\"\n}").unwrap() {
        ControlMessage::CloseTerminal { name, signal } => {
            assert_eq!(name, "x");
            assert_eq!(signal, Some(9));
        }
        _ => panic!("expected CloseTerminal"),
    }
    assert!(ControlMessage::parse_str(r#"{"type":"start_terminal","name":"m","cols":80,"rows":24,"requestId":"r","x":1}"#).is_err());
    assert!(ControlMessage::parse_str(r#"{"type":"close_terminal","name":"m","signal":"9"}"#).is_err());
}
