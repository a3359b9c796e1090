use paircoded::bridge::{exit_code, snapshot_from, Bridge, BridgeAction};
use paircoded::protocol::{ClientMessage, RelayMessage, ResizeMessage, SnapshotRequest};

fn outputs(msgs: &[ClientMessage]) -> Vec<u8> {
    let mut all = Vec::new();
    for m in msgs {
        match m {
            ClientMessage::Output(d) => all.extend_from_slice(d),
            _ => panic!("expected Output"),
        }
    }
    all
}

fn snapshot(b: &mut Bridge, id: &str) -> paircoded::protocol::SnapshotMessage {
    match b.on_relay_message(RelayMessage::RequestSnapshot(SnapshotRequest { request_id: id.to_string() })) {
        BridgeAction::Send(mut v) => match v.remove(0) {
            ClientMessage::Snapshot(s) => s,
            _ => panic!("expected Snapshot"),
        },
        _ => panic!("expected Send"),
    }
}

#[test]
fn output_is_relayed_when_not_paused() {
    let mut b = Bridge::new(80, 24);
    match b.on_pty_output(b"abc".to_vec()) {
        Some(ClientMessage::Output(d)) => assert_eq!(d, b"abc"),
        _ => panic!("expected Output"),
    }
}

#[test]
fn pause_resume_keeps_order() {
    let mut b = Bridge::new(80, 24);
    let mut relayed = Vec::new();
    if let Some(m) = b.on_pty_output(b"before ".to_vec()) {
        relayed.push(m);
    }
    assert!(matches!(b.on_relay_message(RelayMessage::Pause), BridgeAction::Nothing));
    assert!(b.is_paused());
    for chunk in [&b"1\r\n"[..], b"2\r\n", b"3\r\n", b"4\r\n", b"5\r\n"] {
        assert!(b.on_pty_output(chunk.to_vec()).is_none());
    }
    match b.on_relay_message(RelayMessage::Resume) {
        BridgeAction::Send(v) => relayed.extend(v),
        _ => panic!("expected Send"),
    }
    assert!(!b.is_paused());
    if let Some(m) = b.on_pty_output(b"after".to_vec()) {
        relayed.push(m);
    }
    assert_eq!(outputs(&relayed), b"before 1\r\n2\r\n3\r\n4\r\n5\r\nafter".to_vec());
}

#[test]
fn resume_without_pause_sends_nothing() {
    let mut b = Bridge::new(80, 24);
    match b.on_relay_message(RelayMessage::Resume) {
        BridgeAction::Send(v) => assert!(v.is_empty()),
        _ => panic!("expected Send"),
    }
}

#[test]
fn input_goes_to_pty() {
    let mut b = Bridge::new(80, 24);
    match b.on_relay_message(RelayMessage::Input(b"pwd\n".to_vec())) {
        BridgeAction::WritePty(d) => assert_eq!(d, b"pwd\n"),
        _ => panic!("expected WritePty"),
    }
}

#[test]
fn resize_then_snapshot_reports_new_size() {
    let mut b = Bridge::new(80, 24);
    match b.on_relay_message(RelayMessage::Resize(ResizeMessage { cols: 132, rows: 40 })) {
        BridgeAction::ResizePty { cols, rows } => assert_eq!((cols, rows), (132, 40)),
        _ => panic!("expected ResizePty"),
    }
    let s = snapshot(&mut b, "r");
    assert_eq!((s.cols, s.rows), (132, 40));
}

#[test]
fn resize_to_zero_is_forwarded_verbatim() {
    let mut b = Bridge::new(80, 24);
    match b.on_relay_message(RelayMessage::Resize(ResizeMessage { cols: 0, rows: 0 })) {
        BridgeAction::ResizePty { cols, rows } => assert_eq!((cols, rows), (0, 0)),
        _ => panic!("expected ResizePty"),
    }
    assert_eq!(b.size(), (80, 24));
}

#[test]
fn snapshot_of_small_screen() {
    let mut b = Bridge::new(10, 3);
    b.on_pty_output(b"hello\r\n".to_vec());
    let s = snapshot(&mut b, "S1");
    assert_eq!(s.request_id, "S1");
    assert_eq!((s.cols, s.rows), (10, 3));
    assert!(String::from_utf8_lossy(&s.screen).contains("hello"));
    assert_eq!(s.cursor_x, 0);
    assert!(s.cursor_y >= 1);
}

#[test]
fn snapshot_keeps_pause_and_backlog() {
    let mut b = Bridge::new(20, 5);
    b.on_relay_message(RelayMessage::Pause);
    b.on_pty_output(b"held".to_vec());
    let s = snapshot(&mut b, "x");
    assert!(String::from_utf8_lossy(&s.screen).contains("held"));
    assert!(b.is_paused());
    match b.on_relay_message(RelayMessage::Resume) {
        BridgeAction::Send(v) => assert_eq!(outputs(&v), b"held".to_vec()),
        _ => panic!("expected Send"),
    }
}

#[test]
fn cursor_is_sent_as_column_then_row() {
    let s = snapshot_from("i".to_string(), vec![], 80, 24, (3, 7));
    assert_eq!((s.cursor_x, s.cursor_y), (7, 3));
}

#[test]
fn exit_codes() {
    assert_eq!(exit_code(true), 0);
    assert_eq!(exit_code(false), 1);
    let (m, c) = Bridge::exit_message(false);
    assert_eq!(c, 1);
    assert_eq!(m.encode(), b"21".to_vec());
}

#[test]
fn narrow_bridge_keeps_two_columns() {
    let b = Bridge::new(0, 0);
    assert_eq!(b.size(), (2, 1));
    let b = Bridge::new(1, 5);
    assert_eq!(b.size(), (2, 5));
}

#[test]
fn wide_characters_on_narrowest_screen() {
    let mut b = Bridge::new(1, 3);
    assert!(b.on_pty_output("漢字テスト\r\n한국어".as_bytes().to_vec()).is_some());
    match b.on_relay_message(RelayMessage::Resize(ResizeMessage { cols: 1, rows: 1 })) {
        BridgeAction::ResizePty { cols, rows } => assert_eq!((cols, rows), (1, 1)),
        _ => panic!("expected ResizePty"),
    }
    assert_eq!(b.size(), (2, 3));
    b.on_pty_output("漢字".as_bytes().to_vec());
    let s = snapshot(&mut b, "w");
    assert_eq!((s.cols, s.rows), (2, 3));
}

#[test]
fn resume_sends_one_frame_per_held_chunk() {
    let mut b = Bridge::new(80, 24);
    b.on_relay_message(RelayMessage::Pause);
    b.on_pty_output(b"a".to_vec());
    b.on_pty_output(b"bc".to_vec());
    match b.on_relay_message(RelayMessage::Resume) {
        BridgeAction::Send(v) => {
            assert_eq!(v.len(), 2);
            assert!(matches!(&v[0], ClientMessage::Output(d) if d == b"a"));
            assert!(matches!(&v[1], ClientMessage::Output(d) if d == b"bc"));
        }
        _ => panic!("expected Send"),
    }
}

#[test]
fn exit_step_reports_child_status() {
    assert!(Bridge::exit_step(None).is_none());
    match Bridge::exit_step(Some(true)) {
        Some((m, success)) => {
            assert!(success);
            assert_eq!(m.encode(), b"20".to_vec());
        }
        None => panic!("expected exit"),
    }
    match Bridge::exit_step(Some(false)) {
        Some((m, success)) => {
            assert!(!success);
            assert_eq!(m.encode(), b"21".to_vec());
        }
        None => panic!("expected exit"),
    }
}
