use paircoded::manager::{terminal_name, CloseError, StartError, TerminalManager};

fn manager() -> TerminalManager<u32> {
    TerminalManager::new(
        "wss://relay.example.com/ws/control/alice-12345678".to_string(),
        "/bin/bash".to_string(),
        vec![],
        "/home/alice".to_string(),
        false,
    )
}

#[test]
fn names_are_decimal_pids() {
    assert_eq!(terminal_name(0), "0");
    assert_eq!(terminal_name(4242), "4242");
    assert_eq!(terminal_name(u32::MAX), "4294967295");
}

#[test]
fn live_count_follows_starts_closes_and_exits() {
    let mut m = manager();
    assert_eq!(m.start_terminal(100, 1).unwrap(), "100");
    assert_eq!(m.start_terminal(200, 2).unwrap(), "200");
    assert_eq!(m.start_terminal(300, 3).unwrap(), "300");
    assert_eq!(m.len(), 3);
    assert_eq!(m.close_terminal("200"), Ok(2));
    assert_eq!(m.len(), 2);
    m.remove_terminal("100");
    assert_eq!(m.len(), 1);
    assert!(m.contains("300"));
    assert!(!m.contains("100"));
}

#[test]
fn duplicate_name_is_rejected() {
    let mut m = manager();
    m.start_terminal(7, 1).unwrap();
    match m.start_terminal(7, 9) {
        Err((e, entry)) => {
            assert_eq!(e, StartError::AlreadyExists);
            assert_eq!(entry, 9);
        }
        Ok(_) => panic!("expected AlreadyExists"),
    }
    assert_eq!(m.len(), 1);
}

#[test]
fn close_of_absent_name_is_not_found() {
    let mut m = manager();
    m.start_terminal(1, 1).unwrap();
    assert_eq!(m.close_terminal("2"), Err(CloseError::NotFound));
    assert_eq!(m.len(), 1);
}

#[test]
fn remove_of_absent_name_is_a_no_op() {
    let mut m = manager();
    m.start_terminal(1, 1).unwrap();
    m.remove_terminal("1");
    m.remove_terminal("1");
    m.remove_terminal("nope");
    assert_eq!(m.len(), 0);
}

#[test]
fn name_reusable_after_close() {
    let mut m = manager();
    m.start_terminal(5, 1).unwrap();
    m.close_terminal("5").unwrap();
    assert_eq!(m.start_terminal(5, 2).unwrap(), "5");
}

#[test]
fn shutdown_all_drains() {
    let mut m = manager();
    m.start_terminal(1, 10).unwrap();
    m.start_terminal(2, 20).unwrap();
    let mut entries = m.shutdown_all();
    entries.sort();
    assert_eq!(entries, vec![10, 20]);
    assert_eq!(m.len(), 0);
}

#[test]
fn data_url_replaces_path() {
    let m = manager();
    assert_eq!(
        m.data_url("4242").unwrap(),
        "wss://relay.example.com/ws/terminal-data/alice-12345678/4242"
    );
    let local = TerminalManager::<u32>::new("ws://127.0.0.1:8080/ws/control/s".to_string(), "sh".to_string(), vec![], "/".to_string(), false);
    assert_eq!(local.data_url("9").unwrap(), "ws://127.0.0.1:8080/ws/terminal-data/s/9");
    let bad = TerminalManager::<u32>::new("not a url".to_string(), "sh".to_string(), vec![], "/".to_string(), false);
    assert!(bad.data_url("9").is_none());
}

#[test]
fn handshake_carries_shell_and_size() {
    let m = manager();
    let h = m.handshake(80, 24);
    assert_eq!(h.version, "0.1.0");
    assert_eq!(h.shell, "/bin/bash");
    assert_eq!((h.cols, h.rows), (Some(80), Some(24)));
}
