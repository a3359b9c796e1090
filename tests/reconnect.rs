use paircoded::reconnect::ReconnectManager;
use paircoded::supervisor::{after_control_loss, RunOutcome, Supervisor, SupervisorStep};

#[test]
fn control_backoff_doubles_to_cap() {
    let mut r = ReconnectManager::new();
    let delays: Vec<u64> = (0..9).map(|_| r.next_delay().unwrap()).collect();
    assert_eq!(delays, vec![1000, 2000, 4000, 8000, 16000, 32000, 60000, 60000, 60000]);
    assert_eq!(r.attempts(), 9);
    r.reset();
    assert_eq!(r.attempts(), 0);
    assert_eq!(r.next_delay(), Some(1000));
}

#[test]
fn backoff_never_overflows() {
    let mut r = ReconnectManager::with_limits(u64::MAX / 3, u64::MAX, None);
    for _ in 0..100 {
        assert!(r.next_delay().unwrap() >= u64::MAX / 3);
    }
    let mut r = ReconnectManager::new();
    r.current_attempt = u32::MAX;
    assert_eq!(r.next_delay(), Some(60000));
    assert_eq!(r.attempts(), u32::MAX);
}

#[test]
fn attempt_limit_gives_up() {
    let mut r = ReconnectManager::with_limits(1000, 30000, Some(2));
    assert_eq!(r.next_delay(), Some(1000));
    assert_eq!(r.next_delay(), Some(2000));
    assert_eq!(r.next_delay(), None);
    assert_eq!(r.attempts(), 2);
}

#[test]
fn default_is_control_policy() {
    let r = ReconnectManager::default();
    assert_eq!((r.base_delay_ms, r.max_delay_ms, r.current_attempt), (1000, 60000, 0));
}

#[test]
fn supervisor_reports_exit_codes() {
    let mut s = Supervisor::new();
    assert!(matches!(s.after_run(RunOutcome::Exited(true), true), SupervisorStep::Report(0)));
    assert!(matches!(s.after_run(RunOutcome::Exited(false), true), SupervisorStep::Report(1)));
    assert!(matches!(s.after_run(RunOutcome::Disconnected, false), SupervisorStep::Report(1)));
    assert_eq!(s.shutdown_code(), 0);
}

#[test]
fn data_disconnect_keeps_pty_and_backs_off() {
    let mut s = Supervisor::new();
    let mut waits = Vec::new();
    for _ in 0..7 {
        match s.after_run(RunOutcome::Disconnected, true) {
            SupervisorStep::Wait(d) => waits.push(d),
            SupervisorStep::Report(_) => panic!("terminal must stay open"),
        }
    }
    assert_eq!(waits, vec![1000, 2000, 4000, 8000, 16000, 30000, 30000]);
    s.connected();
    assert!(matches!(s.after_run(RunOutcome::ConnectFailed, true), SupervisorStep::Wait(1000)));
    assert!(matches!(s.after_run(RunOutcome::Failed, true), SupervisorStep::Wait(2000)));
}

#[test]
fn control_loss_without_reconnect_ends() {
    let mut r = ReconnectManager::new();
    assert_eq!(after_control_loss(false, &mut r), None);
    assert_eq!(r.attempts(), 0);
    assert_eq!(after_control_loss(true, &mut r), Some(1000));
    assert_eq!(after_control_loss(true, &mut r), Some(2000));
}
