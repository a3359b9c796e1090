use paircoded::auth::{poll_budget, poll_interval, poll_step, token_still_valid, LoginError, PollStep};
use paircoded::config::{
    child_command, choose_shell, relay_endpoints, session_name, term_override, token_url, Args,
    Config, ConfigError, HostFacts,
};

fn host() -> HostFacts {
    HostFacts {
        relay_base: None,
        working_dir: "/home/testuser/project".to_string(),
        env_shell: None,
        hostname: Some("myhost".to_string()),
        random_digits: 12345678,
    }
}

#[test]
fn test_session_name_format() {
    let args = Args {
        path: None,
        login: false,
        session: None,
        shell: None,
        command: None,
        verbose: false,
        no_reconnect: false,
    };
    let config = Config::from_args(args, "testuser", host()).unwrap();
    assert!(config.session_name.starts_with("testuser-"));
    assert_eq!(config.session_name.len(), "testuser-".len() + 8);
}

#[test]
fn test_custom_session_name() {
    let args = Args {
        path: None,
        login: false,
        session: Some("my-custom-session".to_string()),
        shell: None,
        command: None,
        verbose: false,
        no_reconnect: false,
    };
    let config = Config::from_args(args, "testuser", host()).unwrap();
    assert_eq!(config.session_name, "my-custom-session");
}

#[test]
fn test_default_relay_url() {
    let args = Args {
        path: None,
        login: false,
        session: Some("test".to_string()),
        shell: None,
        command: None,
        verbose: false,
        no_reconnect: false,
    };
    let config = Config::from_args(args, "user", host()).unwrap();
    assert_eq!(url::Url::parse(&config.relay_url).unwrap().scheme(), "wss");
    assert!(config.relay_url.as_str().contains("retrievable-timidly-drusilla"));
}

#[test]
fn test_custom_shell() {
    let args = Args {
        path: None,
        login: false,
        session: None,
        shell: Some("/bin/zsh".to_string()),
        command: None,
        verbose: false,
        no_reconnect: false,
    };
    let config = Config::from_args(args, "user", host()).unwrap();
    assert_eq!(config.shell, "/bin/zsh");
}

// ---------------------------------------------------------------------------

#[test]
fn endpoints_follow_relay_scheme() {
    let e = relay_endpoints("https://relay.example.com", "s1").unwrap();
    assert_eq!(e.control_url, "wss://relay.example.com/ws/control/s1");
    assert_eq!(e.dashboard_url, "https://relay.example.com");
    let e = relay_endpoints("http://localhost:8080", "s2").unwrap();
    assert_eq!(e.control_url, "ws://localhost:8080/ws/control/s2");
    assert_eq!(e.dashboard_url, "http://localhost:8080");
    let e = relay_endpoints("ws://127.0.0.1:9000/", "x").unwrap();
    assert_eq!(e.control_url, "ws://127.0.0.1:9000/ws/control/x");
}

#[test]
fn endpoint_errors() {
    assert_eq!(relay_endpoints("not a url", "s").unwrap_err(), ConfigError::InvalidUrl);
    assert_eq!(relay_endpoints("ftp://example.com", "s").unwrap_err(), ConfigError::UnsupportedScheme);
    assert_eq!(relay_endpoints("mailto:someone@example.com", "s").unwrap_err(), ConfigError::UnsupportedScheme);
}

#[test]
fn config_flags_and_fallbacks() {
    let args = Args {
        path: None,
        login: true,
        session: None,
        shell: None,
        command: Some("ls".to_string()),
        verbose: true,
        no_reconnect: true,
    };
    let facts = HostFacts {
        relay_base: Some("http://localhost:3000".to_string()),
        working_dir: "/w".to_string(),
        env_shell: Some("/bin/fish".to_string()),
        hostname: None,
        random_digits: 87654321,
    };
    let c = Config::from_args(args, "bob", facts).unwrap();
    assert_eq!(c.session_name, "bob-87654321");
    assert_eq!(c.relay_url, "ws://localhost:3000/ws/control/bob-87654321");
    assert_eq!(c.dashboard_url, "http://localhost:3000");
    assert_eq!(c.shell, "/bin/fish");
    assert_eq!(c.hostname, "unknown");
    assert!(c.force_login && c.verbose && !c.reconnect);
    let (prog, argv) = c.spawn_command();
    assert_eq!(prog, "/bin/fish");
    assert_eq!(argv, vec!["-c".to_string(), "ls".to_string()]);
}

#[test]
fn small_helpers() {
    assert_eq!(session_name(None, "u", 10000000), "u-10000000");
    assert_eq!(choose_shell(None, None), "/bin/sh");
    assert_eq!(term_override(false), Some("xterm-256color"));
    assert_eq!(term_override(true), None);
    let (p, a) = child_command("sh".to_string(), vec![], Some(("bwrap".to_string(), vec!["sh".to_string()])));
    assert_eq!((p.as_str(), a), ("bwrap", vec!["sh".to_string()]));
}

#[test]
fn token_url_uses_http_scheme() {
    assert_eq!(
        token_url("wss://relay.example.com/ws/control/s").unwrap(),
        "https://relay.example.com/api/auth/token"
    );
    assert_eq!(token_url("ws://localhost:8080/ws/control/s").unwrap(), "http://localhost:8080/api/auth/token");
    assert!(token_url("nope").is_none());
}

#[test]
fn device_flow_poll_steps() {
    assert!(matches!(poll_step(Some("authorization_pending"), false), PollStep::Retry));
    assert!(matches!(poll_step(Some("slow_down"), false), PollStep::SlowDown));
    assert!(matches!(poll_step(Some("expired_token"), false), PollStep::Fail(LoginError::Expired)));
    assert!(matches!(poll_step(Some("access_denied"), false), PollStep::Fail(LoginError::Denied)));
    match poll_step(Some("weird"), false) {
        PollStep::Fail(LoginError::Other(e)) => assert_eq!(e, "weird"),
        _ => panic!("expected Other"),
    }
    assert!(matches!(poll_step(None, true), PollStep::Done));
    assert!(matches!(poll_step(None, false), PollStep::Retry));
    assert_eq!(poll_interval(1), 5);
    assert_eq!(poll_interval(7), 7);
    assert_eq!(poll_budget(900, 0), 180);
    assert_eq!(poll_budget(900, 10), 90);
    assert_eq!(poll_budget(u64::MAX, 5), u32::MAX);
    assert!(token_still_valid(200));
    assert!(token_still_valid(500));
    assert!(!token_still_valid(401));
}
