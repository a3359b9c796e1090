//! Settings of an agent run, derived from the command line and from facts
//! about the host that the caller gathers (environment, directories, host
//! name, a random number).
use vstd::prelude::*;
use vstd::string::StringExecFns;
use crate::manager::{decimal, terminal_name};
use crate::protocol::{opt_view, text_equals};

verus! {

/// The relay used when none is configured.
pub const DEFAULT_RELAY_URL: &'static str = "https://retrievable-timidly-drusilla.ngrok-free.app";

/// The value given to `TERM` when the environment has none.
pub const DEFAULT_TERM: &'static str = "xterm-256color";

/// The smallest eight-digit number, for default session names.
pub const MIN_SESSION_DIGITS: u32 = 10000000;

/// The largest eight-digit number, for default session names.
pub const MAX_SESSION_DIGITS: u32 = 99999999;

/// The shell used when neither the command line nor `SHELL` names one.
pub const DEFAULT_SHELL: &'static str = "/bin/sh";

/// The command line, as parsed.
#[derive(Clone, Debug)]
pub struct Args {
    /// Working directory for the terminals.
    pub path: Option<String>,
    /// Authenticate again even with a saved token.
    pub login: bool,
    /// Session name.
    pub session: Option<String>,
    /// Shell to spawn.
    pub shell: Option<String>,
    /// Command to run with `shell -c` instead of an interactive shell.
    pub command: Option<String>,
    /// Verbose logging.
    pub verbose: bool,
    /// Do not reconnect after the control channel drops.
    pub no_reconnect: bool,
}

/// Facts about the host that the settings depend on.
#[derive(Clone, Debug)]
pub struct HostFacts {
    /// The relay's base URL from the environment, if set.
    pub relay_base: Option<String>,
    /// The resolved working directory.
    pub working_dir: String,
    /// `SHELL` from the environment, if set.
    pub env_shell: Option<String>,
    /// The host's name, if it could be read.
    pub hostname: Option<String>,
    /// Eight random digits for a default session name, from
    /// `MIN_SESSION_DIGITS` to `MAX_SESSION_DIGITS`.
    pub random_digits: u32,
}

/// The settings of a run.
#[derive(Clone, Debug)]
pub struct Config {
    /// The control channel's URL.
    pub relay_url: String,
    pub session_name: String,
    /// Where a browser pairs with the session.
    pub dashboard_url: String,
    pub working_dir: String,
    pub shell: String,
    pub command: Option<String>,
    pub verbose: bool,
    pub reconnect: bool,
    pub force_login: bool,
    pub hostname: String,
    pub username: String,
}

/// Saved authentication.
#[derive(Clone, Debug)]
pub struct AuthData {
    pub access_token: String,
    pub token_type: String,
    pub scope: String,
    pub user: GitHubUser,
}

/// The authenticated account.
#[derive(Clone, Debug)]
pub struct GitHubUser {
    pub id: u64,
    pub login: String,
    pub name: Option<String>,
    pub avatar_url: String,
}

/// Why the settings could not be derived.
#[derive(Clone, Copy, Debug, PartialEq, Eq, Structural)]
pub enum ConfigError {
    /// The relay URL does not parse.
    InvalidUrl,
    /// The relay URL's scheme is not http, https, ws or wss.
    UnsupportedScheme,
    /// The relay URL has no host.
    NoHost,
}

/// The parts of a URL that the settings use.
#[derive(Clone, Debug)]
pub struct UrlParts {
    pub scheme: String,
    pub host: Option<String>,
    pub port: Option<u16>,
}

/// The scheme, host and explicit port of a URL, if it parses.
pub uninterp spec fn url_parts(url: Seq<char>) -> Option<(Seq<char>, Option<Seq<char>>, Option<u16>)>;

/// The text of a URL after parsing, if it parses.
pub uninterp spec fn url_normalized(url: Seq<char>) -> Option<Seq<char>>;

/// The URL with its scheme and path replaced, if it parses and takes the scheme.
pub uninterp spec fn url_rebased(url: Seq<char>, scheme: Seq<char>, path: Seq<char>) -> Option<Seq<char>>;

pub open spec fn parts_view(p: UrlParts) -> (Seq<char>, Option<Seq<char>>, Option<u16>) {
    (p.scheme@, opt_view(p.host), p.port)
}

/// Relies on `url::Url::parse` with `Url::scheme`, `Url::host_str` and
/// `Url::port`: these parts depend on the URL text alone.
#[verifier::external_body]
fn parse_url_parts(url: &str) -> (r: Option<UrlParts>)
    ensures
        r matches Some(p) ==> url_parts(url@) == Some(parts_view(p)),
        r is None ==> url_parts(url@) is None,
{
    let parsed = url::Url::parse(url).ok()?;
    Some(UrlParts {
        scheme: parsed.scheme().to_string(),
        host: parsed.host_str().map(|h| h.to_string()),
        port: parsed.port(),
    })
}

/// Relies on `url::Url::parse` and `Url::as_str`: the parsed text depends on
/// the URL text alone.
#[verifier::external_body]
fn normalize_url(url: &str) -> (r: Option<String>)
    ensures
        opt_view(r) == url_normalized(url@),
{
    let parsed = url::Url::parse(url).ok()?;
    Some(parsed.as_str().to_string())
}

/// Relies on `url::Url::parse`, `Url::set_scheme` and `Url::set_path`: the
/// result depends on the URL text, the scheme and the path alone.
#[verifier::external_body]
fn rebase_url(url: &str, scheme: &str, path: &str) -> (r: Option<String>)
    ensures
        opt_view(r) == url_rebased(url@, scheme@, path@),
{
    let mut parsed = url::Url::parse(url).ok()?;
    parsed.set_scheme(scheme).ok()?;
    parsed.set_path(path);
    Some(parsed.into())
}

/// The WebSocket scheme for a relay scheme: https and wss give wss, http and
/// ws give ws.
pub open spec fn ws_scheme_of(scheme: Seq<char>) -> Option<Seq<char>> {
    if scheme == "https"@ || scheme == "wss"@ {
        Some("wss"@)
    } else if scheme == "http"@ || scheme == "ws"@ {
        Some("ws"@)
    } else {
        None
    }
}

/// The HTTP scheme that goes with a WebSocket scheme.
pub open spec fn http_scheme_of(ws: Seq<char>) -> Seq<char> {
    if ws == "wss"@ {
        "https"@
    } else {
        "http"@
    }
}

/// `:port` when the URL names one.
pub open spec fn port_suffix(port: Option<u16>) -> Seq<char> {
    match port {
        Some(p) => ":"@ + decimal(p as nat),
        None => Seq::empty(),
    }
}

/// `<ws>://<host>[:port]/ws/control/<session>`
pub open spec fn control_url_text(ws: Seq<char>, host: Seq<char>, port: Option<u16>, session: Seq<char>) -> Seq<char> {
    ws + "://"@ + host + port_suffix(port) + "/ws/control/"@ + session
}

/// `<http>://<host>[:port]`
pub open spec fn dashboard_text(ws: Seq<char>, host: Seq<char>, port: Option<u16>) -> Seq<char> {
    http_scheme_of(ws) + "://"@ + host + port_suffix(port)
}

/// The WebSocket scheme for a relay scheme.
pub fn ws_scheme(scheme: &str) -> (r: Option<&'static str>)
    ensures
        r matches Some(s) ==> ws_scheme_of(scheme@) == Some(s@),
        r is None ==> ws_scheme_of(scheme@) is None,
{
    if text_equals(scheme, "https") || text_equals(scheme, "wss") {
        Some("wss")
    } else if text_equals(scheme, "http") || text_equals(scheme, "ws") {
        Some("ws")
    } else {
        None
    }
}

/// The HTTP scheme that goes with a WebSocket scheme.
pub fn http_scheme(ws: &str) -> (r: &'static str)
    ensures
        r@ == http_scheme_of(ws@),
{
    if text_equals(ws, "wss") {
        "https"
    } else {
        "http"
    }
}

fn append_port(s: &mut String, port: Option<u16>)
    ensures
        final(s)@ == old(s)@ + port_suffix(port),
{
    if let Some(p) = port {
        s.append(":");
        let digits = terminal_name(p as u32);
        s.append(digits.as_str());
    } else {
        assert(s@ =~= s@ + Seq::<char>::empty());
    }
}

/// The control URL and dashboard URL of `session` on the relay at `base`,
/// or why there are none.
pub open spec fn endpoints_of(base: Seq<char>, session: Seq<char>) -> Result<(Seq<char>, Seq<char>), ConfigError> {
    match url_parts(base) {
        None => Err(ConfigError::InvalidUrl),
        Some((scheme, host, port)) => match ws_scheme_of(scheme) {
            None => Err(ConfigError::UnsupportedScheme),
            Some(ws) => match host {
                None => Err(ConfigError::NoHost),
                Some(h) => match url_normalized(control_url_text(ws, h, port, session)) {
                    None => Err(ConfigError::InvalidUrl),
                    Some(control) => Ok((control, dashboard_text(ws, h, port))),
                },
            },
        },
    }
}

/// The control URL and the dashboard URL of a session on a relay.
#[derive(Clone, Debug)]
pub struct Endpoints {
    pub control_url: String,
    pub dashboard_url: String,
}

/// The endpoints of `session` on the relay at `base`: the relay's scheme
/// turned into a WebSocket scheme, its host and port kept.
pub fn relay_endpoints(base: &str, session: &str) -> (r: Result<Endpoints, ConfigError>)
    ensures
        endpoints_of(base@, session@) matches Err(e) ==> r == Err::<Endpoints, ConfigError>(e),
        endpoints_of(base@, session@) matches Ok((control, dashboard)) ==> (r matches Ok(e)
            && e.control_url@ == control && e.dashboard_url@ == dashboard),
{
    let parts = match parse_url_parts(base) {
        Some(p) => p,
        None => return Err(ConfigError::InvalidUrl),
    };
    let ws = match ws_scheme(parts.scheme.as_str()) {
        Some(w) => w,
        None => return Err(ConfigError::UnsupportedScheme),
    };
    let host = match &parts.host {
        Some(h) => h,
        None => return Err(ConfigError::NoHost),
    };
    let mut control = ws.to_owned();
    control.append("://");
    control.append(host.as_str());
    append_port(&mut control, parts.port);
    control.append("/ws/control/");
    control.append(session);
    let control_url = match normalize_url(control.as_str()) {
        Some(u) => u,
        None => return Err(ConfigError::InvalidUrl),
    };
    let mut dashboard = http_scheme(ws).to_owned();
    dashboard.append("://");
    dashboard.append(host.as_str());
    append_port(&mut dashboard, parts.port);
    Ok(Endpoints { control_url, dashboard_url: dashboard })
}

/// The session name: the one given, or `<username>-<digits>`.
pub fn session_name(session: Option<String>, username: &str, random_digits: u32) -> (r: String)
    requires
        MIN_SESSION_DIGITS <= random_digits <= MAX_SESSION_DIGITS,
    ensures
        session matches Some(s) ==> r@ == s@,
        session is None ==> r@ == username@ + "-"@ + decimal(random_digits as nat),
{
    match session {
        Some(s) => s,
        None => {
            let mut name = username.to_owned();
            name.append("-");
            let digits = terminal_name(random_digits);
            name.append(digits.as_str());
            name
        },
    }
}

/// The shell: the one given, else `SHELL`, else `/bin/sh`.
pub fn choose_shell(arg: Option<String>, env_shell: Option<String>) -> (r: String)
    ensures
        arg matches Some(s) ==> r@ == s@,
        arg is None && env_shell is Some ==> r@ == env_shell->Some_0@,
        arg is None && env_shell is None ==> r@ == DEFAULT_SHELL@,
{
    match arg {
        Some(s) => s,
        None => match env_shell {
            Some(s) => s,
            None => DEFAULT_SHELL.to_owned(),
        },
    }
}

/// The value to set `TERM` to: `xterm-256color` when the environment has
/// none, nothing otherwise.
pub fn term_override(existing: bool) -> (r: Option<&'static str>)
    ensures
        existing ==> r is None,
        !existing ==> (r matches Some(t) && t@ == DEFAULT_TERM@),
{
    if existing {
        None
    } else {
        Some(DEFAULT_TERM)
    }
}

/// The program and arguments the PTY runs: the sandbox helper's command line
/// when there is one, the shell and its arguments otherwise.
pub fn child_command(shell: String, args: Vec<String>, sandbox: Option<(String, Vec<String>)>) -> (r: (
    String,
    Vec<String>,
))
    ensures
        sandbox matches Some((exe, wrapped)) ==> r.0@ == exe@ && r.1@ == wrapped@,
        sandbox is None ==> r.0@ == shell@ && r.1@ == args@,
{
    match sandbox {
        Some((exe, wrapped)) => (exe, wrapped),
        None => (shell, args),
    }
}

/// The URL of the relay's token endpoint: the relay URL with its WebSocket
/// scheme turned into the HTTP one (other schemes kept) and the path
/// `/api/auth/token`.
pub fn token_url(relay_url: &str) -> (r: Option<String>)
    ensures
        url_parts(relay_url@) is None ==> r is None,
        url_parts(relay_url@) matches Some((scheme, host, port)) ==> opt_view(r) == url_rebased(
            relay_url@,
            if scheme == "wss"@ { "https"@ } else if scheme == "ws"@ { "http"@ } else { scheme },
            "/api/auth/token"@,
        ),
{
    let parts = match parse_url_parts(relay_url) {
        Some(p) => p,
        None => return None,
    };
    let scheme: &str = if text_equals(parts.scheme.as_str(), "wss") {
        "https"
    } else if text_equals(parts.scheme.as_str(), "ws") {
        "http"
    } else {
        parts.scheme.as_str()
    };
    rebase_url(relay_url, scheme, "/api/auth/token")
}

impl Config {
    /// The settings for a run by `username`: the session name, the relay's
    /// endpoints (from the environment's relay URL, else the default), the
    /// shell, and the flags of the command line.
    pub fn from_args(args: Args, username: &str, host: HostFacts) -> (r: Result<Config, ConfigError>)
        requires
            MIN_SESSION_DIGITS <= host.random_digits <= MAX_SESSION_DIGITS,
        ensures
            endpoints_of(
                match host.relay_base { Some(b) => b@, None => DEFAULT_RELAY_URL@ },
                match args.session { Some(s) => s@, None => username@ + "-"@ + decimal(host.random_digits as nat) },
            ) matches Err(e) ==> r matches Err(f) && f == e,
            endpoints_of(
                match host.relay_base { Some(b) => b@, None => DEFAULT_RELAY_URL@ },
                match args.session { Some(s) => s@, None => username@ + "-"@ + decimal(host.random_digits as nat) },
            ) matches Ok((control, dashboard)) ==> (r matches Ok(c) && c.relay_url@ == control
                && c.dashboard_url@ == dashboard),
            r matches Ok(c) ==> {
                &&& args.session matches Some(s) ==> c.session_name@ == s@
                &&& args.session is None ==> c.session_name@ == username@ + "-"@ + decimal(host.random_digits as nat)
                &&& c.username@ == username@
                &&& c.working_dir@ == host.working_dir@
                &&& c.reconnect == !args.no_reconnect
                &&& c.force_login == args.login
                &&& c.verbose == args.verbose
                &&& opt_view(c.command) == opt_view(args.command)
                &&& (args.shell matches Some(s) ==> c.shell@ == s@)
                &&& (args.shell is None && host.env_shell is Some ==> c.shell@ == host.env_shell->Some_0@)
                &&& (args.shell is None && host.env_shell is None ==> c.shell@ == DEFAULT_SHELL@)
                &&& (host.hostname matches Some(h) ==> c.hostname@ == h@)
                &&& (host.hostname is None ==> c.hostname@ == "unknown"@)
            },
    {
        let session = session_name(args.session, username, host.random_digits);
        let base = match host.relay_base {
            Some(b) => b,
            None => DEFAULT_RELAY_URL.to_owned(),
        };
        let endpoints = match relay_endpoints(base.as_str(), session.as_str()) {
            Ok(e) => e,
            Err(e) => return Err(e),
        };
        let shell = choose_shell(args.shell, host.env_shell);
        let hostname = match host.hostname {
            Some(h) => h,
            None => "unknown".to_owned(),
        };
        Ok(Config {
            relay_url: endpoints.control_url,
            session_name: session,
            dashboard_url: endpoints.dashboard_url,
            working_dir: host.working_dir,
            shell,
            command: args.command,
            verbose: args.verbose,
            reconnect: !args.no_reconnect,
            force_login: args.login,
            hostname,
            username: username.to_owned(),
        })
    }

    /// The program and arguments to run: `shell -c command` for a command,
    /// the bare shell otherwise.
    pub fn spawn_command(&self) -> (r: (String, Vec<String>))
        ensures
            r.0@ == self.shell@,
            self.command is None ==> r.1@.len() == 0,
            self.command matches Some(c) ==> r.1@.len() == 2 && r.1@[0]@ == "-c"@ && r.1@[1]@ == c@,
    {
        let mut args: Vec<String> = Vec::new();
        if let Some(c) = &self.command {
            args.push("-c".to_owned());
            args.push(c.clone());
        }
        (self.shell.clone(), args)
    }
}

} // verus!
