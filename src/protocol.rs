//! Frames of the per-terminal data channel and of the control channel.
//!
//! A data frame is one tag byte followed by a payload: raw bytes for terminal
//! input and output, a JSON object or number otherwise. A control frame is a
//! JSON object whose `type` member names the variant. The JSON is the compact
//! form of the schema (members in schema order, no whitespace, absent optional
//! members left out), so every frame has exactly one encoding.
use vstd::prelude::*;
use vstd::utf8::*;
use base64::Engine;
use crate::grammar::{
    check_keys, distinct_keys, find_member, keys_within, lookup, members_view, names_bytes,
    object_members, read_object, JsonScalar, JsonValue,
};
use crate::json::{
    all_ascii, bool_text, lemma_ascii_valid, lemma_key_text_valid, lemma_number_ascii, lemma_string_text_valid,
    bmember, bytes_from, imember, int_text, is_digit, key_text, lemma_starts_bytes,
    lemma_starts_exact, lemma_starts_split, read_imember, read_key,
    read_smember, read_string, read_uint, read_umember, smember, starts, string_text, umember,
    uint_text, write_bytes, write_int, write_key, write_string, write_uint,
};

verus! {

/// Relay → agent: keystrokes for the terminal.
pub const RELAY_INPUT: u8 = 48;
/// Relay → agent: new terminal size.
pub const RELAY_RESIZE: u8 = 49;
/// Relay → agent: hold terminal output.
pub const RELAY_PAUSE: u8 = 50;
/// Relay → agent: release held output.
pub const RELAY_RESUME: u8 = 51;
/// Relay → agent: ask for a snapshot of the screen.
pub const RELAY_REQUEST_SNAPSHOT: u8 = 52;

/// Agent → relay: terminal output.
pub const CLIENT_OUTPUT: u8 = 48;
/// Agent → relay: handshake metadata.
pub const CLIENT_HANDSHAKE: u8 = 49;
/// Agent → relay: exit code of the shell.
pub const CLIENT_EXIT: u8 = 50;
/// Agent → relay: snapshot of the screen.
pub const CLIENT_SNAPSHOT: u8 = 51;

/// Terminal dimensions requested by the relay.
#[derive(Clone, Copy, Debug, PartialEq, Eq, Structural)]
pub struct ResizeMessage {
    pub cols: u16,
    pub rows: u16,
}

/// Metadata sent first on each data channel.
#[derive(Clone, Debug)]
pub struct HandshakeMessage {
    pub version: String,
    pub shell: String,
    pub cols: Option<u16>,
    pub rows: Option<u16>,
}

/// A request for the current screen.
#[derive(Clone, Debug)]
pub struct SnapshotRequest {
    pub request_id: String,
}

/// The current screen, answering a `SnapshotRequest`.
#[derive(Clone, Debug)]
pub struct SnapshotMessage {
    pub request_id: String,
    /// Screen contents with their escape sequences; base64 in the JSON.
    pub screen: Vec<u8>,
    pub cols: u16,
    pub rows: u16,
    pub cursor_x: u16,
    pub cursor_y: u16,
}

/// A data frame from the relay.
#[derive(Clone, Debug)]
pub enum RelayMessage {
    Input(Vec<u8>),
    Resize(ResizeMessage),
    Pause,
    Resume,
    RequestSnapshot(SnapshotRequest),
}

/// A data frame to the relay.
#[derive(Clone, Debug)]
pub enum ClientMessage {
    Output(Vec<u8>),
    Handshake(HandshakeMessage),
    Exit(i32),
    Snapshot(SnapshotMessage),
}

/// A control frame from the relay.
#[derive(Clone, Debug)]
pub enum ControlMessage {
    StartTerminal { name: String, cols: u16, rows: u16, request_id: String },
    CloseTerminal { name: String, signal: Option<i32> },
}

/// A control frame to the relay.
#[derive(Clone, Debug)]
pub enum ControlResponse {
    ControlHandshake { version: String, hostname: String, username: String, working_dir: String },
    TerminalStarted { name: String, request_id: String, success: bool, error: Option<String> },
    TerminalClosed { name: String, exit_code: i32 },
}

/// Why a data frame could not be read.
#[derive(Clone, Copy, Debug, PartialEq, Eq, Structural)]
pub enum ParseError {
    /// The frame has no tag byte.
    Empty,
    /// The tag byte names no frame.
    UnknownTag(u8),
    /// The payload is not the JSON that the tag calls for.
    BadPayload,
}

/// Why a control frame could not be read.
#[derive(Clone, Copy, Debug, PartialEq, Eq, Structural)]
pub enum ControlParseError {
    /// The text is not a start or close request in the control schema.
    Malformed,
}

/// Why a control frame could not be turned into text.
#[derive(Clone, Copy, Debug, PartialEq, Eq, Structural)]
pub enum EncodeError {
    /// The encoded bytes are not valid UTF-8.
    NotText,
}

// ---------------------------------------------------------------------------
// Views
// ---------------------------------------------------------------------------

/// What a relay data frame says.
pub enum RelayMsg {
    Input(Seq<u8>),
    Resize(u16, u16),
    Pause,
    Resume,
    RequestSnapshot(Seq<char>),
}

/// Handshake metadata, as text.
pub struct HandshakeModel {
    pub version: Seq<char>,
    pub shell: Seq<char>,
    pub cols: Option<u16>,
    pub rows: Option<u16>,
}

/// A screen snapshot, as plain values.
pub struct SnapshotModel {
    pub request_id: Seq<char>,
    pub screen: Seq<u8>,
    pub cols: u16,
    pub rows: u16,
    pub cursor_x: u16,
    pub cursor_y: u16,
}

/// What an agent data frame says.
pub enum ClientMsg {
    Output(Seq<u8>),
    Handshake(HandshakeModel),
    Exit(i32),
    Snapshot(SnapshotModel),
}

/// What a relay control frame says.
pub enum ControlMsg {
    Start { name: Seq<char>, cols: u16, rows: u16, request_id: Seq<char> },
    Close { name: Seq<char>, signal: Option<i32> },
}

/// What an agent control frame says.
pub enum ControlResp {
    Handshake { version: Seq<char>, hostname: Seq<char>, username: Seq<char>, working_dir: Seq<char> },
    Started { name: Seq<char>, request_id: Seq<char>, success: bool, error: Option<Seq<char>> },
    Closed { name: Seq<char>, exit_code: i32 },
}

pub open spec fn opt_view(o: Option<String>) -> Option<Seq<char>> {
    match o {
        Some(s) => Some(s@),
        None => None,
    }
}

impl View for HandshakeMessage {
    type V = HandshakeModel;

    open spec fn view(&self) -> HandshakeModel {
        HandshakeModel { version: self.version@, shell: self.shell@, cols: self.cols, rows: self.rows }
    }
}

impl View for SnapshotMessage {
    type V = SnapshotModel;

    open spec fn view(&self) -> SnapshotModel {
        SnapshotModel {
            request_id: self.request_id@,
            screen: self.screen@,
            cols: self.cols,
            rows: self.rows,
            cursor_x: self.cursor_x,
            cursor_y: self.cursor_y,
        }
    }
}

impl View for RelayMessage {
    type V = RelayMsg;

    open spec fn view(&self) -> RelayMsg {
        match self {
            RelayMessage::Input(d) => RelayMsg::Input(d@),
            RelayMessage::Resize(r) => RelayMsg::Resize(r.cols, r.rows),
            RelayMessage::Pause => RelayMsg::Pause,
            RelayMessage::Resume => RelayMsg::Resume,
            RelayMessage::RequestSnapshot(q) => RelayMsg::RequestSnapshot(q.request_id@),
        }
    }
}

impl View for ClientMessage {
    type V = ClientMsg;

    open spec fn view(&self) -> ClientMsg {
        match self {
            ClientMessage::Output(d) => ClientMsg::Output(d@),
            ClientMessage::Handshake(h) => ClientMsg::Handshake(h@),
            ClientMessage::Exit(c) => ClientMsg::Exit(*c),
            ClientMessage::Snapshot(s) => ClientMsg::Snapshot(s@),
        }
    }
}

impl View for ControlMessage {
    type V = ControlMsg;

    open spec fn view(&self) -> ControlMsg {
        match self {
            ControlMessage::StartTerminal { name, cols, rows, request_id } => ControlMsg::Start {
                name: name@,
                cols: *cols,
                rows: *rows,
                request_id: request_id@,
            },
            ControlMessage::CloseTerminal { name, signal } => ControlMsg::Close {
                name: name@,
                signal: *signal,
            },
        }
    }
}

impl View for ControlResponse {
    type V = ControlResp;

    open spec fn view(&self) -> ControlResp {
        match self {
            ControlResponse::ControlHandshake { version, hostname, username, working_dir } =>
                ControlResp::Handshake {
                version: version@,
                hostname: hostname@,
                username: username@,
                working_dir: working_dir@,
            },
            ControlResponse::TerminalStarted { name, request_id, success, error } =>
                ControlResp::Started {
                name: name@,
                request_id: request_id@,
                success: *success,
                error: opt_view(*error),
            },
            ControlResponse::TerminalClosed { name, exit_code } => ControlResp::Closed {
                name: name@,
                exit_code: *exit_code,
            },
        }
    }
}

// ---------------------------------------------------------------------------
// Encodings
// ---------------------------------------------------------------------------

/// `{"cols":C,"rows":R}`
pub open spec fn resize_text(cols: u16, rows: u16) -> Seq<u8> {
    seq![123u8] + key_text("cols"@) + uint_text(cols as nat) + umember("rows"@, rows) + seq![125u8]
}

/// `{"requestId":ID}`
pub open spec fn snapshot_request_text(id: Seq<char>) -> Seq<u8> {
    seq![123u8] + key_text("requestId"@) + string_text(id) + seq![125u8]
}

/// The bytes of a relay data frame.
pub open spec fn relay_frame(m: RelayMsg) -> Seq<u8> {
    match m {
        RelayMsg::Input(d) => seq![RELAY_INPUT] + d,
        RelayMsg::Resize(c, r) => seq![RELAY_RESIZE] + resize_text(c, r),
        RelayMsg::Pause => seq![RELAY_PAUSE],
        RelayMsg::Resume => seq![RELAY_RESUME],
        RelayMsg::RequestSnapshot(id) => seq![RELAY_REQUEST_SNAPSHOT] + snapshot_request_text(id),
    }
}

/// `,"key":N` when the number is there.
pub open spec fn optional_uint(key: Seq<char>, v: Option<u16>) -> Seq<u8> {
    match v {
        Some(n) => umember(key, n),
        None => seq![],
    }
}

/// `,"key":I` when the number is there.
pub open spec fn optional_int(key: Seq<char>, v: Option<i32>) -> Seq<u8> {
    match v {
        Some(i) => imember(key, i),
        None => seq![],
    }
}

/// `,"key":"text"` when the text is there.
pub open spec fn optional_string(key: Seq<char>, v: Option<Seq<char>>) -> Seq<u8> {
    match v {
        Some(t) => smember(key, t),
        None => seq![],
    }
}

/// `{"version":V,"shell":S[,"cols":C][,"rows":R]}`
pub open spec fn handshake_text(h: HandshakeModel) -> Seq<u8> {
    seq![123u8] + key_text("version"@) + string_text(h.version) + smember("shell"@, h.shell)
        + optional_uint("cols"@, h.cols) + optional_uint("rows"@, h.rows) + seq![125u8]
}

/// The base64 text of the bytes `b` (standard alphabet, with padding).
pub uninterp spec fn base64_of(b: Seq<u8>) -> Seq<char>;

/// `{"requestId":ID,"screen":B64,"cols":C,"rows":R,"cursorX":X,"cursorY":Y}`
pub open spec fn snapshot_text(s: SnapshotModel) -> Seq<u8> {
    seq![123u8] + key_text("requestId"@) + string_text(s.request_id) + smember(
        "screen"@,
        base64_of(s.screen),
    ) + umember("cols"@, s.cols) + umember("rows"@, s.rows) + umember("cursorX"@, s.cursor_x)
        + umember("cursorY"@, s.cursor_y) + seq![125u8]
}

/// The bytes of an agent data frame.
pub open spec fn client_frame(m: ClientMsg) -> Seq<u8> {
    match m {
        ClientMsg::Output(d) => seq![CLIENT_OUTPUT] + d,
        ClientMsg::Handshake(h) => seq![CLIENT_HANDSHAKE] + handshake_text(h),
        ClientMsg::Exit(c) => seq![CLIENT_EXIT] + int_text(c as int),
        ClientMsg::Snapshot(s) => seq![CLIENT_SNAPSHOT] + snapshot_text(s),
    }
}

/// `{"type":"start_terminal","name":N,"cols":C,"rows":R,"requestId":ID}`
pub open spec fn start_text(name: Seq<char>, cols: u16, rows: u16, id: Seq<char>) -> Seq<u8> {
    seq![123u8] + key_text("type"@) + string_text("start_terminal"@) + smember("name"@, name)
        + umember("cols"@, cols) + umember("rows"@, rows) + smember("requestId"@, id) + seq![125u8]
}

/// `{"type":"close_terminal","name":N[,"signal":S]}`
pub open spec fn close_text(name: Seq<char>, signal: Option<i32>) -> Seq<u8> {
    seq![123u8] + key_text("type"@) + string_text("close_terminal"@) + smember("name"@, name)
        + optional_int("signal"@, signal) + seq![125u8]
}

/// The bytes of a relay control frame.
pub open spec fn control_text(m: ControlMsg) -> Seq<u8> {
    match m {
        ControlMsg::Start { name, cols, rows, request_id } => start_text(name, cols, rows, request_id),
        ControlMsg::Close { name, signal } => close_text(name, signal),
    }
}

/// The bytes of an agent control frame.
pub open spec fn response_text(m: ControlResp) -> Seq<u8> {
    match m {
        ControlResp::Handshake { version, hostname, username, working_dir } => seq![123u8]
            + key_text("type"@) + string_text("control_handshake"@) + smember("version"@, version)
            + smember("hostname"@, hostname) + smember("username"@, username) + smember(
            "workingDir"@,
            working_dir,
        ) + seq![125u8],
        ControlResp::Started { name, request_id, success, error } => seq![123u8] + key_text(
            "type"@,
        ) + string_text("terminal_started"@) + smember("name"@, name) + smember(
            "requestId"@,
            request_id,
        ) + bmember("success"@, success) + optional_string("error"@, error) + seq![125u8],
        ControlResp::Closed { name, exit_code } => seq![123u8] + key_text("type"@) + string_text(
            "terminal_closed"@,
        ) + smember("name"@, name) + imember("exitCode"@, exit_code) + seq![125u8],
    }
}

/// Relies on base64's `STANDARD.encode`: its text depends on the bytes alone.
#[verifier::external_body]
fn base64_encode(b: &[u8]) -> (r: String)
    requires
        b@.len() <= isize::MAX,
    ensures
        r@ == base64_of(b@),
{
    base64::engine::general_purpose::STANDARD.encode(b)
}

fn write_byte(out: &mut Vec<u8>, c: u8)
    ensures
        final(out)@ == old(out)@ + seq![c],
{
    out.push(c);
    assert(out@ =~= old(out)@ + seq![c]);
}

/// A fresh buffer holding `{`.
fn open_object() -> (r: Vec<u8>)
    ensures
        r@ == seq![123u8],
{
    let mut out: Vec<u8> = Vec::new();
    out.push(123u8);
    assert(out@ =~= seq![123u8]);
    out
}

fn write_umember(out: &mut Vec<u8>, key: &str, n: u16)
    ensures
        final(out)@ == old(out)@ + umember(key@, n),
{
    out.push(44u8);
    write_key(out, key);
    write_uint(out, n as u64);
    assert(out@ =~= old(out)@ + umember(key@, n));
}

fn write_imember(out: &mut Vec<u8>, key: &str, i: i32)
    ensures
        final(out)@ == old(out)@ + imember(key@, i),
{
    out.push(44u8);
    write_key(out, key);
    write_int(out, i);
    assert(out@ =~= old(out)@ + imember(key@, i));
}

fn write_smember(out: &mut Vec<u8>, key: &str, t: &str)
    ensures
        final(out)@ == old(out)@ + smember(key@, t@),
{
    out.push(44u8);
    write_key(out, key);
    write_string(out, t);
    assert(out@ =~= old(out)@ + smember(key@, t@));
}

fn write_bmember(out: &mut Vec<u8>, key: &str, b: bool)
    ensures
        final(out)@ == old(out)@ + bmember(key@, b),
{
    out.push(44u8);
    write_key(out, key);
    if b {
        out.push(116u8);
        out.push(114u8);
        out.push(117u8);
        out.push(101u8);
    } else {
        out.push(102u8);
        out.push(97u8);
        out.push(108u8);
        out.push(115u8);
        out.push(101u8);
    }
    assert(out@ =~= old(out)@ + bmember(key@, b));
}

fn write_optional_uint(out: &mut Vec<u8>, key: &str, v: Option<u16>)
    ensures
        final(out)@ == old(out)@ + optional_uint(key@, v),
{
    match v {
        Some(n) => write_umember(out, key, n),
        None => assert(out@ =~= old(out)@ + optional_uint(key@, v)),
    }
}

fn write_optional_int(out: &mut Vec<u8>, key: &str, v: Option<i32>)
    ensures
        final(out)@ == old(out)@ + optional_int(key@, v),
{
    match v {
        Some(i) => write_imember(out, key, i),
        None => assert(out@ =~= old(out)@ + optional_int(key@, v)),
    }
}

fn write_optional_string(out: &mut Vec<u8>, key: &str, v: &Option<String>)
    ensures
        final(out)@ == old(out)@ + optional_string(key@, opt_view(*v)),
{
    match v {
        Some(t) => write_smember(out, key, t.as_str()),
        None => assert(out@ =~= old(out)@ + optional_string(key@, opt_view(*v))),
    }
}

/// A frame: the tag byte, then `body`.
fn framed(tag: u8, body: &[u8]) -> (r: Vec<u8>)
    ensures
        r@ == seq![tag] + body@,
{
    let mut msg: Vec<u8> = Vec::new();
    msg.push(tag);
    write_bytes(&mut msg, body);
    assert(msg@ =~= seq![tag] + body@);
    msg
}

fn handshake_bytes(h: &HandshakeMessage) -> (r: Vec<u8>)
    ensures
        r@ == handshake_text(h@),
{
    let mut out = open_object();
    write_key(&mut out, "version");
    write_string(&mut out, h.version.as_str());
    write_smember(&mut out, "shell", h.shell.as_str());
    write_optional_uint(&mut out, "cols", h.cols);
    write_optional_uint(&mut out, "rows", h.rows);
    write_byte(&mut out, 125u8);
    out
}

fn snapshot_bytes(s: &SnapshotMessage) -> (r: Vec<u8>)
    requires
        s.screen@.len() <= isize::MAX,
    ensures
        r@ == snapshot_text(s@),
{
    let encoded = base64_encode(s.screen.as_slice());
    let mut out = open_object();
    write_key(&mut out, "requestId");
    write_string(&mut out, s.request_id.as_str());
    write_smember(&mut out, "screen", encoded.as_str());
    write_umember(&mut out, "cols", s.cols);
    write_umember(&mut out, "rows", s.rows);
    write_umember(&mut out, "cursorX", s.cursor_x);
    write_umember(&mut out, "cursorY", s.cursor_y);
    write_byte(&mut out, 125u8);
    out
}

impl ClientMessage {
    /// The frame's bytes: its tag, then raw output, handshake JSON, the exit
    /// code as a JSON number, or snapshot JSON.
    pub fn encode(&self) -> (r: Vec<u8>)
        requires
            self matches ClientMessage::Snapshot(s) ==> s.screen@.len() <= isize::MAX,
        ensures
            r@ == client_frame(self@),
    {
        match self {
            ClientMessage::Output(data) => framed(CLIENT_OUTPUT, data.as_slice()),
            ClientMessage::Handshake(h) => {
                let body = handshake_bytes(h);
                framed(CLIENT_HANDSHAKE, body.as_slice())
            },
            ClientMessage::Exit(code) => {
                let mut body: Vec<u8> = Vec::new();
                write_int(&mut body, *code);
                assert(body@ =~= int_text(*code as int));
                framed(CLIENT_EXIT, body.as_slice())
            },
            ClientMessage::Snapshot(s) => {
                let body = snapshot_bytes(s);
                framed(CLIENT_SNAPSHOT, body.as_slice())
            },
        }
    }
}

fn resize_bytes(cols: u16, rows: u16) -> (r: Vec<u8>)
    ensures
        r@ == resize_text(cols, rows),
{
    let mut out = open_object();
    write_key(&mut out, "cols");
    write_uint(&mut out, cols as u64);
    write_umember(&mut out, "rows", rows);
    write_byte(&mut out, 125u8);
    out
}

fn snapshot_request_bytes(id: &str) -> (r: Vec<u8>)
    ensures
        r@ == snapshot_request_text(id@),
{
    let mut out = open_object();
    write_key(&mut out, "requestId");
    write_string(&mut out, id);
    write_byte(&mut out, 125u8);
    out
}

impl RelayMessage {
    /// The frame's bytes, as the relay sends them.
    pub fn encode(&self) -> (r: Vec<u8>)
        ensures
            r@ == relay_frame(self@),
    {
        match self {
            RelayMessage::Input(data) => framed(RELAY_INPUT, data.as_slice()),
            RelayMessage::Resize(size) => {
                let body = resize_bytes(size.cols, size.rows);
                framed(RELAY_RESIZE, body.as_slice())
            },
            RelayMessage::Pause => {
                let r = framed(RELAY_PAUSE, &[]);
                assert(r@ =~= seq![RELAY_PAUSE]);
                r
            },
            RelayMessage::Resume => {
                let r = framed(RELAY_RESUME, &[]);
                assert(r@ =~= seq![RELAY_RESUME]);
                r
            },
            RelayMessage::RequestSnapshot(q) => {
                let body = snapshot_request_bytes(q.request_id.as_str());
                framed(RELAY_REQUEST_SNAPSHOT, body.as_slice())
            },
        }
    }
}

/// An input frame carrying the UTF-8 of `input`.
pub fn create_input_message(input: &str) -> (r: Vec<u8>)
    ensures
        r@ == relay_frame(RelayMsg::Input(encode_utf8(input@))),
{
    framed(RELAY_INPUT, input.as_bytes())
}

/// A resize frame for `cols` x `rows`.
pub fn create_resize_message(cols: u16, rows: u16) -> (r: Vec<u8>)
    ensures
        r@ == relay_frame(RelayMsg::Resize(cols, rows)),
{
    let body = resize_bytes(cols, rows);
    framed(RELAY_RESIZE, body.as_slice())
}

impl ControlMessage {
    /// The frame's JSON bytes, as the relay sends them.
    pub fn encode(&self) -> (r: Vec<u8>)
        ensures
            r@ == control_text(self@),
    {
        let mut out = open_object();
        write_key(&mut out, "type");
        match self {
            ControlMessage::StartTerminal { name, cols, rows, request_id } => {
                write_string(&mut out, "start_terminal");
                write_smember(&mut out, "name", name.as_str());
                write_umember(&mut out, "cols", *cols);
                write_umember(&mut out, "rows", *rows);
                write_smember(&mut out, "requestId", request_id.as_str());
            },
            ControlMessage::CloseTerminal { name, signal } => {
                write_string(&mut out, "close_terminal");
                write_smember(&mut out, "name", name.as_str());
                write_optional_int(&mut out, "signal", *signal);
            },
        }
        write_byte(&mut out, 125u8);
        out
    }
}

impl ControlResponse {
    /// The frame's JSON bytes.
    pub fn encode_bytes(&self) -> (r: Vec<u8>)
        ensures
            r@ == response_text(self@),
    {
        let mut out = open_object();
        write_key(&mut out, "type");
        match self {
            ControlResponse::ControlHandshake { version, hostname, username, working_dir } => {
                write_string(&mut out, "control_handshake");
                write_smember(&mut out, "version", version.as_str());
                write_smember(&mut out, "hostname", hostname.as_str());
                write_smember(&mut out, "username", username.as_str());
                write_smember(&mut out, "workingDir", working_dir.as_str());
            },
            ControlResponse::TerminalStarted { name, request_id, success, error } => {
                write_string(&mut out, "terminal_started");
                write_smember(&mut out, "name", name.as_str());
                write_smember(&mut out, "requestId", request_id.as_str());
                write_bmember(&mut out, "success", *success);
                write_optional_string(&mut out, "error", error);
            },
            ControlResponse::TerminalClosed { name, exit_code } => {
                write_string(&mut out, "terminal_closed");
                write_smember(&mut out, "name", name.as_str());
                write_imember(&mut out, "exitCode", *exit_code);
            },
        }
        write_byte(&mut out, 125u8);
        out
    }

    /// The frame's JSON text; it always is text.
    pub fn encode(&self) -> (r: Result<String, EncodeError>)
        ensures
            r matches Ok(s) && encode_utf8(s@) == response_text(self@),
    {
        let bytes = self.encode_bytes();
        let ghost raw = bytes@;
        proof {
            lemma_response_valid(self@);
        }
        match crate::json::string_from_utf8(bytes) {
            Some(s) => {
                proof {
                    decode_utf8_encode_utf8(raw);
                }
                Ok(s)
            },
            None => Err(EncodeError::NotText),
        }
    }
}

proof fn lemma_resize_layout(b: Seq<u8>, pos: int, c: u16, w: u16)
    requires
        0 <= pos <= b.len(),
        b.subrange(pos, b.len() as int) == resize_text(c, w),
    ensures
        pos < b.len(),
        b[pos] == 123,
        starts(b, pos + 1, key_text("cols"@), uint_text(c as nat) + (umember("rows"@, w) + (seq![125u8] + Seq::<u8>::empty()))),
        starts(b, pos + 1 + key_text("cols"@).len(), uint_text(c as nat), umember("rows"@, w) + (seq![125u8] + Seq::<u8>::empty())),
        !is_digit((umember("rows"@, w) + (seq![125u8] + Seq::<u8>::empty()))[0]),
        starts(b, pos + 1 + key_text("cols"@).len() + uint_text(c as nat).len(), umember("rows"@, w), seq![125u8] + Seq::<u8>::empty()),
        !is_digit((seq![125u8] + Seq::<u8>::empty())[0]),
        pos + 1 + key_text("cols"@).len() + uint_text(c as nat).len() + umember("rows"@, w).len() + 1 == b.len(),
        b[pos + 1 + key_text("cols"@).len() + uint_text(c as nat).len() + umember("rows"@, w).len()] == 125,
{
    let e = Seq::<u8>::empty();
    let k = key_text("cols"@);
    let u = uint_text(c as nat);
    let m = umember("rows"@, w);
    let t2 = seq![123u8] + k;
    let t3 = t2 + u;
    let t4 = t3 + m;
    lemma_starts_exact(b, pos, resize_text(c, w));
    lemma_starts_split(b, pos, t4, seq![125u8], e);
    lemma_starts_split(b, pos, t3, m, seq![125u8] + e);
    lemma_starts_split(b, pos, t2, u, m + (seq![125u8] + e));
    lemma_starts_split(b, pos, seq![123u8], k, u + (m + (seq![125u8] + e)));
    lemma_starts_bytes(b, pos, seq![123u8], k + (u + (m + (seq![125u8] + e))));
    assert(b[pos + 0] == seq![123u8][0]);
    lemma_starts_bytes(b, pos + t4.len(), seq![125u8], e);
    assert(b[pos + t4.len() + 0] == seq![125u8][0]);
    assert((m + (seq![125u8] + e))[0] == m[0]);
    assert(m[0] == 44u8);
}

fn parse_resize(b: &[u8], pos: usize) -> (r: Option<ResizeMessage>)
    requires
        pos <= b@.len(),
    ensures
        r matches Some(m) ==> b@.subrange(pos as int, b@.len() as int) == resize_text(m.cols, m.rows),
        forall|c: u16, w: u16| #[trigger] resize_text(c, w) == b@.subrange(pos as int, b@.len() as int)
            ==> r == Some(ResizeMessage { cols: c, rows: w }),
{
    proof {
        assert forall|c: u16, w: u16| #[trigger] resize_text(c, w) == b@.subrange(pos as int, b@.len() as int)
            implies pos < b@.len() && b@[pos as int] == 123 by {
            lemma_resize_layout(b@, pos as int, c, w);
        }
    }
    if pos >= b.len() || b[pos] != 123 {
        return None;
    }
    let p1 = pos + 1;
    proof {
        assert forall|c: u16, w: u16| #[trigger] resize_text(c, w) == b@.subrange(pos as int, b@.len() as int)
            implies starts(b@, p1 as int, key_text("cols"@), uint_text(c as nat) + (umember("rows"@, w) + (seq![125u8] + Seq::<u8>::empty())))
            && starts(b@, p1 + key_text("cols"@).len(), uint_text(c as nat), umember("rows"@, w) + (seq![125u8] + Seq::<u8>::empty()))
            && !is_digit((umember("rows"@, w) + (seq![125u8] + Seq::<u8>::empty()))[0])
            && starts(b@, p1 + key_text("cols"@).len() + uint_text(c as nat).len(), umember("rows"@, w), seq![125u8] + Seq::<u8>::empty())
            && !is_digit((seq![125u8] + Seq::<u8>::empty())[0])
            && p1 + key_text("cols"@).len() + uint_text(c as nat).len() + umember("rows"@, w).len() + 1 == b@.len()
            && b@[p1 + key_text("cols"@).len() + uint_text(c as nat).len() + umember("rows"@, w).len()] == 125 by {
            lemma_resize_layout(b@, pos as int, c, w);
        }
    }
    let p2 = match read_key(b, p1, "cols") {
        Some(e) => e,
        None => return None,
    };
    let (cols, p3) = match read_uint(b, p2) {
        Some(x) => x,
        None => return None,
    };
    if cols > 65535 {
        return None;
    }
    let (rows, p4) = match read_umember(b, p3, "rows") {
        Some(x) => x,
        None => return None,
    };
    if p4 >= b.len() || b[p4] != 125 || p4 + 1 != b.len() {
        return None;
    }
    let m = ResizeMessage { cols: cols as u16, rows };
    proof {
        assert(b@.subrange(pos as int, b@.len() as int) =~= seq![123u8] + b@.subrange(p1 as int, p2 as int)
            + b@.subrange(p2 as int, p3 as int) + b@.subrange(p3 as int, p4 as int) + seq![125u8]);
    }
    Some(m)
}

proof fn lemma_snapshot_request_layout(b: Seq<u8>, pos: int, id: Seq<char>)
    requires
        0 <= pos <= b.len(),
        b.subrange(pos, b.len() as int) == snapshot_request_text(id),
    ensures
        pos < b.len(),
        b[pos] == 123,
        starts(b, pos + 1, key_text("requestId"@), string_text(id) + (seq![125u8] + Seq::<u8>::empty())),
        starts(b, pos + 1 + key_text("requestId"@).len(), string_text(id), seq![125u8] + Seq::<u8>::empty()),
        pos + 1 + key_text("requestId"@).len() + string_text(id).len() + 1 == b.len(),
        b[pos + 1 + key_text("requestId"@).len() + string_text(id).len()] == 125,
{
    let e = Seq::<u8>::empty();
    let k = key_text("requestId"@);
    let t = string_text(id);
    let t2 = seq![123u8] + k;
    let t3 = t2 + t;
    lemma_starts_exact(b, pos, snapshot_request_text(id));
    lemma_starts_split(b, pos, t3, seq![125u8], e);
    lemma_starts_split(b, pos, t2, t, seq![125u8] + e);
    lemma_starts_split(b, pos, seq![123u8], k, t + (seq![125u8] + e));
    lemma_starts_bytes(b, pos, seq![123u8], k + (t + (seq![125u8] + e)));
    assert(b[pos + 0] == seq![123u8][0]);
    lemma_starts_bytes(b, pos + t3.len(), seq![125u8], e);
    assert(b[pos + t3.len() + 0] == seq![125u8][0]);
}

fn parse_snapshot_request(b: &[u8], pos: usize) -> (r: Option<SnapshotRequest>)
    requires
        pos <= b@.len(),
    ensures
        r matches Some(q) ==> b@.subrange(pos as int, b@.len() as int) == snapshot_request_text(q.request_id@),
        forall|id: Seq<char>| #[trigger] snapshot_request_text(id) == b@.subrange(pos as int, b@.len() as int)
            ==> (r matches Some(q) && q.request_id@ == id),
{
    proof {
        assert forall|id: Seq<char>| #[trigger] snapshot_request_text(id) == b@.subrange(pos as int, b@.len() as int)
            implies pos < b@.len() && b@[pos as int] == 123
            && starts(b@, pos + 1, key_text("requestId"@), string_text(id) + (seq![125u8] + Seq::<u8>::empty()))
            && starts(b@, pos + 1 + key_text("requestId"@).len(), string_text(id), seq![125u8] + Seq::<u8>::empty())
            && pos + 1 + key_text("requestId"@).len() + string_text(id).len() + 1 == b@.len()
            && b@[pos + 1 + key_text("requestId"@).len() + string_text(id).len()] == 125 by {
            lemma_snapshot_request_layout(b@, pos as int, id);
        }
    }
    if pos >= b.len() || b[pos] != 123 {
        return None;
    }
    let p2 = match read_key(b, pos + 1, "requestId") {
        Some(e) => e,
        None => return None,
    };
    let (id, p3) = match read_string(b, p2) {
        Some(x) => x,
        None => return None,
    };
    if p3 >= b.len() || b[p3] != 125 || p3 + 1 != b.len() {
        return None;
    }
    proof {
        assert(b@.subrange(pos as int, b@.len() as int) =~= seq![123u8] + b@.subrange(pos + 1, p2 as int)
            + b@.subrange(p2 as int, p3 as int) + seq![125u8]);
    }
    Some(SnapshotRequest { request_id: id })
}

/// Whether `parse` reads the frame `b` as `m`: input and the payload-less
/// frames by their tag, the others by their exact encoding.
pub open spec fn relay_reads(b: Seq<u8>, m: RelayMsg) -> bool {
    match m {
        RelayMsg::Input(d) => b == seq![RELAY_INPUT] + d,
        RelayMsg::Pause => b.len() > 0 && b[0] == RELAY_PAUSE,
        RelayMsg::Resume => b.len() > 0 && b[0] == RELAY_RESUME,
        _ => b == relay_frame(m),
    }
}

/// Whether the tag byte names a relay data frame.
pub open spec fn is_relay_tag(t: u8) -> bool {
    RELAY_INPUT <= t <= RELAY_REQUEST_SNAPSHOT
}

impl RelayMessage {
    /// Reads a data frame from the relay.
    ///
    /// An empty frame and an unknown tag are errors; input carries the rest of
    /// the frame as it is; pause and resume ignore what follows the tag. A
    /// resize or snapshot request is read when its payload is the schema's
    /// JSON: in the compact form that `encode` writes, it reads back as the
    /// message it encodes; in any other form (members in another order,
    /// whitespace, other escapes), as the JSON grammar reads it.
    pub fn parse(data: &[u8]) -> (r: Result<RelayMessage, ParseError>)
        ensures
            data@.len() == 0 <==> r == Err::<RelayMessage, ParseError>(ParseError::Empty),
            data@.len() > 0 && !is_relay_tag(data@[0]) ==> r == Err::<RelayMessage, ParseError>(
                ParseError::UnknownTag(data@[0]),
            ),
            data@.len() > 0 && data@[0] == RELAY_INPUT ==> (r matches Ok(m) && m@ == RelayMsg::Input(
                data@.drop_first(),
            )),
            data@.len() > 0 && data@[0] == RELAY_PAUSE ==> (r matches Ok(m) && m@ == RelayMsg::Pause),
            data@.len() > 0 && data@[0] == RELAY_RESUME ==> (r matches Ok(m) && m@ == RelayMsg::Resume),
            data@.len() > 0 && (data@[0] == RELAY_RESIZE || data@[0] == RELAY_REQUEST_SNAPSHOT) ==> (
            r is Ok || r == Err::<RelayMessage, ParseError>(ParseError::BadPayload)),
            data@.len() > 0 && (data@[0] == RELAY_RESIZE || data@[0] == RELAY_REQUEST_SNAPSHOT) ==> (r matches Ok(m)
                ==> relay_frame(m@) == data@ || relay_json_reads(data@, m@)),
            forall|m: RelayMsg| #[trigger] relay_frame(m) == data@ ==> (r matches Ok(x) && x@ == m),
            forall|m: RelayMsg| #[trigger] relay_json_reads(data@, m) && !(exists|x: RelayMsg| relay_frame(x) == data@)
                ==> (r matches Ok(y) && y@ == m),
            r matches Ok(m) ==> relay_reads(data@, m@) || relay_json_reads(data@, m@),
    {
        if data.len() == 0 {
            return Err(ParseError::Empty);
        }
        let tag = data[0];
        proof {
            assert forall|m: RelayMsg| #[trigger] relay_frame(m) == data@ implies data@[0] == match m {
                RelayMsg::Input(_) => RELAY_INPUT,
                RelayMsg::Resize(_, _) => RELAY_RESIZE,
                RelayMsg::Pause => RELAY_PAUSE,
                RelayMsg::Resume => RELAY_RESUME,
                RelayMsg::RequestSnapshot(_) => RELAY_REQUEST_SNAPSHOT,
            } by {
                assert(relay_frame(m)[0] == data@[0]);
            }
        }
        if tag == RELAY_INPUT {
            let payload = bytes_from(data, 1);
            proof {
                assert(payload@ =~= data@.drop_first());
                assert(data@ =~= seq![RELAY_INPUT] + data@.drop_first());
                assert forall|m: RelayMsg| #[trigger] relay_frame(m) == data@ implies m == RelayMsg::Input(data@.drop_first()) by {
                    if let RelayMsg::Input(d) = m {
                        assert(data@.drop_first() =~= d);
                    }
                }
            }
            Ok(RelayMessage::Input(payload))
        } else if tag == RELAY_RESIZE {
            Self::parse_resize_frame(data)
        } else if tag == RELAY_PAUSE {
            proof {
                assert forall|m: RelayMsg| #[trigger] relay_frame(m) == data@ implies m == RelayMsg::Pause by {}
            }
            Ok(RelayMessage::Pause)
        } else if tag == RELAY_RESUME {
            proof {
                assert forall|m: RelayMsg| #[trigger] relay_frame(m) == data@ implies m == RelayMsg::Resume by {}
            }
            Ok(RelayMessage::Resume)
        } else if tag == RELAY_REQUEST_SNAPSHOT {
            Self::parse_snapshot_request_frame(data)
        } else {
            Err(ParseError::UnknownTag(tag))
        }
    }

    fn parse_resize_frame(data: &[u8]) -> (r: Result<RelayMessage, ParseError>)
        requires
            data@.len() > 0,
            data@[0] == RELAY_RESIZE,
        ensures
            r is Ok || r == Err::<RelayMessage, ParseError>(ParseError::BadPayload),
            r matches Ok(m) ==> relay_frame(m@) == data@ || relay_json_reads(data@, m@),
            forall|m: RelayMsg| #[trigger] relay_frame(m) == data@ ==> (r matches Ok(x) && x@ == m),
            forall|m: RelayMsg| #[trigger] relay_json_reads(data@, m) && !(exists|x: RelayMsg| relay_frame(x) == data@)
                ==> (r matches Ok(y) && y@ == m),
    {
        proof {
            assert forall|m: RelayMsg| #[trigger] relay_frame(m) == data@ implies (m matches RelayMsg::Resize(c, w)
                && resize_text(c, w) == data@.subrange(1, data@.len() as int)) by {
                assert(relay_frame(m)[0] == data@[0]);
                if let RelayMsg::Resize(c, w) = m {
                    assert(data@.subrange(1, data@.len() as int) =~= resize_text(c, w));
                }
            }
        }
        match parse_resize(data, 1) {
            Some(size) => {
                assert(data@ =~= seq![RELAY_RESIZE] + data@.subrange(1, data@.len() as int));
                Ok(RelayMessage::Resize(size))
            },
            None => {
                let payload = bytes_from(data, 1);
                assert(payload@ =~= data@.drop_first());
                match resize_from_json(payload.as_slice()) {
                    Some(size) => Ok(RelayMessage::Resize(size)),
                    None => Err(ParseError::BadPayload),
                }
            },
        }
    }

    fn parse_snapshot_request_frame(data: &[u8]) -> (r: Result<RelayMessage, ParseError>)
        requires
            data@.len() > 0,
            data@[0] == RELAY_REQUEST_SNAPSHOT,
        ensures
            r is Ok || r == Err::<RelayMessage, ParseError>(ParseError::BadPayload),
            r matches Ok(m) ==> relay_frame(m@) == data@ || relay_json_reads(data@, m@),
            forall|m: RelayMsg| #[trigger] relay_frame(m) == data@ ==> (r matches Ok(x) && x@ == m),
            forall|m: RelayMsg| #[trigger] relay_json_reads(data@, m) && !(exists|x: RelayMsg| relay_frame(x) == data@)
                ==> (r matches Ok(y) && y@ == m),
    {
        proof {
            assert forall|m: RelayMsg| #[trigger] relay_frame(m) == data@ implies (m matches RelayMsg::RequestSnapshot(id)
                && snapshot_request_text(id) == data@.subrange(1, data@.len() as int)) by {
                assert(relay_frame(m)[0] == data@[0]);
                if let RelayMsg::RequestSnapshot(id) = m {
                    assert(data@.subrange(1, data@.len() as int) =~= snapshot_request_text(id));
                }
            }
        }
        match parse_snapshot_request(data, 1) {
            Some(q) => {
                assert(data@ =~= seq![RELAY_REQUEST_SNAPSHOT] + data@.subrange(1, data@.len() as int));
                Ok(RelayMessage::RequestSnapshot(q))
            },
            None => {
                let payload = bytes_from(data, 1);
                assert(payload@ =~= data@.drop_first());
                match snapshot_request_from_json(payload.as_slice()) {
                    Some(q) => Ok(RelayMessage::RequestSnapshot(q)),
                    None => Err(ParseError::BadPayload),
                }
            },
        }
    }
}

/// Whether two texts are equal.
pub fn text_equals(a: &str, b: &str) -> (r: bool)
    ensures
        r == (a@ == b@),
{
    let x = a.as_bytes();
    let y = b.as_bytes();
    proof {
        encode_utf8_decode_utf8(a@);
        encode_utf8_decode_utf8(b@);
        assert(y@.subrange(0, y@.len() as int) =~= y@);
    }
    crate::json::bytes_equal(x, y, 0, y.len())
}

/// What follows the type in a start request, from the name member on.
pub open spec fn start_tail(name: Seq<char>, cols: u16, rows: u16, id: Seq<char>) -> Seq<u8> {
    smember("name"@, name) + (umember("cols"@, cols) + (umember("rows"@, rows) + (smember(
        "requestId"@,
        id,
    ) + (seq![125u8] + Seq::<u8>::empty()))))
}

/// What follows the type in a close request, from the name member on.
pub open spec fn close_tail(name: Seq<char>, signal: Option<i32>) -> Seq<u8> {
    smember("name"@, name) + (optional_int("signal"@, signal) + (seq![125u8] + Seq::<u8>::empty()))
}

proof fn lemma_head_layout(b: Seq<u8>, tag: Seq<char>, tail: Seq<u8>)
    requires
        starts(b, 0, seq![123u8] + key_text("type"@) + string_text(tag), tail),
    ensures
        0 < b.len(),
        b[0] == 123,
        starts(b, 1, key_text("type"@), string_text(tag) + tail),
        starts(b, (1 + key_text("type"@).len()) as int, string_text(tag), tail),
        starts(b, (1 + key_text("type"@).len() + string_text(tag).len()) as int, tail, Seq::<u8>::empty()),
{
    let k = key_text("type"@);
    let t = string_text(tag);
    lemma_starts_split(b, 0, seq![123u8] + k, t, tail);
    lemma_starts_split(b, 0, seq![123u8], k, t + tail);
    lemma_starts_bytes(b, 0, seq![123u8], k + (t + tail));
    assert(b[0int] == seq![123u8][0]);
    let q = (1 + k.len() + t.len()) as int;
    assert(b.subrange(q, b.len() as int) =~= b.subrange((1 + k.len()) as int, b.len() as int).subrange(t.len() as int, b.len() - 1 - k.len()));
    assert((t + tail).subrange(t.len() as int, (t + tail).len() as int) =~= tail);
    assert(tail + Seq::<u8>::empty() =~= tail);
}

proof fn lemma_start_layout(b: Seq<u8>, name: Seq<char>, cols: u16, rows: u16, id: Seq<char>)
    requires
        b == start_text(name, cols, rows, id),
    ensures
        starts(b, 0, seq![123u8] + key_text("type"@) + string_text("start_terminal"@), start_tail(name, cols, rows, id)),
{
    let h = seq![123u8] + key_text("type"@) + string_text("start_terminal"@);
    assert(b.subrange(0, b.len() as int) =~= h + start_tail(name, cols, rows, id));
}

proof fn lemma_close_layout(b: Seq<u8>, name: Seq<char>, signal: Option<i32>)
    requires
        b == close_text(name, signal),
    ensures
        starts(b, 0, seq![123u8] + key_text("type"@) + string_text("close_terminal"@), close_tail(name, signal)),
{
    let h = seq![123u8] + key_text("type"@) + string_text("close_terminal"@);
    assert(b.subrange(0, b.len() as int) =~= h + close_tail(name, signal));
}

/// Where the members of a start request stand, from `q` on.
proof fn lemma_start_members(b: Seq<u8>, q: int, name: Seq<char>, cols: u16, rows: u16, id: Seq<char>)
    requires
        starts(b, q, start_tail(name, cols, rows, id), Seq::<u8>::empty()),
    ensures
        starts(b, q, smember("name"@, name), umember("cols"@, cols) + (umember("rows"@, rows) + (smember("requestId"@, id) + (seq![125u8] + Seq::<u8>::empty())))),
        starts(b, q + smember("name"@, name).len(), umember("cols"@, cols), umember("rows"@, rows) + (smember("requestId"@, id) + (seq![125u8] + Seq::<u8>::empty()))),
        !is_digit((umember("rows"@, rows) + (smember("requestId"@, id) + (seq![125u8] + Seq::<u8>::empty())))[0]),
        starts(b, q + smember("name"@, name).len() + umember("cols"@, cols).len(), umember("rows"@, rows), smember("requestId"@, id) + (seq![125u8] + Seq::<u8>::empty())),
        !is_digit((smember("requestId"@, id) + (seq![125u8] + Seq::<u8>::empty()))[0]),
        starts(b, q + smember("name"@, name).len() + umember("cols"@, cols).len() + umember("rows"@, rows).len(), smember("requestId"@, id), seq![125u8] + Seq::<u8>::empty()),
        q + smember("name"@, name).len() + umember("cols"@, cols).len() + umember("rows"@, rows).len() + smember("requestId"@, id).len() + 1 == b.len(),
        b[q + smember("name"@, name).len() + umember("cols"@, cols).len() + umember("rows"@, rows).len() + smember("requestId"@, id).len()] == 125,
{
    let e = Seq::<u8>::empty();
    let a1 = smember("name"@, name);
    let a2 = umember("cols"@, cols);
    let a3 = umember("rows"@, rows);
    let a4 = smember("requestId"@, id);
    let z = seq![125u8] + e;
    assert(start_tail(name, cols, rows, id) =~= a1 + (a2 + (a3 + (a4 + z))));
    assert(a1 + (a2 + (a3 + (a4 + z))) + e =~= a1 + (a2 + (a3 + (a4 + z))));
    lemma_starts_split(b, q, a1, a2 + (a3 + (a4 + z)), e);
    assert(a2 + (a3 + (a4 + z)) + e =~= a2 + (a3 + (a4 + z)));
    lemma_starts_split(b, q + a1.len(), a2, a3 + (a4 + z), e);
    assert(a3 + (a4 + z) + e =~= a3 + (a4 + z));
    lemma_starts_split(b, q + a1.len() + a2.len(), a3, a4 + z, e);
    assert(a4 + z + e =~= a4 + z);
    lemma_starts_split(b, q + a1.len() + a2.len() + a3.len(), a4, z, e);
    lemma_starts_bytes(b, q + a1.len() + a2.len() + a3.len() + a4.len(), z, e);
    assert(b[q + a1.len() + a2.len() + a3.len() + a4.len() + 0] == z[0]);
    assert((a3 + (a4 + z))[0] == a3[0]);
    assert((a4 + z)[0] == a4[0]);
}

/// Where the members of a close request stand, from `q` on.
proof fn lemma_close_members(b: Seq<u8>, q: int, name: Seq<char>, signal: Option<i32>)
    requires
        starts(b, q, close_tail(name, signal), Seq::<u8>::empty()),
    ensures
        starts(b, q, smember("name"@, name), optional_int("signal"@, signal) + (seq![125u8] + Seq::<u8>::empty())),
        signal is None ==> q + smember("name"@, name).len() + 1 == b.len() && b[q + smember("name"@, name).len()] == 125,
        signal matches Some(v) ==> b[q + smember("name"@, name).len()] == 44
            && starts(b, q + smember("name"@, name).len(), imember("signal"@, v), seq![125u8] + Seq::<u8>::empty())
            && q + smember("name"@, name).len() + imember("signal"@, v).len() + 1 == b.len()
            && b[q + smember("name"@, name).len() + imember("signal"@, v).len()] == 125,
{
    let e = Seq::<u8>::empty();
    let a1 = smember("name"@, name);
    let o = optional_int("signal"@, signal);
    let z = seq![125u8] + e;
    assert(a1 + (o + z) + e =~= a1 + (o + z));
    lemma_starts_split(b, q, a1, o + z, e);
    assert(o + z + e =~= o + z);
    lemma_starts_split(b, q + a1.len(), o, z, e);
    if let Some(v) = signal {
        lemma_starts_bytes(b, q + a1.len(), o, z + e);
        assert(b[q + a1.len() + 0] == o[0]);
        lemma_starts_bytes(b, q + a1.len() + o.len(), z, e);
        assert(b[q + a1.len() + o.len() + 0] == z[0]);
    } else {
        lemma_starts_bytes(b, q + a1.len() + o.len(), z, e);
        assert(b[q + a1.len() + o.len() + 0] == z[0]);
    }
}

impl ControlMessage {
    /// Reads a control frame from the relay. In the compact form that
    /// `encode` writes, it reads back as the message it encodes; in any other
    /// JSON form (members in another order, whitespace, other escapes, a
    /// `null` signal), as the JSON grammar reads it.
    pub fn parse(data: &[u8]) -> (r: Result<ControlMessage, ControlParseError>)
        ensures
            r matches Ok(m) ==> control_text(m@) == data@ || control_json_reads(data@, m@),
            forall|m: ControlMsg| #[trigger] control_text(m) == data@ ==> (r matches Ok(x) && x@ == m),
            forall|m: ControlMsg| #[trigger] control_json_reads(data@, m) && !(exists|x: ControlMsg| control_text(x) == data@)
                ==> (r matches Ok(y) && y@ == m),
            r matches Err(e) ==> e == ControlParseError::Malformed,
    {
        match Self::parse_compact(data) {
            Ok(m) => Ok(m),
            Err(_) => match control_from_json(data) {
                Some(m) => Ok(m),
                None => Err(ControlParseError::Malformed),
            },
        }
    }

    fn parse_compact(data: &[u8]) -> (r: Result<ControlMessage, ControlParseError>)
        ensures
            r matches Ok(m) ==> control_text(m@) == data@,
            forall|m: ControlMsg| #[trigger] control_text(m) == data@ ==> (r matches Ok(x) && x@ == m),
            r matches Err(e) ==> e == ControlParseError::Malformed,
    {
        proof {
            reveal_strlit("start_terminal");
            reveal_strlit("close_terminal");
            assert("start_terminal"@[0] != "close_terminal"@[0]);
            assert forall|name: Seq<char>, cols: u16, rows: u16, id: Seq<char>|
                #[trigger] start_text(name, cols, rows, id) == data@ implies
                0 < data@.len() && data@[0] == 123
                && starts(data@, 1, key_text("type"@), string_text("start_terminal"@) + start_tail(name, cols, rows, id))
                && starts(data@, (1 + key_text("type"@).len()) as int, string_text("start_terminal"@), start_tail(name, cols, rows, id))
                && starts(data@, (1 + key_text("type"@).len() + string_text("start_terminal"@).len()) as int, start_tail(name, cols, rows, id), Seq::<u8>::empty()) by {
                lemma_start_layout(data@, name, cols, rows, id);
                lemma_head_layout(data@, "start_terminal"@, start_tail(name, cols, rows, id));
            }
            assert forall|name: Seq<char>, signal: Option<i32>|
                #[trigger] close_text(name, signal) == data@ implies
                0 < data@.len() && data@[0] == 123
                && starts(data@, 1, key_text("type"@), string_text("close_terminal"@) + close_tail(name, signal))
                && starts(data@, (1 + key_text("type"@).len()) as int, string_text("close_terminal"@), close_tail(name, signal))
                && starts(data@, (1 + key_text("type"@).len() + string_text("close_terminal"@).len()) as int, close_tail(name, signal), Seq::<u8>::empty()) by {
                lemma_close_layout(data@, name, signal);
                lemma_head_layout(data@, "close_terminal"@, close_tail(name, signal));
            }
        }
        if data.len() == 0 || data[0] != 123 {
            return Err(ControlParseError::Malformed);
        }
        let p1 = match read_key(data, 1, "type") {
            Some(e) => e,
            None => return Err(ControlParseError::Malformed),
        };
        let (tag, p2) = match read_string(data, p1) {
            Some(x) => x,
            None => return Err(ControlParseError::Malformed),
        };
        proof {
            assert(data@.subrange(0, p2 as int) =~= seq![123u8] + data@.subrange(1, p1 as int) + data@.subrange(
                p1 as int,
                p2 as int,
            ));
        }
        if text_equals(tag.as_str(), "start_terminal") {
            Self::parse_start(data, p2)
        } else if text_equals(tag.as_str(), "close_terminal") {
            Self::parse_close(data, p2)
        } else {
            Err(ControlParseError::Malformed)
        }
    }

    #[verifier::rlimit(40)]
    fn parse_start(data: &[u8], q: usize) -> (r: Result<ControlMessage, ControlParseError>)
        requires
            q <= data@.len(),
            data@.subrange(0, q as int) == seq![123u8] + key_text("type"@) + string_text("start_terminal"@),
        ensures
            r matches Ok(m) ==> control_text(m@) == data@,
            forall|name: Seq<char>, cols: u16, rows: u16, id: Seq<char>|
                #[trigger] starts(data@, q as int, start_tail(name, cols, rows, id), Seq::<u8>::empty())
                ==> (r matches Ok(x) && x@ == ControlMsg::Start { name, cols, rows, request_id: id }),
            r matches Err(e) ==> e == ControlParseError::Malformed,
    {
        proof {
            assert forall|name: Seq<char>, cols: u16, rows: u16, id: Seq<char>|
                #[trigger] starts(data@, q as int, start_tail(name, cols, rows, id), Seq::<u8>::empty()) implies
                starts(data@, q as int, smember("name"@, name), umember("cols"@, cols) + (umember("rows"@, rows) + (smember("requestId"@, id) + (seq![125u8] + Seq::<u8>::empty()))))
                && starts(data@, q + smember("name"@, name).len(), umember("cols"@, cols), umember("rows"@, rows) + (smember("requestId"@, id) + (seq![125u8] + Seq::<u8>::empty())))
                && !is_digit((umember("rows"@, rows) + (smember("requestId"@, id) + (seq![125u8] + Seq::<u8>::empty())))[0])
                && starts(data@, q + smember("name"@, name).len() + umember("cols"@, cols).len(), umember("rows"@, rows), smember("requestId"@, id) + (seq![125u8] + Seq::<u8>::empty()))
                && !is_digit((smember("requestId"@, id) + (seq![125u8] + Seq::<u8>::empty()))[0])
                && starts(data@, q + smember("name"@, name).len() + umember("cols"@, cols).len() + umember("rows"@, rows).len(), smember("requestId"@, id), seq![125u8] + Seq::<u8>::empty())
                && q + smember("name"@, name).len() + umember("cols"@, cols).len() + umember("rows"@, rows).len() + smember("requestId"@, id).len() + 1 == data@.len()
                && data@[q + smember("name"@, name).len() + umember("cols"@, cols).len() + umember("rows"@, rows).len() + smember("requestId"@, id).len()] == 125 by {
                lemma_start_members(data@, q as int, name, cols, rows, id);
            }
        }
        let (name, p1) = match read_smember(data, q, "name") {
            Some(x) => x,
            None => return Err(ControlParseError::Malformed),
        };
        let (cols, p2) = match read_umember(data, p1, "cols") {
            Some(x) => x,
            None => return Err(ControlParseError::Malformed),
        };
        let (rows, p3) = match read_umember(data, p2, "rows") {
            Some(x) => x,
            None => return Err(ControlParseError::Malformed),
        };
        let (request_id, p4) = match read_smember(data, p3, "requestId") {
            Some(x) => x,
            None => return Err(ControlParseError::Malformed),
        };
        if p4 >= data.len() || data[p4] != 125 || p4 + 1 != data.len() {
            return Err(ControlParseError::Malformed);
        }
        proof {
            assert(data@ =~= data@.subrange(0, q as int) + data@.subrange(q as int, p1 as int)
                + data@.subrange(p1 as int, p2 as int) + data@.subrange(p2 as int, p3 as int)
                + data@.subrange(p3 as int, p4 as int) + seq![125u8]);
        }
        Ok(ControlMessage::StartTerminal { name, cols, rows, request_id })
    }

    fn parse_close(data: &[u8], q: usize) -> (r: Result<ControlMessage, ControlParseError>)
        requires
            q <= data@.len(),
            data@.subrange(0, q as int) == seq![123u8] + key_text("type"@) + string_text("close_terminal"@),
        ensures
            r matches Ok(m) ==> control_text(m@) == data@,
            forall|name: Seq<char>, signal: Option<i32>|
                #[trigger] starts(data@, q as int, close_tail(name, signal), Seq::<u8>::empty())
                ==> (r matches Ok(x) && x@ == ControlMsg::Close { name, signal }),
            r matches Err(e) ==> e == ControlParseError::Malformed,
    {
        proof {
            assert forall|name: Seq<char>, signal: Option<i32>|
                #[trigger] starts(data@, q as int, close_tail(name, signal), Seq::<u8>::empty()) implies
                starts(data@, q as int, smember("name"@, name), optional_int("signal"@, signal) + (seq![125u8] + Seq::<u8>::empty()))
                && (signal is None ==> q + smember("name"@, name).len() + 1 == data@.len() && data@[q + smember("name"@, name).len()] == 125)
                && (signal matches Some(v) ==> data@[q + smember("name"@, name).len()] == 44
                    && starts(data@, q + smember("name"@, name).len(), imember("signal"@, v), seq![125u8] + Seq::<u8>::empty())
                    && q + smember("name"@, name).len() + imember("signal"@, v).len() + 1 == data@.len()
                    && data@[q + smember("name"@, name).len() + imember("signal"@, v).len()] == 125) by {
                lemma_close_members(data@, q as int, name, signal);
            }
        }
        let (name, p1) = match read_smember(data, q, "name") {
            Some(x) => x,
            None => return Err(ControlParseError::Malformed),
        };
        if p1 < data.len() && data[p1] == 125 {
            if p1 + 1 != data.len() {
                return Err(ControlParseError::Malformed);
            }
            proof {
                assert(data@ =~= data@.subrange(0, q as int) + data@.subrange(q as int, p1 as int)
                    + optional_int("signal"@, None) + seq![125u8]);
            }
            return Ok(ControlMessage::CloseTerminal { name, signal: None });
        }
        let (signal, p2) = match read_imember(data, p1, "signal") {
            Some(x) => x,
            None => return Err(ControlParseError::Malformed),
        };
        if p2 >= data.len() || data[p2] != 125 || p2 + 1 != data.len() {
            return Err(ControlParseError::Malformed);
        }
        proof {
            assert(data@ =~= data@.subrange(0, q as int) + data@.subrange(q as int, p1 as int)
                + data@.subrange(p1 as int, p2 as int) + seq![125u8]);
        }
        Ok(ControlMessage::CloseTerminal { name, signal: Some(signal) })
    }

    /// Reads a control frame from its text.
    pub fn parse_str(data: &str) -> (r: Result<ControlMessage, ControlParseError>)
        ensures
            r matches Ok(m) ==> control_text(m@) == encode_utf8(data@) || control_json_reads(encode_utf8(data@), m@),
            forall|m: ControlMsg| #[trigger] control_text(m) == encode_utf8(data@) ==> (r matches Ok(x) && x@ == m),
            forall|m: ControlMsg| #[trigger] control_json_reads(encode_utf8(data@), m) && !(exists|x: ControlMsg|
                control_text(x) == encode_utf8(data@)) ==> (r matches Ok(y) && y@ == m),
            r matches Err(e) ==> e == ControlParseError::Malformed,
    {
        Self::parse(data.as_bytes())
    }
}

/// Decoding then encoding gives the frame back: a frame that reads as a
/// message is that message's encoding, except that pause and resume ignore
/// whatever follows their tag.
pub proof fn lemma_relay_reencode(b: Seq<u8>, m: RelayMsg)
    requires
        relay_reads(b, m),
        (m is Pause || m is Resume) ==> b.len() == 1,
    ensures
        relay_frame(m) == b,
{
    if m is Pause || m is Resume {
        assert(b =~= relay_frame(m));
    }
}

/// Encoding then decoding gives the message back: an encoded relay frame
/// reads as the message it encodes, and as no other.
pub proof fn lemma_relay_frame_reads(m: RelayMsg)
    ensures
        relay_reads(relay_frame(m), m),
{
    match m {
        RelayMsg::Pause => {
            assert(relay_frame(m)[0] == RELAY_PAUSE);
        },
        RelayMsg::Resume => {
            assert(relay_frame(m)[0] == RELAY_RESUME);
        },
        _ => {},
    }
}

proof fn lemma_member_valid(key: Seq<char>, value: Seq<u8>)
    requires
        valid_utf8(value),
    ensures
        valid_utf8(seq![44u8] + key_text(key) + value),
{
    lemma_ascii_valid(seq![44u8]);
    lemma_key_text_valid(key);
    valid_utf8_concat(seq![44u8], key_text(key));
    valid_utf8_concat(seq![44u8] + key_text(key), value);
}

proof fn lemma_members_valid(key: Seq<char>, t: Seq<char>, n: u16, i: i32, b: bool)
    ensures
        valid_utf8(smember(key, t)),
        valid_utf8(umember(key, n)),
        valid_utf8(imember(key, i)),
        valid_utf8(bmember(key, b)),
{
    lemma_string_text_valid(t);
    lemma_member_valid(key, string_text(t));
    lemma_number_ascii(n as nat, i as int);
    lemma_ascii_valid(uint_text(n as nat));
    lemma_ascii_valid(int_text(i as int));
    lemma_member_valid(key, uint_text(n as nat));
    lemma_member_valid(key, int_text(i as int));
    assert(all_ascii(bool_text(b)));
    lemma_ascii_valid(bool_text(b));
    lemma_member_valid(key, bool_text(b));
}

/// The head `{"type":"tag"` of a control frame is valid UTF-8.
proof fn lemma_head_valid(tag: Seq<char>)
    ensures
        valid_utf8(seq![123u8] + key_text("type"@) + string_text(tag)),
{
    lemma_ascii_valid(seq![123u8]);
    lemma_key_text_valid("type"@);
    lemma_string_text_valid(tag);
    valid_utf8_concat(seq![123u8], key_text("type"@));
    valid_utf8_concat(seq![123u8] + key_text("type"@), string_text(tag));
}

/// Every control response is valid UTF-8 text.
pub proof fn lemma_response_valid(m: ControlResp)
    ensures
        valid_utf8(response_text(m)),
{
    let close = seq![125u8];
    lemma_ascii_valid(close);
    match m {
        ControlResp::Handshake { version, hostname, username, working_dir } => {
            let h = seq![123u8] + key_text("type"@) + string_text("control_handshake"@);
            lemma_head_valid("control_handshake"@);
            lemma_members_valid("version"@, version, 0, 0, true);
            lemma_members_valid("hostname"@, hostname, 0, 0, true);
            lemma_members_valid("username"@, username, 0, 0, true);
            lemma_members_valid("workingDir"@, working_dir, 0, 0, true);
            let a = h + smember("version"@, version);
            let b = a + smember("hostname"@, hostname);
            let c = b + smember("username"@, username);
            let d = c + smember("workingDir"@, working_dir);
            valid_utf8_concat(h, smember("version"@, version));
            valid_utf8_concat(a, smember("hostname"@, hostname));
            valid_utf8_concat(b, smember("username"@, username));
            valid_utf8_concat(c, smember("workingDir"@, working_dir));
            valid_utf8_concat(d, close);
        },
        ControlResp::Started { name, request_id, success, error } => {
            let h = seq![123u8] + key_text("type"@) + string_text("terminal_started"@);
            lemma_head_valid("terminal_started"@);
            lemma_members_valid("name"@, name, 0, 0, success);
            lemma_members_valid("requestId"@, request_id, 0, 0, success);
            lemma_members_valid("success"@, name, 0, 0, success);
            let o = optional_string("error"@, error);
            match error {
                Some(t) => lemma_members_valid("error"@, t, 0, 0, true),
                None => lemma_ascii_valid(o),
            }
            let a = h + smember("name"@, name);
            let b = a + smember("requestId"@, request_id);
            let c = b + bmember("success"@, success);
            let d = c + o;
            valid_utf8_concat(h, smember("name"@, name));
            valid_utf8_concat(a, smember("requestId"@, request_id));
            valid_utf8_concat(b, bmember("success"@, success));
            valid_utf8_concat(c, o);
            valid_utf8_concat(d, close);
        },
        ControlResp::Closed { name, exit_code } => {
            let h = seq![123u8] + key_text("type"@) + string_text("terminal_closed"@);
            lemma_head_valid("terminal_closed"@);
            lemma_members_valid("name"@, name, 0, exit_code, true);
            lemma_members_valid("exitCode"@, name, 0, exit_code, true);
            let a = h + smember("name"@, name);
            let b = a + imember("exitCode"@, exit_code);
            valid_utf8_concat(h, smember("name"@, name));
            valid_utf8_concat(a, imember("exitCode"@, exit_code));
            valid_utf8_concat(b, close);
        },
    }
}

// ---------------------------------------------------------------------------
// Frames in any JSON form
// ---------------------------------------------------------------------------

/// The UTF-8 of a member name.
pub open spec fn name(k: Seq<char>) -> Seq<u8> {
    encode_utf8(k)
}

/// A member value as a 16-bit number.
pub open spec fn u16_of(v: Option<JsonScalar>) -> Option<u16> {
    match v {
        Some(JsonScalar::Int(i)) => if 0 <= i <= 65535 { Some(i as u16) } else { None },
        _ => None,
    }
}

/// A member value as text: a string whose bytes are UTF-8.
pub open spec fn text_of(v: Option<JsonScalar>) -> Option<Seq<char>> {
    match v {
        Some(JsonScalar::Str(s)) => if valid_utf8(s) { Some(decode_utf8(s)) } else { None },
        _ => None,
    }
}

/// A member value as an optional signal: absent or `null`, or a 32-bit number.
pub open spec fn signal_of(v: Option<JsonScalar>) -> Option<Option<i32>> {
    match v {
        None => Some(None),
        Some(JsonScalar::Null) => Some(None),
        Some(JsonScalar::Int(i)) => if i32::MIN <= i <= i32::MAX { Some(Some(i as i32)) } else { None },
        _ => None,
    }
}

/// The resize that an object's members say: exactly `cols` and `rows`.
pub open spec fn resize_members(ms: Seq<(Seq<u8>, JsonScalar)>) -> Option<RelayMsg> {
    if distinct_keys(ms) && keys_within(ms, seq![name("cols"@), name("rows"@)]) {
        match (u16_of(lookup(ms, name("cols"@))), u16_of(lookup(ms, name("rows"@)))) {
            (Some(c), Some(r)) => Some(RelayMsg::Resize(c, r)),
            _ => None,
        }
    } else {
        None
    }
}

/// The snapshot request that an object's members say: exactly `requestId`.
pub open spec fn snapshot_request_members(ms: Seq<(Seq<u8>, JsonScalar)>) -> Option<RelayMsg> {
    if distinct_keys(ms) && keys_within(ms, seq![name("requestId"@)]) {
        match text_of(lookup(ms, name("requestId"@))) {
            Some(id) => Some(RelayMsg::RequestSnapshot(id)),
            None => None,
        }
    } else {
        None
    }
}

/// The control request that an object's members say: a start request with
/// exactly `type`, `name`, `cols`, `rows` and `requestId`, or a close request
/// with `type`, `name` and an optional `signal`.
pub open spec fn control_members(ms: Seq<(Seq<u8>, JsonScalar)>) -> Option<ControlMsg> {
    match text_of(lookup(ms, name("type"@))) {
        Some(t) => if t == "start_terminal"@ {
            if distinct_keys(ms) && keys_within(
                ms,
                seq![name("type"@), name("name"@), name("cols"@), name("rows"@), name("requestId"@)],
            ) {
                match (
                    text_of(lookup(ms, name("name"@))),
                    u16_of(lookup(ms, name("cols"@))),
                    u16_of(lookup(ms, name("rows"@))),
                    text_of(lookup(ms, name("requestId"@))),
                ) {
                    (Some(n), Some(c), Some(r), Some(id)) => Some(
                        ControlMsg::Start { name: n, cols: c, rows: r, request_id: id },
                    ),
                    _ => None,
                }
            } else {
                None
            }
        } else if t == "close_terminal"@ {
            if distinct_keys(ms) && keys_within(ms, seq![name("type"@), name("name"@), name("signal"@)]) {
                match (text_of(lookup(ms, name("name"@))), signal_of(lookup(ms, name("signal"@)))) {
                    (Some(n), Some(sig)) => Some(ControlMsg::Close { name: n, signal: sig }),
                    _ => None,
                }
            } else {
                None
            }
        } else {
            None
        },
        None => None,
    }
}

/// Whether the JSON grammar reads the payload of data frame `b` as `m`.
pub open spec fn relay_json_reads(b: Seq<u8>, m: RelayMsg) -> bool {
    &&& b.len() > 0
    &&& object_members(b.drop_first()) matches Some(ms)
    &&& (b[0] == RELAY_RESIZE && resize_members(ms) == Some(m)
        || b[0] == RELAY_REQUEST_SNAPSHOT && snapshot_request_members(ms) == Some(m))
}

/// Whether the JSON grammar reads control frame `b` as `m`.
pub open spec fn control_json_reads(b: Seq<u8>, m: ControlMsg) -> bool {
    object_members(b) matches Some(ms) && control_members(ms) == Some(m)
}

fn member_u16(ms: &Vec<(Vec<u8>, JsonValue)>, key: &str) -> (r: Option<u16>)
    ensures
        r == u16_of(lookup(members_view(ms@), name(key@))),
{
    match find_member(ms, key) {
        Some(i) => match &ms[i].1 {
            JsonValue::Int(v) => if 0 <= *v && *v <= 65535 {
                Some(*v as u16)
            } else {
                None
            },
            _ => None,
        },
        None => None,
    }
}

fn member_text(ms: &Vec<(Vec<u8>, JsonValue)>, key: &str) -> (r: Option<String>)
    ensures
        opt_view(r) == text_of(lookup(members_view(ms@), name(key@))),
{
    match find_member(ms, key) {
        Some(i) => match &ms[i].1 {
            JsonValue::Str(bytes) => {
                let copy = bytes_from(bytes.as_slice(), 0);
                assert(copy@ =~= bytes@);
                crate::json::string_from_utf8(copy)
            },
            _ => None,
        },
        None => None,
    }
}

fn member_signal(ms: &Vec<(Vec<u8>, JsonValue)>, key: &str) -> (r: Option<Option<i32>>)
    ensures
        r == signal_of(lookup(members_view(ms@), name(key@))),
{
    match find_member(ms, key) {
        Some(i) => match &ms[i].1 {
            JsonValue::Null => Some(None),
            JsonValue::Int(v) => if -2147483648 <= *v && *v <= 2147483647 {
                Some(Some(*v as i32))
            } else {
                None
            },
            _ => None,
        },
        None => Some(None),
    }
}

/// A resize payload in any JSON form.
fn resize_from_json(payload: &[u8]) -> (r: Option<ResizeMessage>)
    ensures
        match r {
            Some(m) => object_members(payload@) matches Some(ms) && resize_members(ms) == Some(
                RelayMsg::Resize(m.cols, m.rows),
            ),
            None => !(object_members(payload@) matches Some(ms) && resize_members(ms) is Some),
        },
{
    let ms = match read_object(payload) {
        Some(ms) => ms,
        None => return None,
    };
    let allowed: [&str; 2] = ["cols", "rows"];
    assert(names_bytes(allowed@) =~= seq![name("cols"@), name("rows"@)]);
    if !check_keys(&ms, &allowed) {
        return None;
    }
    match (member_u16(&ms, "cols"), member_u16(&ms, "rows")) {
        (Some(cols), Some(rows)) => Some(ResizeMessage { cols, rows }),
        _ => None,
    }
}

/// A snapshot request payload in any JSON form.
fn snapshot_request_from_json(payload: &[u8]) -> (r: Option<SnapshotRequest>)
    ensures
        match r {
            Some(q) => object_members(payload@) matches Some(ms) && snapshot_request_members(ms) == Some(
                RelayMsg::RequestSnapshot(q.request_id@),
            ),
            None => !(object_members(payload@) matches Some(ms) && snapshot_request_members(ms) is Some),
        },
{
    let ms = match read_object(payload) {
        Some(ms) => ms,
        None => return None,
    };
    let allowed: [&str; 1] = ["requestId"];
    assert(names_bytes(allowed@) =~= seq![name("requestId"@)]);
    if !check_keys(&ms, &allowed) {
        return None;
    }
    match member_text(&ms, "requestId") {
        Some(request_id) => Some(SnapshotRequest { request_id }),
        None => None,
    }
}

/// A control request in any JSON form.
fn control_from_json(data: &[u8]) -> (r: Option<ControlMessage>)
    ensures
        match r {
            Some(m) => control_json_reads(data@, m@),
            None => !(object_members(data@) matches Some(ms) && control_members(ms) is Some),
        },
{
    let ms = match read_object(data) {
        Some(ms) => ms,
        None => return None,
    };
    let kind = match member_text(&ms, "type") {
        Some(t) => t,
        None => return None,
    };
    if text_equals(kind.as_str(), "start_terminal") {
        let allowed: [&str; 5] = ["type", "name", "cols", "rows", "requestId"];
        assert(names_bytes(allowed@) =~= seq![name("type"@), name("name"@), name("cols"@), name("rows"@), name("requestId"@)]);
        if !check_keys(&ms, &allowed) {
            return None;
        }
        match (member_text(&ms, "name"), member_u16(&ms, "cols"), member_u16(&ms, "rows"), member_text(&ms, "requestId")) {
            (Some(name), Some(cols), Some(rows), Some(request_id)) => Some(
                ControlMessage::StartTerminal { name, cols, rows, request_id },
            ),
            _ => None,
        }
    } else if text_equals(kind.as_str(), "close_terminal") {
        let allowed: [&str; 3] = ["type", "name", "signal"];
        assert(names_bytes(allowed@) =~= seq![name("type"@), name("name"@), name("signal"@)]);
        if !check_keys(&ms, &allowed) {
            return None;
        }
        match (member_text(&ms, "name"), member_signal(&ms, "signal")) {
            (Some(name), Some(signal)) => Some(ControlMessage::CloseTerminal { name, signal }),
            _ => None,
        }
    } else {
        None
    }
}

} // verus!
