//! What the control and data channels do with each frame they read and each
//! command they are given. The caller owns the sockets and the queues and
//! performs the step that these functions return.
use vstd::prelude::*;
use vstd::string::StringExecFns;
use vstd::utf8::*;
use crate::protocol::{
    control_json_reads, control_text, relay_frame, relay_json_reads, relay_reads, response_text, ControlMessage, ControlMsg,
    ControlResp, ControlResponse, RelayMessage, RelayMsg, is_relay_tag,
};

verus! {

/// Reason given in the close frame the agent sends when it shuts a channel down.
pub const CLOSE_REASON: &'static str = "client shutdown";

/// A frame read from a WebSocket, or the end of the stream.
#[derive(Clone, Debug)]
pub enum InboundFrame {
    Text(String),
    Binary(Vec<u8>),
    Ping,
    Pong,
    /// A close frame, with its code if it had one.
    Close(Option<u16>),
    /// A raw frame.
    Raw,
    /// The socket failed.
    Failed,
    /// The stream ended.
    Ended,
}

/// An event of the control channel.
#[derive(Clone, Debug)]
pub enum ControlEvent {
    StartTerminal { name: String, cols: u16, rows: u16, request_id: String },
    CloseTerminal { name: String, signal: Option<i32> },
    Disconnected { close_code: Option<u16>, clean: bool },
}

/// A command for the control channel.
#[derive(Clone, Debug)]
pub enum ControlCommand {
    TerminalStarted { name: String, request_id: String, success: bool, error: Option<String> },
    TerminalClosed { name: String, exit_code: i32 },
    Shutdown,
}

/// What the control channel sends first, and the token it authenticates with.
#[derive(Clone, Debug)]
pub struct HandshakeInfo {
    pub version: String,
    pub hostname: String,
    pub username: String,
    pub working_dir: String,
    pub relay_token: String,
}

/// What the control channel does with a frame it read.
#[derive(Clone, Debug)]
pub enum ControlInbound {
    /// Hand the event to the manager.
    Event(ControlEvent),
    /// Nothing: the frame is not a request (a parse failure keeps the link).
    Skip,
    /// Hand the event to the manager and end the channel.
    Finish(ControlEvent),
}

/// What the data channel does with a frame it read.
#[derive(Clone, Debug)]
pub enum DataInbound {
    /// Hand the message to the bridge.
    Deliver(RelayMessage),
    /// Nothing: the frame is not a message (a parse failure keeps the link).
    Skip,
    /// End the channel: the relay is gone.
    Finish,
}

/// What the control channel does with a command.
#[derive(Clone, Debug)]
pub enum ControlOutbound {
    /// Send this text frame.
    Send(String),
    /// Send a normal close frame with `CLOSE_REASON` and end.
    Close,
    /// End: nobody can send commands any more.
    Stop,
}

/// The event a control request becomes.
pub open spec fn event_matches(e: ControlEvent, m: ControlMsg) -> bool {
    match (e, m) {
        (ControlEvent::StartTerminal { name, cols, rows, request_id }, ControlMsg::Start { name: n, cols: c, rows: w, request_id: id }) =>
            name@ == n && cols == c && rows == w && request_id@ == id,
        (ControlEvent::CloseTerminal { name, signal }, ControlMsg::Close { name: n, signal: s }) =>
            name@ == n && signal == s,
        _ => false,
    }
}

/// What the control channel does with the frame bytes `b` of a text or binary frame.
pub open spec fn control_bytes_step(b: Seq<u8>, r: ControlInbound) -> bool {
    &&& (forall|m: ControlMsg| #[trigger] control_text(m) == b ==> (r matches ControlInbound::Event(e) && event_matches(e, m)))
    &&& (forall|m: ControlMsg| #[trigger] control_json_reads(b, m) && !(exists|x: ControlMsg| control_text(x) == b)
        ==> (r matches ControlInbound::Event(e) && event_matches(e, m)))
    &&& (r matches ControlInbound::Event(e) ==> exists|m: ControlMsg| (control_text(m) == b || control_json_reads(b, m))
        && event_matches(e, m))
    &&& (r is Event || r is Skip)
}

fn event_of(m: ControlMessage) -> (r: ControlEvent)
    ensures
        event_matches(r, m@),
{
    match m {
        ControlMessage::StartTerminal { name, cols, rows, request_id } => ControlEvent::StartTerminal { name, cols, rows, request_id },
        ControlMessage::CloseTerminal { name, signal } => ControlEvent::CloseTerminal { name, signal },
    }
}

fn control_bytes(b: &[u8]) -> (r: ControlInbound)
    ensures
        control_bytes_step(b@, r),
{
    match ControlMessage::parse(b) {
        Ok(m) => {
            let ghost v = m@;
            let e = event_of(m);
            proof {
                assert forall|x: ControlMsg| #[trigger] control_text(x) == b@ implies event_matches(e, x) by {
                    assert(x == v);
                }
                assert forall|x: ControlMsg| #[trigger] control_json_reads(b@, x) && !(exists|y: ControlMsg| control_text(y) == b@)
                    implies event_matches(e, x) by {
                    assert(x == v);
                }
            }
            ControlInbound::Event(e)
        },
        Err(_) => ControlInbound::Skip,
    }
}

/// The control channel's step for a frame it read: requests in text or
/// binary frames become events and anything unreadable is skipped; a close
/// frame ends the channel cleanly, a failure or the end of the stream
/// uncleanly.
pub fn control_inbound(frame: InboundFrame) -> (r: ControlInbound)
    ensures
        frame matches InboundFrame::Text(t) ==> control_bytes_step(encode_utf8(t@), r),
        frame matches InboundFrame::Binary(b) ==> control_bytes_step(b@, r),
        (frame is Ping || frame is Pong || frame is Raw) ==> r is Skip,
        frame matches InboundFrame::Close(code) ==> (r matches ControlInbound::Finish(e) && e == (
        ControlEvent::Disconnected { close_code: code, clean: true })),
        (frame is Failed || frame is Ended) ==> (r matches ControlInbound::Finish(e) && e == (
        ControlEvent::Disconnected { close_code: None, clean: false })),
{
    match frame {
        InboundFrame::Text(t) => control_bytes(t.as_str().as_bytes()),
        InboundFrame::Binary(b) => control_bytes(b.as_slice()),
        InboundFrame::Ping => ControlInbound::Skip,
        InboundFrame::Pong => ControlInbound::Skip,
        InboundFrame::Raw => ControlInbound::Skip,
        InboundFrame::Close(code) => ControlInbound::Finish(ControlEvent::Disconnected { close_code: code, clean: true }),
        InboundFrame::Failed => ControlInbound::Finish(ControlEvent::Disconnected { close_code: None, clean: false }),
        InboundFrame::Ended => ControlInbound::Finish(ControlEvent::Disconnected { close_code: None, clean: false }),
    }
}

/// What the data channel does with the frame bytes `b` of a text or binary frame.
pub open spec fn data_bytes_step(b: Seq<u8>, r: DataInbound) -> bool {
    &&& (b.len() == 0 ==> r is Skip)
    &&& (b.len() > 0 && !is_relay_tag(b[0]) ==> r is Skip)
    &&& (forall|m: RelayMsg| #[trigger] relay_frame(m) == b ==> (r matches DataInbound::Deliver(x) && x@ == m))
    &&& (forall|m: RelayMsg| #[trigger] relay_json_reads(b, m) && !(exists|x: RelayMsg| relay_frame(x) == b)
        ==> (r matches DataInbound::Deliver(x) && x@ == m))
    &&& (r matches DataInbound::Deliver(x) ==> relay_reads(b, x@) || relay_json_reads(b, x@))
    &&& (r is Deliver || r is Skip)
}

fn data_bytes(b: &[u8]) -> (r: DataInbound)
    ensures
        data_bytes_step(b@, r),
{
    match RelayMessage::parse(b) {
        Ok(m) => DataInbound::Deliver(m),
        Err(_) => DataInbound::Skip,
    }
}

/// The data channel's step for a frame it read: messages in binary (or
/// text) frames are delivered and anything unreadable is skipped; a close
/// frame, a failure or the end of the stream ends the channel.
pub fn data_inbound(frame: InboundFrame) -> (r: DataInbound)
    ensures
        frame matches InboundFrame::Text(t) ==> data_bytes_step(encode_utf8(t@), r),
        frame matches InboundFrame::Binary(b) ==> data_bytes_step(b@, r),
        (frame is Ping || frame is Pong || frame is Raw) ==> r is Skip,
        (frame is Close || frame is Failed || frame is Ended) ==> r is Finish,
{
    match frame {
        InboundFrame::Text(t) => data_bytes(t.as_str().as_bytes()),
        InboundFrame::Binary(b) => data_bytes(b.as_slice()),
        InboundFrame::Ping => DataInbound::Skip,
        InboundFrame::Pong => DataInbound::Skip,
        InboundFrame::Raw => DataInbound::Skip,
        InboundFrame::Close(_) => DataInbound::Finish,
        InboundFrame::Failed => DataInbound::Finish,
        InboundFrame::Ended => DataInbound::Finish,
    }
}

/// The value of the `Authorization` header for a bearer token.
pub fn bearer_header(token: &str) -> (r: String)
    ensures
        r@ == "Bearer "@ + token@,
{
    let mut h = "Bearer ".to_owned();
    h.append(token);
    h
}

/// The response a command becomes (shutdown sends none).
pub open spec fn response_of(c: ControlCommand) -> ControlResp {
    match c {
        ControlCommand::TerminalStarted { name, request_id, success, error } => ControlResp::Started {
            name: name@,
            request_id: request_id@,
            success,
            error: crate::protocol::opt_view(error),
        },
        ControlCommand::TerminalClosed { name, exit_code } => ControlResp::Closed { name: name@, exit_code },
        ControlCommand::Shutdown => ControlResp::Closed { name: Seq::empty(), exit_code: 0 },
    }
}

/// The control channel's own record: whether it has greeted the relay, and
/// the frames it has sent, in order.
pub struct ControlSession {
    greeted: bool,
    sent: Ghost<Seq<ControlResp>>,
}

impl ControlSession {
    /// The frames sent so far, in order.
    pub closed spec fn spec_sent(&self) -> Seq<ControlResp> {
        self.sent@
    }

    pub closed spec fn spec_greeted(&self) -> bool {
        self.greeted
    }

    /// The handshake was sent first, if at all, and never again.
    pub closed spec fn wf(&self) -> bool {
        &&& self.greeted <==> self.sent@.len() > 0
        &&& self.greeted ==> self.sent@[0] is Handshake
        &&& forall|i: int| 1 <= i < self.sent@.len() ==> !(#[trigger] self.sent@[i] is Handshake)
    }

    /// A session on a freshly opened link.
    pub fn new() -> (r: Self)
        ensures
            r.wf(),
            !r.spec_greeted(),
            r.spec_sent() == Seq::<ControlResp>::empty(),
    {
        ControlSession { greeted: false, sent: Ghost(Seq::empty()) }
    }

    /// Whether the handshake has been handed out.
    pub fn is_greeted(&self) -> (r: bool)
        ensures
            r == self.spec_greeted(),
    {
        self.greeted
    }

    /// The handshake, the first time only: the first frame on the link.
    pub fn greet(&mut self, info: &HandshakeInfo) -> (r: Option<ControlResponse>)
        requires
            old(self).wf(),
        ensures
            final(self).wf(),
            final(self).spec_greeted(),
            old(self).spec_greeted() ==> r is None && final(self).spec_sent() == old(self).spec_sent(),
            !old(self).spec_greeted() ==> (r matches Some(h) && h@ == (ControlResp::Handshake {
                version: info.version@,
                hostname: info.hostname@,
                username: info.username@,
                working_dir: info.working_dir@,
            })) && final(self).spec_sent() == seq![r->Some_0@],
    {
        if self.greeted {
            return None;
        }
        let h = ControlResponse::ControlHandshake {
            version: info.version.clone(),
            hostname: info.hostname.clone(),
            username: info.username.clone(),
            working_dir: info.working_dir.clone(),
        };
        self.greeted = true;
        proof {
            self.sent@ = seq![h@];
        }
        Some(h)
    }

    /// The step for a command: a response is sent as a text frame; shutdown
    /// closes the link; a closed queue ends the channel. No command ever sends
    /// a handshake.
    pub fn on_command(&mut self, cmd: Option<ControlCommand>) -> (r: ControlOutbound)
        requires
            old(self).wf(),
            old(self).spec_greeted(),
        ensures
            final(self).wf(),
            final(self).spec_greeted(),
            cmd is None ==> r is Stop && final(self).spec_sent() == old(self).spec_sent(),
            cmd matches Some(c) && c is Shutdown ==> r is Close && final(self).spec_sent() == old(self).spec_sent(),
            cmd is Some && !(cmd->Some_0 is Shutdown) ==> (r matches ControlOutbound::Send(s) && encode_utf8(s@)
                == response_text(response_of(cmd->Some_0))) && final(self).spec_sent() == old(self).spec_sent().push(
                response_of(cmd->Some_0),
            ),
    {
        match cmd {
            None => ControlOutbound::Stop,
            Some(ControlCommand::Shutdown) => ControlOutbound::Close,
            Some(ControlCommand::TerminalStarted { name, request_id, success, error }) => self.send_response(
                ControlResponse::TerminalStarted { name, request_id, success, error },
            ),
            Some(ControlCommand::TerminalClosed { name, exit_code }) => self.send_response(
                ControlResponse::TerminalClosed { name, exit_code },
            ),
        }
    }

    fn send_response(&mut self, response: ControlResponse) -> (r: ControlOutbound)
        requires
            old(self).wf(),
            old(self).spec_greeted(),
            !(response@ is Handshake),
        ensures
            final(self).wf(),
            final(self).spec_greeted(),
            (r matches ControlOutbound::Send(s) && encode_utf8(s@) == response_text(response@)),
            final(self).spec_sent() == old(self).spec_sent().push(response@),
    {
        let ghost rv = response@;
        match response.encode() {
            Ok(s) => {
                proof {
                    let old_sent = self.sent@;
                    self.sent@ = self.sent@.push(rv);
                    assert forall|i: int| 1 <= i < self.sent@.len() implies !(#[trigger] self.sent@[i] is Handshake) by {
                        if i < old_sent.len() {
                            assert(self.sent@[i] == old_sent[i]);
                        }
                    }
                }
                ControlOutbound::Send(s)
            },
            Err(_) => {
                proof {
                    assert(false);
                }
                ControlOutbound::Stop
            },
        }
    }
}

/// The control channel carries at most one handshake, and it is the first
/// frame sent.
pub proof fn lemma_handshake_first(s: &ControlSession)
    requires
        s.wf(),
    ensures
        forall|i: int| 0 <= i < s.spec_sent().len() && #[trigger] s.spec_sent()[i] is Handshake ==> i == 0,
        s.spec_sent().len() > 0 ==> s.spec_sent()[0] is Handshake,
{
}

/// The response to a start request: it carries the request's id; on success
/// the new terminal's name, otherwise the requested name and the error.
pub fn terminal_started(requested_name: String, request_id: String, outcome: Result<String, String>) -> (r: ControlCommand)
    ensures
        r matches ControlCommand::TerminalStarted { name, request_id: id, success, error } && id@ == request_id@
            && success == outcome is Ok
            && (outcome matches Ok(n) ==> name@ == n@ && error is None)
            && (outcome matches Err(e) ==> name@ == requested_name@ && (error matches Some(m) && m@ == e@)),
{
    match outcome {
        Ok(name) => ControlCommand::TerminalStarted { name, request_id, success: true, error: None },
        Err(e) => ControlCommand::TerminalStarted { name: requested_name, request_id, success: false, error: Some(e) },
    }
}

/// The notification that a terminal has closed.
pub fn terminal_closed(name: String, exit_code: i32) -> (r: ControlCommand)
    ensures
        r matches ControlCommand::TerminalClosed { name: n, exit_code: c } && n@ == name@ && c == exit_code,
{
    ControlCommand::TerminalClosed { name, exit_code }
}

} // verus!
