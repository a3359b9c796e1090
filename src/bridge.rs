//! The per-terminal bridge between the PTY and the data channel.
//!
//! The bridge decides what each event means: output from the PTY is fed to
//! the terminal emulator and relayed or held back while paused; frames from
//! the relay become writes to the PTY, resizes, a flush of the held output, or
//! a snapshot. The caller performs the I/O that the returned action names.
use vstd::prelude::*;
use crate::protocol::{ClientMessage, ClientMsg, RelayMessage, RelayMsg, SnapshotMessage};

verus! {

#[verifier::external_type_specification]
#[verifier::external_body]
pub struct ExParser(vt100::Parser);

/// The narrowest emulator screen: a double-width character needs two columns,
/// and vt100 panics when one lands on a screen that is one column wide.
pub const MIN_EMULATOR_COLS: u16 = 2;

/// Scrollback lines kept by the emulator: none, only the screen is snapshotted.
pub const EMULATOR_SCROLLBACK: usize = 0;

/// Relies on `vt100::Parser::new`: an emulator of the given size. A zero
/// height makes it panic, and a one-column screen panics on wide characters,
/// so the height is at least one and the width at least two.
#[verifier::external_body]
fn emulator_new(rows: u16, cols: u16, scrollback: usize) -> vt100::Parser
    requires
        rows >= 1,
        cols >= MIN_EMULATOR_COLS,
{
    vt100::Parser::new(rows, cols, scrollback)
}

/// Relies on `vt100::Parser::process`: feeds bytes to the emulator. A
/// one-column screen panics on wide characters, so `width`, the width the
/// emulator was given, is at least two.
#[verifier::external_body]
fn emulator_process(parser: &mut vt100::Parser, bytes: &[u8], width: u16)
    requires
        width >= MIN_EMULATOR_COLS,
{
    parser.process(bytes)
}

/// Relies on `vt100::Parser::set_size`: resizes the emulator's screens. A zero
/// height makes it panic, and a one-column screen panics on wide characters,
/// so the height is at least one and the width at least two.
#[verifier::external_body]
fn emulator_set_size(parser: &mut vt100::Parser, rows: u16, cols: u16)
    requires
        rows >= 1,
        cols >= MIN_EMULATOR_COLS,
{
    parser.set_size(rows, cols)
}

/// Relies on `vt100::Screen::contents_formatted`: the visible screen with the
/// escape sequences that reproduce it.
#[verifier::external_body]
fn emulator_contents(parser: &vt100::Parser) -> (r: Vec<u8>)
    ensures
        r@.len() <= isize::MAX,
{
    parser.screen().contents_formatted()
}

/// Relies on `vt100::Screen::cursor_position`: the cursor as (row, column).
#[verifier::external_body]
fn emulator_cursor(parser: &vt100::Parser) -> (r: (u16, u16)) {
    parser.screen().cursor_position()
}

/// The bytes of a sequence of chunks, in order.
pub open spec fn flatten(chunks: Seq<Seq<u8>>) -> Seq<u8>
    decreases chunks.len(),
{
    if chunks.len() == 0 {
        seq![]
    } else {
        flatten(chunks.drop_last()) + chunks.last()
    }
}

/// One output frame per chunk, in order.
pub open spec fn outputs_of(chunks: Seq<Seq<u8>>) -> Seq<ClientMsg> {
    chunks.map_values(|c: Seq<u8>| ClientMsg::Output(c))
}

/// Whether every message is output.
pub open spec fn all_output(msgs: Seq<ClientMsg>) -> bool {
    forall|i: int| 0 <= i < msgs.len() ==> #[trigger] msgs[i] is Output
}

/// The payloads of the output messages, in order.
pub open spec fn output_bytes(msgs: Seq<ClientMsg>) -> Seq<u8>
    decreases msgs.len(),
{
    if msgs.len() == 0 {
        seq![]
    } else {
        output_bytes(msgs.drop_last()) + match msgs.last() {
            ClientMsg::Output(d) => d,
            _ => seq![],
        }
    }
}

pub open spec fn chunk_views(v: Seq<Vec<u8>>) -> Seq<Seq<u8>> {
    v.map_values(|c: Vec<u8>| c@)
}

pub open spec fn message_views(v: Seq<ClientMessage>) -> Seq<ClientMsg> {
    v.map_values(|m: ClientMessage| m@)
}

/// What the caller does after a frame from the relay.
#[derive(Clone, Debug)]
pub enum BridgeAction {
    /// Write the bytes to the PTY.
    WritePty(Vec<u8>),
    /// Resize the PTY to exactly these dimensions.
    ResizePty { cols: u16, rows: u16 },
    /// Send these frames to the relay, in order.
    Send(Vec<ClientMessage>),
    /// Nothing to do.
    Nothing,
}

/// The exit code reported for a child: 0 when it succeeded, 1 otherwise.
pub fn exit_code(success: bool) -> (r: i32)
    ensures
        r == (if success { 0i32 } else { 1i32 }),
{
    if success {
        0
    } else {
        1
    }
}

/// A snapshot answer. The emulator gives the cursor as (row, column); the
/// frame carries it as x = column, y = row.
pub fn snapshot_from(
    request_id: String,
    screen: Vec<u8>,
    cols: u16,
    rows: u16,
    cursor: (u16, u16),
) -> (r: SnapshotMessage)
    ensures
        r.request_id@ == request_id@,
        r.screen@ == screen@,
        r.cols == cols,
        r.rows == rows,
        r.cursor_x == cursor.1,
        r.cursor_y == cursor.0,
{
    SnapshotMessage { request_id, screen, cols, rows, cursor_x: cursor.1, cursor_y: cursor.0 }
}

/// One terminal's bridge state: the pause flag, the output held back while
/// paused, and the emulator that tracks the screen.
pub struct Bridge {
    paused: bool,
    backlog: Vec<Vec<u8>>,
    cols: u16,
    rows: u16,
    parser: vt100::Parser,
    from_pty: Ghost<Seq<u8>>,
    relayed: Ghost<Seq<u8>>,
    emulated: Ghost<Seq<u8>>,
}

impl Bridge {
    pub closed spec fn spec_paused(&self) -> bool {
        self.paused
    }

    /// The output held back, oldest first.
    pub closed spec fn spec_backlog(&self) -> Seq<Seq<u8>> {
        chunk_views(self.backlog@)
    }

    /// Everything the PTY has produced, in order.
    pub closed spec fn spec_from_pty(&self) -> Seq<u8> {
        self.from_pty@
    }

    /// Everything handed out as output frames, in order.
    pub closed spec fn spec_relayed(&self) -> Seq<u8> {
        self.relayed@
    }

    /// Everything fed to the emulator, in order.
    pub closed spec fn spec_emulated(&self) -> Seq<u8> {
        self.emulated@
    }

    /// The emulator's width.
    pub closed spec fn spec_cols(&self) -> u16 {
        self.cols
    }

    /// The emulator's height.
    pub closed spec fn spec_rows(&self) -> u16 {
        self.rows
    }

    /// The output relayed so far followed by the output held back is exactly
    /// what the PTY produced; nothing is held back unless paused.
    pub closed spec fn wf(&self) -> bool {
        &&& self.from_pty@ == self.relayed@ + flatten(chunk_views(self.backlog@))
        &&& !self.paused ==> self.backlog@.len() == 0
        &&& self.emulated@ == self.from_pty@
        &&& self.cols >= MIN_EMULATOR_COLS
        &&& self.rows >= 1
    }

    /// A bridge for a terminal of the given size, not paused. The emulator is
    /// at least two columns wide and one row high.
    pub fn new(cols: u16, rows: u16) -> (r: Self)
        ensures
            r.wf(),
            !r.spec_paused(),
            r.spec_backlog() == Seq::<Seq<u8>>::empty(),
            r.spec_cols() == (if cols < MIN_EMULATOR_COLS { MIN_EMULATOR_COLS } else { cols }),
            r.spec_rows() == (if rows == 0 { 1 } else { rows }),
            r.spec_from_pty() == Seq::<u8>::empty(),
            r.spec_relayed() == Seq::<u8>::empty(),
            r.spec_emulated() == Seq::<u8>::empty(),
    {
        let c: u16 = if cols < MIN_EMULATOR_COLS {
            MIN_EMULATOR_COLS
        } else {
            cols
        };
        let w: u16 = if rows == 0 {
            1
        } else {
            rows
        };
        let b = Bridge {
            paused: false,
            backlog: Vec::new(),
            cols: c,
            rows: w,
            parser: emulator_new(w, c, EMULATOR_SCROLLBACK),
            from_pty: Ghost(Seq::empty()),
            relayed: Ghost(Seq::empty()),
            emulated: Ghost(Seq::empty()),
        };
        assert(chunk_views(b.backlog@) =~= Seq::<Seq<u8>>::empty());
        assert(b.relayed@ + flatten(Seq::<Seq<u8>>::empty()) =~= Seq::<u8>::empty());
        b
    }

    /// Whether output is being held back.
    pub fn is_paused(&self) -> (r: bool)
        ensures
            r == self.spec_paused(),
    {
        self.paused
    }

    /// The emulator's size as (cols, rows).
    pub fn size(&self) -> (r: (u16, u16))
        ensures
            r == (self.spec_cols(), self.spec_rows()),
    {
        (self.cols, self.rows)
    }

    /// A chunk of PTY output: the emulator always sees it; it is relayed as
    /// an output frame, or held back while paused.
    pub fn on_pty_output(&mut self, chunk: Vec<u8>) -> (r: Option<ClientMessage>)
        requires
            old(self).wf(),
        ensures
            final(self).wf(),
            final(self).spec_from_pty() == old(self).spec_from_pty() + chunk@,
            final(self).spec_emulated() == old(self).spec_emulated() + chunk@,
            final(self).spec_paused() == old(self).spec_paused(),
            final(self).spec_cols() == old(self).spec_cols(),
            final(self).spec_rows() == old(self).spec_rows(),
            old(self).spec_paused() ==> r is None && final(self).spec_backlog() == old(
                self,
            ).spec_backlog().push(chunk@) && final(self).spec_relayed() == old(self).spec_relayed(),
            !old(self).spec_paused() ==> (r matches Some(m) && m@ == ClientMsg::Output(chunk@))
                && final(self).spec_backlog() == old(self).spec_backlog() && final(self).spec_relayed()
                == old(self).spec_relayed() + chunk@,
    {
        emulator_process(&mut self.parser, chunk.as_slice(), self.cols);
        let ghost c = chunk@;
        let ghost old_backlog = chunk_views(self.backlog@);
        proof {
            self.from_pty@ = self.from_pty@ + c;
            self.emulated@ = self.emulated@ + c;
        }
        if self.paused {
            self.backlog.push(chunk);
            proof {
                assert(chunk_views(self.backlog@) =~= old_backlog.push(c));
                assert(chunk_views(self.backlog@).drop_last() =~= old_backlog);
                assert(self.from_pty@ =~= self.relayed@ + flatten(chunk_views(self.backlog@)));
            }
            None
        } else {
            proof {
                self.relayed@ = self.relayed@ + c;
                assert(old_backlog =~= Seq::<Seq<u8>>::empty());
                assert(self.from_pty@ =~= self.relayed@ + flatten(chunk_views(self.backlog@)));
            }
            Some(ClientMessage::Output(chunk))
        }
    }

    /// Clears the pause flag and hands out the held-back output, oldest first.
    fn drain_backlog(&mut self) -> (r: Vec<ClientMessage>)
        requires
            old(self).wf(),
        ensures
            final(self).wf(),
            !final(self).spec_paused(),
            final(self).spec_backlog() == Seq::<Seq<u8>>::empty(),
            all_output(message_views(r@)),
            output_bytes(message_views(r@)) == flatten(old(self).spec_backlog()),
            message_views(r@) == outputs_of(old(self).spec_backlog()),
            final(self).spec_relayed() == old(self).spec_relayed() + flatten(old(self).spec_backlog()),
            final(self).spec_from_pty() == old(self).spec_from_pty(),
            final(self).spec_emulated() == old(self).spec_emulated(),
            final(self).spec_cols() == old(self).spec_cols(),
            final(self).spec_rows() == old(self).spec_rows(),
    {
        let mut pending: Vec<Vec<u8>> = Vec::new();
        std::mem::swap(&mut pending, &mut self.backlog);
        let ghost all = chunk_views(pending@);
        let mut out: Vec<ClientMessage> = Vec::new();
        let ghost mut taken: int = 0;
        while pending.len() > 0
            invariant
                0 <= taken <= all.len(),
                chunk_views(pending@) == all.subrange(taken, all.len() as int),
                all_output(message_views(out@)),
                output_bytes(message_views(out@)) == flatten(all.subrange(0, taken)),
                message_views(out@) == outputs_of(all.subrange(0, taken)),
            decreases pending@.len(),
        {
            let ghost prev = pending@;
            let chunk = pending.remove(0);
            proof {
                assert(chunk_views(prev).len() == prev.len());
                assert(all.subrange(taken, all.len() as int).len() == prev.len());
                assert(taken < all.len());
                assert(chunk_views(prev)[0] == all.subrange(taken, all.len() as int)[0]);
                assert(chunk == prev[0]);
                assert(chunk@ == all[taken]);
                assert(pending@ =~= prev.subrange(1, prev.len() as int));
                assert forall|i: int| 0 <= i < pending@.len() implies #[trigger] chunk_views(pending@)[i]
                    == all[taken + 1 + i] by {
                    assert(chunk_views(prev)[i + 1] == all.subrange(taken, all.len() as int)[i + 1]);
                }
                assert(chunk_views(pending@) =~= all.subrange(taken + 1, all.len() as int));
                assert(all.subrange(0, taken + 1).drop_last() =~= all.subrange(0, taken));
            }
            let ghost before = message_views(out@);
            out.push(ClientMessage::Output(chunk));
            proof {
                assert(message_views(out@) =~= before.push(ClientMsg::Output(all[taken])));
                assert(message_views(out@).drop_last() =~= before);
                assert(message_views(out@) =~= outputs_of(all.subrange(0, taken + 1)));
                taken = taken + 1;
            }
        }
        proof {
            assert(all.subrange(0, taken) =~= all);
            self.relayed@ = self.relayed@ + flatten(all);
            assert(chunk_views(self.backlog@) =~= Seq::<Seq<u8>>::empty());
            assert(self.relayed@ + flatten(Seq::<Seq<u8>>::empty()) =~= self.relayed@);
        }
        self.paused = false;
        out
    }

    /// A snapshot of the screen for `request_id`; the bridge state is left as it is.
    pub fn create_snapshot(&self, request_id: String) -> (r: SnapshotMessage)
        ensures
            r.request_id@ == request_id@,
            r.cols == self.spec_cols(),
            r.rows == self.spec_rows(),
            r.screen@.len() <= isize::MAX,
    {
        let screen = emulator_contents(&self.parser);
        let cursor = emulator_cursor(&self.parser);
        snapshot_from(request_id, screen, self.cols, self.rows, cursor)
    }

    /// A frame from the relay: input goes to the PTY; a resize goes to the
    /// PTY exactly as asked and to the emulator when it leaves the emulator at
    /// least two columns wide and one row high;
    /// pause holds output back; resume releases the held output in order; a
    /// snapshot request is answered from the emulator.
    pub fn on_relay_message(&mut self, msg: RelayMessage) -> (r: BridgeAction)
        requires
            old(self).wf(),
        ensures
            final(self).wf(),
            final(self).spec_from_pty() == old(self).spec_from_pty(),
            final(self).spec_emulated() == old(self).spec_emulated(),
            msg@ matches RelayMsg::Input(d) ==> (r matches BridgeAction::WritePty(w) && w@ == d)
                && *final(self) == *old(self),
            msg@ matches RelayMsg::Resize(c, w) ==> r == (BridgeAction::ResizePty { cols: c, rows: w })
                && final(self).spec_paused() == old(self).spec_paused()
                && final(self).spec_backlog() == old(self).spec_backlog()
                && final(self).spec_relayed() == old(self).spec_relayed()
                && final(self).spec_cols() == (if c >= MIN_EMULATOR_COLS && w >= 1 { c } else { old(self).spec_cols() })
                && final(self).spec_rows() == (if c >= MIN_EMULATOR_COLS && w >= 1 { w } else { old(self).spec_rows() }),
            msg@ is Pause ==> r is Nothing && final(self).spec_paused()
                && final(self).spec_backlog() == old(self).spec_backlog()
                && final(self).spec_relayed() == old(self).spec_relayed()
                && final(self).spec_cols() == old(self).spec_cols()
                && final(self).spec_rows() == old(self).spec_rows(),
            msg@ is Resume ==> (r matches BridgeAction::Send(v) && all_output(message_views(v@))
                && output_bytes(message_views(v@)) == flatten(old(self).spec_backlog())
                && message_views(v@) == outputs_of(old(self).spec_backlog()))
                && !final(self).spec_paused()
                && final(self).spec_backlog() == Seq::<Seq<u8>>::empty()
                && final(self).spec_relayed() == old(self).spec_relayed() + flatten(old(self).spec_backlog())
                && final(self).spec_cols() == old(self).spec_cols()
                && final(self).spec_rows() == old(self).spec_rows(),
            msg@ matches RelayMsg::RequestSnapshot(id) ==> (r matches BridgeAction::Send(v) && v@.len() == 1
                && (v@[0] matches ClientMessage::Snapshot(s) && s.request_id@ == id
                && s.cols == old(self).spec_cols() && s.rows == old(self).spec_rows()
                && s.screen@.len() <= isize::MAX))
                && *final(self) == *old(self),
    {
        match msg {
            RelayMessage::Input(data) => BridgeAction::WritePty(data),
            RelayMessage::Resize(size) => {
                if size.cols >= MIN_EMULATOR_COLS && size.rows >= 1 {
                    emulator_set_size(&mut self.parser, size.rows, size.cols);
                    self.cols = size.cols;
                    self.rows = size.rows;
                }
                BridgeAction::ResizePty { cols: size.cols, rows: size.rows }
            },
            RelayMessage::Pause => {
                self.paused = true;
                BridgeAction::Nothing
            },
            RelayMessage::Resume => BridgeAction::Send(self.drain_backlog()),
            RelayMessage::RequestSnapshot(request) => {
                let snapshot = self.create_snapshot(request.request_id);
                let mut v: Vec<ClientMessage> = Vec::new();
                v.push(ClientMessage::Snapshot(snapshot));
                BridgeAction::Send(v)
            },
        }
    }

    /// The step after polling the child, after each event and when the PTY's
    /// output ends: a child that exited ends the run with its exit frame and
    /// whether it succeeded; a running child goes on.
    pub fn exit_step(status: Option<bool>) -> (r: Option<(ClientMessage, bool)>)
        ensures
            status is None ==> r is None,
            status matches Some(success) ==> (r matches Some((m, s)) && s == success
                && m@ == ClientMsg::Exit(if success { 0i32 } else { 1i32 })),
    {
        match status {
            Some(success) => {
                let (m, _) = Self::exit_message(success);
                Some((m, success))
            },
            None => None,
        }
    }

    /// The frame reporting the child's exit, and its code.
    pub fn exit_message(success: bool) -> (r: (ClientMessage, i32))
        ensures
            r.1 == (if success { 0i32 } else { 1i32 }),
            r.0@ == ClientMsg::Exit(r.1),
    {
        let code = exit_code(success);
        (ClientMessage::Exit(code), code)
    }
}

/// Byte order is kept: whenever a bridge is not paused, the payloads of the
/// output frames it has handed out, concatenated, are exactly the bytes the
/// PTY produced, including output held back across a pause and released by
/// the resume.
pub proof fn lemma_output_order(b: &Bridge)
    requires
        b.wf(),
        !b.spec_paused(),
    ensures
        b.spec_relayed() == b.spec_from_pty(),
{
    assert(chunk_views(b.backlog@) =~= Seq::<Seq<u8>>::empty());
    assert(b.relayed@ + flatten(Seq::<Seq<u8>>::empty()) =~= b.relayed@);
}

} // verus!
