//! The set of live terminals, keyed by name.
//!
//! A terminal is named by the decimal process id of its shell. Each entry
//! carries what the caller needs to stop the terminal (its shutdown signal and
//! task); the manager keeps names unique and says exactly how each operation
//! changes the set of live names.
use vstd::prelude::*;
use vstd::string::StringExecFns;
use crate::protocol::{opt_view, HandshakeMessage, text_equals};

verus! {

/// The agent's version, sent in every handshake.
pub const VERSION: &'static str = "0.1.0";

/// Decimal digits of `n`, as text.
pub open spec fn decimal(n: nat) -> Seq<char>
    decreases n,
{
    if n < 10 {
        seq![(48 + n) as char]
    } else {
        decimal(n / 10).push((48 + n % 10) as char)
    }
}

fn digit_text(d: u32) -> (r: &'static str)
    requires
        d < 10,
    ensures
        r@ == seq![(48 + d) as char],
{
    proof {
        reveal_strlit("0");
        reveal_strlit("1");
        reveal_strlit("2");
        reveal_strlit("3");
        reveal_strlit("4");
        reveal_strlit("5");
        reveal_strlit("6");
        reveal_strlit("7");
        reveal_strlit("8");
        reveal_strlit("9");
    }
    let r = match d {
        0 => "0",
        1 => "1",
        2 => "2",
        3 => "3",
        4 => "4",
        5 => "5",
        6 => "6",
        7 => "7",
        8 => "8",
        _ => "9",
    };
    assert(r@ =~= seq![(48 + d) as char]);
    r
}

/// The name of the terminal whose shell has process id `pid`.
pub fn terminal_name(pid: u32) -> (r: String)
    ensures
        r@ == decimal(pid as nat),
    decreases pid,
{
    if pid < 10 {
        digit_text(pid).to_owned()
    } else {
        let mut s = terminal_name(pid / 10);
        s.append(digit_text(pid % 10));
        assert(s@ =~= decimal(pid as nat));
        s
    }
}

/// The last segment of the URL's path, if the URL parses and has a path.
pub uninterp spec fn url_last_segment(url: Seq<char>) -> Option<Seq<char>>;

/// The URL with its path replaced, if the URL parses.
pub uninterp spec fn url_with_path(url: Seq<char>, path: Seq<char>) -> Option<Seq<char>>;

/// Relies on `url::Url::parse` and `Url::path_segments`: the last path
/// segment depends on the URL text alone.
#[verifier::external_body]
fn last_path_segment(url: &str) -> (r: Option<String>)
    ensures
        opt_view(r) == url_last_segment(url@),
{
    let parsed = url::Url::parse(url).ok()?;
    let last = parsed.path_segments()?.last()?;
    Some(last.to_string())
}

/// Relies on `url::Url::parse` and `Url::set_path`: the resulting URL text
/// depends on the URL text and the path alone.
#[verifier::external_body]
fn replace_path(url: &str, path: &str) -> (r: Option<String>)
    ensures
        opt_view(r) == url_with_path(url@, path@),
{
    let mut parsed = url::Url::parse(url).ok()?;
    parsed.set_path(path);
    Some(parsed.into())
}

/// The session a control URL belongs to: its last path segment, or
/// `unknown` when it has none.
pub open spec fn session_of(control_url: Seq<char>) -> Seq<char> {
    match url_last_segment(control_url) {
        Some(s) => s,
        None => "unknown"@,
    }
}

/// `/ws/terminal-data/<session>/<name>`
pub open spec fn data_path(session: Seq<char>, name: Seq<char>) -> Seq<char> {
    "/ws/terminal-data/"@ + session + "/"@ + name
}

/// The data URL of terminal `name` under the control URL.
pub open spec fn data_url_of(control_url: Seq<char>, name: Seq<char>) -> Option<Seq<char>> {
    url_with_path(control_url, data_path(session_of(control_url), name))
}

/// An event from a terminal's task to the agent.
#[derive(Clone, Debug)]
pub enum TerminalEvent {
    /// The terminal closed with this exit code.
    Exited { name: String, exit_code: i32 },
    /// The terminal's task failed.
    Disconnected { name: String },
}

/// Why a terminal could not be registered.
#[derive(Clone, Copy, Debug, PartialEq, Eq, Structural)]
pub enum StartError {
    /// A live terminal already has this name.
    AlreadyExists,
}

/// Why a terminal could not be closed.
#[derive(Clone, Copy, Debug, PartialEq, Eq, Structural)]
pub enum CloseError {
    /// No live terminal has this name.
    NotFound,
}

pub open spec fn entry_names<E>(entries: Seq<(String, E)>) -> Seq<Seq<char>> {
    entries.map_values(|e: (String, E)| e.0@)
}

/// The live terminals and the settings new terminals are started with.
pub struct TerminalManager<E> {
    entries: Vec<(String, E)>,
    base_url: String,
    shell: String,
    shell_args: Vec<String>,
    working_dir: String,
    sandboxed: bool,
}

impl<E> TerminalManager<E> {
    /// The names of the live terminals.
    pub closed spec fn spec_names(&self) -> Set<Seq<char>> {
        entry_names(self.entries@).to_set()
    }

    /// Whether `e` is the entry registered under `name`.
    pub closed spec fn spec_holds(&self, name: Seq<char>, e: E) -> bool {
        exists|i: int| 0 <= i < self.entries@.len() && self.entries@[i].0@ == name && self.entries@[i].1 == e
    }

    pub closed spec fn spec_base_url(&self) -> Seq<char> {
        self.base_url@
    }

    pub closed spec fn spec_shell(&self) -> Seq<char> {
        self.shell@
    }

    pub closed spec fn spec_shell_args(&self) -> Seq<Seq<char>> {
        self.shell_args@.map_values(|a: String| a@)
    }

    pub closed spec fn spec_working_dir(&self) -> Seq<char> {
        self.working_dir@
    }

    pub closed spec fn spec_sandboxed(&self) -> bool {
        self.sandboxed
    }

    /// Names are unique.
    pub closed spec fn wf(&self) -> bool {
        entry_names(self.entries@).no_duplicates()
    }

    /// A manager with no terminals.
    pub fn new(
        base_url: String,
        shell: String,
        shell_args: Vec<String>,
        working_dir: String,
        sandboxed: bool,
    ) -> (r: Self)
        ensures
            r.wf(),
            r.spec_names() == Set::<Seq<char>>::empty(),
            r.spec_base_url() == base_url@,
            r.spec_shell() == shell@,
            r.spec_shell_args() == shell_args@.map_values(|a: String| a@),
            r.spec_working_dir() == working_dir@,
            r.spec_sandboxed() == sandboxed,
    {
        let r = TerminalManager { entries: Vec::new(), base_url, shell, shell_args, working_dir, sandboxed };
        assert(entry_names(r.entries@) =~= Seq::<Seq<char>>::empty());
        assert(entry_names(r.entries@).to_set() =~= Set::<Seq<char>>::empty());
        r
    }

    /// The shell that terminals run.
    pub fn shell(&self) -> (r: &String)
        ensures
            r@ == self.spec_shell(),
    {
        &self.shell
    }

    /// The shell's arguments.
    pub fn shell_args(&self) -> (r: &Vec<String>)
        ensures
            r@.map_values(|a: String| a@) == self.spec_shell_args(),
    {
        &self.shell_args
    }

    /// The directory terminals start in.
    pub fn working_dir(&self) -> (r: &String)
        ensures
            r@ == self.spec_working_dir(),
    {
        &self.working_dir
    }

    /// Whether terminals run sandboxed.
    pub fn sandboxed(&self) -> (r: bool)
        ensures
            r == self.spec_sandboxed(),
    {
        self.sandboxed
    }

    /// The number of live terminals.
    pub fn len(&self) -> (r: usize)
        requires
            self.wf(),
        ensures
            r == self.spec_names().len(),
    {
        proof {
            entry_names(self.entries@).unique_seq_to_set();
        }
        self.entries.len()
    }

    fn find(&self, name: &str) -> (r: Option<usize>)
        ensures
            r matches Some(i) ==> i < self.entries@.len() && self.entries@[i as int].0@ == name@,
            r is None ==> !self.spec_names().contains(name@),
    {
        let mut i: usize = 0;
        while i < self.entries.len()
            invariant
                i <= self.entries@.len(),
                forall|j: int| 0 <= j < i ==> self.entries@[j].0@ != name@,
            decreases self.entries@.len() - i,
        {
            if text_equals(self.entries[i].0.as_str(), name) {
                return Some(i);
            }
            i = i + 1;
        }
        proof {
            if self.spec_names().contains(name@) {
                let k = entry_names(self.entries@).index_of(name@);
                assert(entry_names(self.entries@)[k] == self.entries@[k].0@);
            }
        }
        None
    }

    /// Whether a live terminal has this name.
    pub fn contains(&self, name: &str) -> (r: bool)
        ensures
            r == self.spec_names().contains(name@),
    {
        match self.find(name) {
            Some(i) => {
                assert(entry_names(self.entries@)[i as int] == name@);
                true
            },
            None => false,
        }
    }

    /// The handshake a new terminal sends on its data channel.
    pub fn handshake(&self, cols: u16, rows: u16) -> (r: HandshakeMessage)
        ensures
            r.version@ == VERSION@,
            r.shell@ == self.spec_shell(),
            r.cols == Some(cols),
            r.rows == Some(rows),
    {
        HandshakeMessage { version: VERSION.to_owned(), shell: self.shell.clone(), cols: Some(cols), rows: Some(rows) }
    }

    /// The data URL of terminal `name`: the control URL with its path
    /// replaced by `/ws/terminal-data/<session>/<name>`.
    pub fn data_url(&self, name: &str) -> (r: Option<String>)
        ensures
            opt_view(r) == data_url_of(self.spec_base_url(), name@),
    {
        let session = match last_path_segment(self.base_url.as_str()) {
            Some(s) => s,
            None => "unknown".to_owned(),
        };
        let mut path = "/ws/terminal-data/".to_owned();
        path.append(session.as_str());
        path.append("/");
        path.append(name);
        replace_path(self.base_url.as_str(), path.as_str())
    }

    /// Registers the terminal whose shell has process id `pid` under its
    /// decimal name, or hands the entry back when that name is live.
    pub fn start_terminal(&mut self, pid: u32, entry: E) -> (r: Result<String, (StartError, E)>)
        requires
            old(self).wf(),
        ensures
            final(self).wf(),
            final(self).spec_base_url() == old(self).spec_base_url(),
            final(self).spec_shell() == old(self).spec_shell(),
            old(self).spec_names().contains(decimal(pid as nat)) ==> (r matches Err((err, e)) && err
                == StartError::AlreadyExists && e == entry) && final(self).spec_names() == old(self).spec_names(),
            !old(self).spec_names().contains(decimal(pid as nat)) ==> (r matches Ok(name) && name@ == decimal(
                pid as nat,
            )) && final(self).spec_names() == old(self).spec_names().insert(decimal(pid as nat))
                && final(self).spec_holds(decimal(pid as nat), entry),
            final(self).spec_names() == apply_change(old(self).spec_names(), LiveChange::Start(decimal(pid as nat))),
    {
        let name = terminal_name(pid);
        if self.contains(name.as_str()) {
            return Err((StartError::AlreadyExists, entry));
        }
        let ghost before = entry_names(self.entries@);
        let key = name.clone();
        self.entries.push((key, entry));
        proof {
            assert(entry_names(self.entries@) =~= before.push(name@));
            assert(entry_names(self.entries@).to_set() =~= before.to_set().insert(name@)) by {
                assert forall|x: Seq<char>| entry_names(self.entries@).contains(x) <==> (before.contains(x) || x == name@) by {
                    if entry_names(self.entries@).contains(x) {
                        let k = entry_names(self.entries@).index_of(x);
                        if k < before.len() {
                            assert(before[k] == x);
                        }
                    }
                    if before.contains(x) {
                        let k = before.index_of(x);
                        assert(entry_names(self.entries@)[k] == x);
                    }
                    if x == name@ {
                        assert(entry_names(self.entries@)[before.len() as int] == x);
                    }
                }
            }
            assert forall|a: int, b: int| 0 <= a < b < entry_names(self.entries@).len() implies
                entry_names(self.entries@)[a] != entry_names(self.entries@)[b] by {
                if b == before.len() {
                    assert(before[a] == entry_names(self.entries@)[a]);
                    assert(before.contains(before[a]));
                }
            }
            let last = self.entries@.len() - 1;
            assert(self.entries@[last].0@ == name@ && self.entries@[last].1 == entry);
        }
        Ok(name)
    }

    fn take_at(&mut self, i: usize) -> (r: E)
        requires
            old(self).wf(),
            i < old(self).entries@.len(),
        ensures
            final(self).wf(),
            final(self).spec_names() == old(self).spec_names().remove(old(self).entries@[i as int].0@),
            r == old(self).entries@[i as int].1,
            final(self).entries@.len() == old(self).entries@.len() - 1,
            final(self).base_url == old(self).base_url,
            final(self).shell == old(self).shell,
    {
        let ghost before = entry_names(self.entries@);
        let ghost name = self.entries@[i as int].0@;
        let (_, e) = self.entries.remove(i);
        proof {
            let after = entry_names(self.entries@);
            assert(after =~= before.remove(i as int));
            assert forall|x: Seq<char>| after.contains(x) <==> (before.contains(x) && x != name) by {
                if after.contains(x) {
                    let k = after.index_of(x);
                    if k < i {
                        assert(before[k] == x);
                        assert(before[i as int] == name);
                    } else {
                        assert(before[k + 1] == x);
                        assert(before[i as int] == name);
                    }
                }
                if before.contains(x) && x != name {
                    let k = before.index_of(x);
                    if k < i {
                        assert(after[k] == x);
                    } else {
                        assert(k != i);
                        assert(after[k - 1] == x);
                    }
                }
            }
            assert(after.to_set() =~= before.to_set().remove(name));
            assert forall|a: int, b: int| 0 <= a < b < after.len() implies after[a] != after[b] by {
                let a2 = if a < i { a } else { a + 1 };
                let b2 = if b < i { b } else { b + 1 };
                assert(after[a] == before[a2]);
                assert(after[b] == before[b2]);
            }
        }
        e
    }

    /// Removes the terminal and hands back its entry so that the caller can
    /// signal it; a name that is not live gives `NotFound` and changes nothing.
    pub fn close_terminal(&mut self, name: &str) -> (r: Result<E, CloseError>)
        requires
            old(self).wf(),
        ensures
            final(self).wf(),
            final(self).spec_base_url() == old(self).spec_base_url(),
            final(self).spec_shell() == old(self).spec_shell(),
            final(self).spec_names() == old(self).spec_names().remove(name@),
            final(self).spec_names() == apply_change(old(self).spec_names(), LiveChange::Close(name@)),
            old(self).spec_names().contains(name@) ==> (r matches Ok(e) && old(self).spec_holds(name@, e)),
            !old(self).spec_names().contains(name@) ==> r == Err::<E, CloseError>(CloseError::NotFound)
                && final(self).spec_names() == old(self).spec_names(),
    {
        match self.find(name) {
            Some(i) => {
                let ghost k = i as int;
                assert(entry_names(self.entries@)[k] == name@);
                assert(self.spec_names().contains(name@));
                let e = self.take_at(i);
                assert(old(self).spec_holds(name@, e)) by {
                    assert(old(self).entries@[k].0@ == name@ && old(self).entries@[k].1 == e);
                }
                Ok(e)
            },
            None => {
                assert(self.spec_names().remove(name@) =~= self.spec_names());
                Err(CloseError::NotFound)
            },
        }
    }

    /// Forgets a terminal whose exit has been reported; a name that is not
    /// live changes nothing.
    pub fn remove_terminal(&mut self, name: &str)
        requires
            old(self).wf(),
        ensures
            final(self).wf(),
            final(self).spec_base_url() == old(self).spec_base_url(),
            final(self).spec_shell() == old(self).spec_shell(),
            final(self).spec_names() == old(self).spec_names().remove(name@),
            final(self).spec_names() == apply_change(old(self).spec_names(), LiveChange::Exit(name@)),
            !old(self).spec_names().contains(name@) ==> final(self).spec_names() == old(self).spec_names(),
    {
        let _ = self.close_terminal(name);
    }

    /// Empties the set and hands back every entry, so that the caller can
    /// signal and await each terminal.
    pub fn shutdown_all(&mut self) -> (r: Vec<E>)
        requires
            old(self).wf(),
        ensures
            final(self).wf(),
            final(self).spec_base_url() == old(self).spec_base_url(),
            final(self).spec_shell() == old(self).spec_shell(),
            final(self).spec_names() == Set::<Seq<char>>::empty(),
            r@.len() == old(self).spec_names().len(),
    {
        proof {
            entry_names(self.entries@).unique_seq_to_set();
        }
        let ghost n = self.entries@.len();
        let mut out: Vec<E> = Vec::new();
        while self.entries.len() > 0
            invariant
                self.wf(),
                out@.len() + self.entries@.len() == n,
                self.base_url == old(self).base_url,
                self.shell == old(self).shell,
            decreases self.entries@.len(),
        {
            let last = self.entries.len() - 1;
            let e = self.take_at(last);
            out.push(e);
        }
        assert(entry_names(self.entries@) =~= Seq::<Seq<char>>::empty());
        assert(entry_names(self.entries@).to_set() =~= Set::<Seq<char>>::empty());
        out
    }
}

/// A change to the set of live terminals.
pub enum LiveChange {
    /// A terminal was started under this name.
    Start(Seq<char>),
    /// The relay closed this terminal.
    Close(Seq<char>),
    /// This terminal's shell exited and its exit was reported.
    Exit(Seq<char>),
}

/// The live names after a change, as the manager's operations make it.
pub open spec fn apply_change(live: Set<Seq<char>>, c: LiveChange) -> Set<Seq<char>> {
    match c {
        LiveChange::Start(n) => if live.contains(n) { live } else { live.insert(n) },
        LiveChange::Close(n) => live.remove(n),
        LiveChange::Exit(n) => live.remove(n),
    }
}

/// Whether the change was accepted: a start of a new name, a close or an
/// exit of a live one.
pub open spec fn accepted(live: Set<Seq<char>>, c: LiveChange) -> bool {
    match c {
        LiveChange::Start(n) => !live.contains(n),
        LiveChange::Close(n) => live.contains(n),
        LiveChange::Exit(n) => live.contains(n),
    }
}

/// The live names after a sequence of changes, from none.
pub open spec fn live_after(changes: Seq<LiveChange>) -> Set<Seq<char>>
    decreases changes.len(),
{
    if changes.len() == 0 {
        Set::empty()
    } else {
        apply_change(live_after(changes.drop_last()), changes.last())
    }
}

/// Whether every change in the sequence was accepted when it came.
pub open spec fn all_accepted(changes: Seq<LiveChange>) -> bool
    decreases changes.len(),
{
    changes.len() == 0 || (all_accepted(changes.drop_last()) && accepted(
        live_after(changes.drop_last()),
        changes.last(),
    ))
}

/// The number of accepted starts minus accepted closes and exits.
pub open spec fn net_starts(changes: Seq<LiveChange>) -> int
    decreases changes.len(),
{
    if changes.len() == 0 {
        0
    } else {
        net_starts(changes.drop_last()) + match changes.last() {
            LiveChange::Start(_) => 1int,
            _ => -1int,
        }
    }
}

/// The live set's size is the number of starts minus the number of closes
/// and natural exits, over any sequence of accepted changes.
pub proof fn lemma_live_count(changes: Seq<LiveChange>)
    requires
        all_accepted(changes),
    ensures
        live_after(changes).finite(),
        live_after(changes).len() == net_starts(changes),
    decreases changes.len(),
{
    if changes.len() > 0 {
        lemma_live_count(changes.drop_last());
    }
}

} // verus!
