//! Decisions of the task that supervises one terminal, and of the agent's
//! control loop.
//!
//! The supervisor runs the bridge over a data channel and, when the channel
//! drops while the shell lives, waits and reconnects with backoff. It ends
//! by reporting the terminal closed, with an exit code that says why.
use vstd::prelude::*;
use crate::reconnect::{ReconnectManager, TERMINAL_MAX_MS};

verus! {

/// Why a terminal closed.
pub enum CloseCause {
    /// The shell exited, successfully or not.
    ChildExited(bool),
    /// The relay or the agent asked for the terminal to close.
    UserShutdown,
    /// The data channel dropped and the shell was gone.
    PtyGone,
    /// Reconnection was given up.
    GaveUp,
}

/// The exit code reported when a terminal closes.
pub open spec fn closed_code(c: CloseCause) -> i32 {
    match c {
        CloseCause::ChildExited(success) => if success { 0 } else { 1 },
        CloseCause::UserShutdown => 0,
        _ => 1,
    }
}

/// A terminal closes with code 0 exactly when its shell exited successfully
/// or the shutdown was asked for; with 1 otherwise.
pub proof fn lemma_closed_code(c: CloseCause)
    ensures
        closed_code(c) == 0 <==> (c == CloseCause::ChildExited(true) || c == CloseCause::UserShutdown),
        closed_code(c) == 0 || closed_code(c) == 1,
{
}

/// How one attempt to run the bridge ended.
#[derive(Clone, Debug)]
pub enum RunOutcome {
    /// The shell exited; whether it succeeded.
    Exited(bool),
    /// The data channel dropped (the shell may still run).
    Disconnected,
    /// The bridge failed.
    Failed,
    /// The data channel could not be opened.
    ConnectFailed,
}

/// What the supervisor does next.
#[derive(Clone, Debug)]
pub enum SupervisorStep {
    /// Report the terminal closed with this code, and end.
    Report(i32),
    /// Wait this many milliseconds, then reconnect.
    Wait(u64),
}

/// One terminal's reconnection state.
pub struct Supervisor {
    pub policy: ReconnectManager,
}

impl Supervisor {
    /// Backoff from 1 s, capped at 30 s, without an attempt limit.
    pub fn new() -> (r: Self)
        ensures
            r.policy.base_delay_ms == 1000,
            r.policy.max_delay_ms == TERMINAL_MAX_MS,
            r.policy.current_attempt == 0,
            r.policy.max_attempts is None,
    {
        Supervisor { policy: ReconnectManager::with_limits(1000, TERMINAL_MAX_MS, None) }
    }

    /// A data channel opened: the backoff starts over.
    pub fn connected(&mut self)
        ensures
            final(self).policy.current_attempt == 0,
            final(self).policy.base_delay_ms == old(self).policy.base_delay_ms,
            final(self).policy.max_delay_ms == old(self).policy.max_delay_ms,
            final(self).policy.max_attempts == old(self).policy.max_attempts,
    {
        self.policy.reset();
    }

    /// After a run: an exited shell is reported with its code; a dropped
    /// channel with no shell left is reported with 1; otherwise wait the
    /// backoff delay and reconnect, or report 1 once attempts are used up.
    pub fn after_run(&mut self, outcome: RunOutcome, pty_alive: bool) -> (r: SupervisorStep)
        ensures
            outcome matches RunOutcome::Exited(success) ==> r == SupervisorStep::Report(
                closed_code(CloseCause::ChildExited(success)),
            ) && *final(self) == *old(self),
            !(outcome is Exited) && !pty_alive ==> r == SupervisorStep::Report(closed_code(CloseCause::PtyGone))
                && *final(self) == *old(self),
            !(outcome is Exited) && pty_alive && old(self).policy.spec_exhausted() ==> r
                == SupervisorStep::Report(closed_code(CloseCause::GaveUp)),
            !(outcome is Exited) && pty_alive && !old(self).policy.spec_exhausted() ==> r
                == SupervisorStep::Wait(old(self).policy.spec_delay() as u64)
                && final(self).policy.base_delay_ms == old(self).policy.base_delay_ms
                && final(self).policy.max_delay_ms == old(self).policy.max_delay_ms
                && final(self).policy.max_attempts == old(self).policy.max_attempts
                && final(self).policy.current_attempt as int == if old(self).policy.current_attempt < u32::MAX {
                    old(self).policy.current_attempt + 1
                } else {
                    old(self).policy.current_attempt as int
                },
    {
        match outcome {
            RunOutcome::Exited(success) => SupervisorStep::Report(if success { 0 } else { 1 }),
            _ => {
                if !pty_alive {
                    SupervisorStep::Report(1)
                } else {
                    match self.policy.next_delay() {
                        Some(d) => SupervisorStep::Wait(d),
                        None => SupervisorStep::Report(1),
                    }
                }
            },
        }
    }

    /// The code reported when the terminal is shut down on request.
    pub fn shutdown_code(&self) -> (r: i32)
        ensures
            r == closed_code(CloseCause::UserShutdown),
    {
        0
    }
}

/// What the agent does after losing the control channel: end when
/// reconnection is off, otherwise wait the next backoff delay (or end once
/// the policy gives up).
pub fn after_control_loss(reconnect: bool, policy: &mut ReconnectManager) -> (r: Option<u64>)
    ensures
        !reconnect ==> r is None && *final(policy) == *old(policy),
        reconnect && old(policy).spec_exhausted() ==> r is None,
        reconnect && !old(policy).spec_exhausted() ==> r == Some(old(policy).spec_delay() as u64)
            && final(policy).current_attempt as int == if old(policy).current_attempt < u32::MAX {
                old(policy).current_attempt + 1
            } else {
                old(policy).current_attempt as int
            },
{
    if !reconnect {
        return None;
    }
    policy.next_delay()
}

} // verus!
