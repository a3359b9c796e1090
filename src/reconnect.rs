//! Exponential backoff for reconnection loops.
use vstd::prelude::*;

verus! {

/// `base` doubled `attempt` times, without any cap.
pub open spec fn doubled(base: nat, attempt: nat) -> nat
    decreases attempt,
{
    if attempt == 0 {
        base
    } else {
        2 * doubled(base, (attempt - 1) as nat)
    }
}

/// The delay owed to attempt number `attempt`: `min(base * 2^attempt, max)`.
pub open spec fn backoff(base: nat, max: nat, attempt: nat) -> nat {
    if doubled(base, attempt) <= max {
        doubled(base, attempt)
    } else {
        max
    }
}

/// Doubling never makes the value smaller.
pub proof fn lemma_doubled_monotone(base: nat, i: nat, j: nat)
    requires
        i <= j,
    ensures
        doubled(base, i) <= doubled(base, j),
    decreases j,
{
    if i < j {
        lemma_doubled_monotone(base, i, (j - 1) as nat);
    }
}

/// Default first delay of the control-level loop, in milliseconds.
pub const CONTROL_BASE_MS: u64 = 1000;

/// Default cap of the control-level loop, in milliseconds.
pub const CONTROL_MAX_MS: u64 = 60000;

/// Cap of the per-terminal loop, in milliseconds.
pub const TERMINAL_MAX_MS: u64 = 30000;

/// Reconnection policy with exponential backoff, a cap, and an optional
/// limit on the number of attempts. Delays are in milliseconds.
pub struct ReconnectManager {
    pub base_delay_ms: u64,
    pub max_delay_ms: u64,
    pub current_attempt: u32,
    pub max_attempts: Option<u32>,
}

impl ReconnectManager {
    /// The delay that the next call of `next_delay` hands out, if it hands one out.
    pub open spec fn spec_delay(&self) -> nat {
        backoff(self.base_delay_ms as nat, self.max_delay_ms as nat, self.current_attempt as nat)
    }

    /// Whether the attempt limit has been reached.
    pub open spec fn spec_exhausted(&self) -> bool {
        match self.max_attempts {
            Some(limit) => self.current_attempt >= limit,
            None => false,
        }
    }

    /// The control-level policy: 1 s doubling up to 60 s, no attempt limit.
    pub fn new() -> (r: Self)
        ensures
            r.base_delay_ms == CONTROL_BASE_MS,
            r.max_delay_ms == CONTROL_MAX_MS,
            r.current_attempt == 0,
            r.max_attempts is None,
    {
        ReconnectManager {
            base_delay_ms: CONTROL_BASE_MS,
            max_delay_ms: CONTROL_MAX_MS,
            current_attempt: 0,
            max_attempts: None,
        }
    }

    /// A policy with the given first delay, cap and optional attempt limit.
    pub fn with_limits(base_delay_ms: u64, max_delay_ms: u64, max_attempts: Option<u32>) -> (r:
        Self)
        ensures
            r.base_delay_ms == base_delay_ms,
            r.max_delay_ms == max_delay_ms,
            r.current_attempt == 0,
            r.max_attempts == max_attempts,
    {
        ReconnectManager { base_delay_ms, max_delay_ms, current_attempt: 0, max_attempts }
    }

    /// Returns `min(base * 2^attempt, max)` and counts the attempt, or `None`
    /// ("give up") once the attempt limit is reached, leaving the state as it was.
    pub fn next_delay(&mut self) -> (r: Option<u64>)
        ensures
            old(self).spec_exhausted() ==> r is None && *final(self) == *old(self),
            !old(self).spec_exhausted() ==> {
                &&& r == Some(old(self).spec_delay() as u64)
                &&& final(self).base_delay_ms == old(self).base_delay_ms
                &&& final(self).max_delay_ms == old(self).max_delay_ms
                &&& final(self).max_attempts == old(self).max_attempts
                &&& final(self).current_attempt as int == if old(self).current_attempt < u32::MAX {
                    old(self).current_attempt + 1
                } else {
                    old(self).current_attempt as int
                }
            },
    {
        if let Some(limit) = self.max_attempts {
            if self.current_attempt >= limit {
                return None;
            }
        }
        let base = self.base_delay_ms;
        let max = self.max_delay_ms;
        let attempt = self.current_attempt;
        let mut d: u64 = if base <= max {
            base
        } else {
            max
        };
        let mut i: u32 = 0;
        while i < attempt && d < max
            invariant
                i <= attempt,
                d <= max,
                d < max ==> d == doubled(base as nat, i as nat),
                d == max ==> doubled(base as nat, i as nat) >= max,
            decreases attempt - i,
        {
            if d > max / 2 {
                d = max;
            } else {
                d = d * 2;
            }
            i = i + 1;
        }
        proof {
            if d == max {
                lemma_doubled_monotone(base as nat, i as nat, attempt as nat);
            }
        }
        if self.current_attempt < u32::MAX {
            self.current_attempt = self.current_attempt + 1;
        }
        Some(d)
    }

    /// Zeroes the attempt counter (after a successful connection).
    pub fn reset(&mut self)
        ensures
            final(self).current_attempt == 0,
            final(self).base_delay_ms == old(self).base_delay_ms,
            final(self).max_delay_ms == old(self).max_delay_ms,
            final(self).max_attempts == old(self).max_attempts,
    {
        self.current_attempt = 0;
    }

    /// The number of attempts counted since the last reset.
    pub fn attempts(&self) -> (r: u32)
        ensures
            r == self.current_attempt,
    {
        self.current_attempt
    }
}

impl Default for ReconnectManager {
    fn default() -> (r: Self)
        ensures
            r.base_delay_ms == CONTROL_BASE_MS,
            r.max_delay_ms == CONTROL_MAX_MS,
            r.current_attempt == 0,
            r.max_attempts is None,
    {
        Self::new()
    }
}

} // verus!
