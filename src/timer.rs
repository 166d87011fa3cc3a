//! Countdown of one timed phase of a game. Instants are milliseconds on a
//! monotonic clock that the caller reads; durations are milliseconds.
use vstd::prelude::*;

verus! {

/// Least time between two time-sync broadcasts.
pub const SYNC_DELAY: u64 = 2000;

pub struct GameTimer {
    pub last_sync: u64,
    pub start: u64,
    pub duration: u64,
    pub elapsed: u64,
    pub need_sync: bool,
}

impl GameTimer {
    /// Milliseconds left of the phase, never below zero.
    pub open spec fn remaining_spec(self) -> u64 {
        if self.duration < self.elapsed {
            0
        } else {
            (self.duration - self.elapsed) as u64
        }
    }

    /// The timer once the clock has been read at `now`: the elapsed time is the
    /// time since the start, and never goes back.
    pub open spec fn advanced(self, now: u64) -> GameTimer {
        let since = if now < self.start { 0 } else { (now - self.start) as u64 };
        GameTimer { elapsed: if since < self.elapsed { self.elapsed } else { since }, ..self }
    }

    /// Whether a time-sync broadcast is owed at `now`.
    pub open spec fn due_spec(self, now: u64) -> bool {
        self.need_sync && self.last_sync <= now && now - self.last_sync >= SYNC_DELAY
    }

    pub open spec fn new_spec(now: u64) -> GameTimer {
        GameTimer { last_sync: now, start: now, duration: 0, elapsed: 0, need_sync: false }
    }

    /// An idle timer: nothing tracked, nothing to sync.
    pub fn new(now: u64) -> (r: GameTimer)
        ensures
            r == GameTimer::new_spec(now),
    {
        GameTimer { last_sync: now, start: now, duration: 0, elapsed: 0, need_sync: false }
    }

    /// Arms the timer for a phase of `duration` starting at `now`.
    pub fn track(&mut self, duration: u64, now: u64)
        ensures
            *final(self) == (GameTimer {
                duration: duration,
                start: now,
                elapsed: 0,
                need_sync: true,
                ..*old(self)
            }),
    {
        self.duration = duration;
        self.start = now;
        self.elapsed = 0;
        self.need_sync = true;
    }

    /// Reads the clock: recomputes the elapsed time at `now`.
    pub fn advance(&mut self, now: u64)
        ensures
            *final(self) == old(self).advanced(now),
    {
        let since: u64 = if now < self.start { 0 } else { now - self.start };
        if since > self.elapsed {
            self.elapsed = since;
        }
    }

    /// Milliseconds left of the phase, clamped at zero.
    pub fn remaining(&self) -> (r: u64)
        ensures
            r == self.remaining_spec(),
    {
        if self.duration < self.elapsed {
            0
        } else {
            self.duration - self.elapsed
        }
    }

    /// Whether a time-sync broadcast is owed at `now`.
    pub fn due_for_sync(&self, now: u64) -> (r: bool)
        ensures
            r == self.due_spec(now),
    {
        self.need_sync && self.last_sync <= now && now - self.last_sync >= SYNC_DELAY
    }
}

/// Reading the clock never makes the remaining time grow.
pub proof fn lemma_advance_never_adds_time(t: GameTimer, now: u64)
    ensures
        t.advanced(now).remaining_spec() <= t.remaining_spec(),
        t.advanced(now).elapsed >= t.elapsed,
{
}

/// For clock readings that do not go back, the remaining time does not grow
/// from one reading to the next.
pub proof fn lemma_remaining_non_increasing(t: GameTimer, now1: u64, now2: u64)
    requires
        now1 <= now2,
    ensures
        t.advanced(now1).advanced(now2).remaining_spec() <= t.advanced(now1).remaining_spec(),
        t.advanced(now2).remaining_spec() <= t.advanced(now1).remaining_spec(),
{
}

} // verus!
