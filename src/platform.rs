//! Timing decisions of the host's collaborators: when the clipboard is to be
//! cleared and when an idle session locks. The clock is read by the caller
//! and handed in as seconds since the Unix epoch.
use vstd::prelude::*;

verus! {

/// Clears the clipboard a fixed time after a copy.
#[derive(Clone, Copy, Debug)]
pub struct ClipboardManager {
    pub clear_timeout_secs: u64,
}

impl ClipboardManager {
    pub fn new(clear_timeout_seconds: u64) -> (r: Self)
        ensures
            r.clear_timeout_secs == clear_timeout_seconds,
    {
        ClipboardManager { clear_timeout_secs: clear_timeout_seconds }
    }

    /// Whether a copy made at `copied_at` is due to be cleared at `now`.
    pub fn clear_due(&self, copied_at: u64, now: u64) -> (r: bool)
        ensures
            r == (now >= copied_at && now - copied_at >= self.clear_timeout_secs),
    {
        now >= copied_at && now - copied_at >= self.clear_timeout_secs
    }
}

/// Tracks the last user activity and says when the session has been idle
/// long enough to lock.
#[derive(Clone, Copy, Debug)]
pub struct IdleDetector {
    pub timeout_secs: u64,
    pub last_activity: u64,
}

impl IdleDetector {
    /// A detector that counts the session as active at `now`.
    pub fn new(timeout_seconds: u64, now: u64) -> (r: Self)
        ensures
            r.timeout_secs == timeout_seconds,
            r.last_activity == now,
    {
        IdleDetector { timeout_secs: timeout_seconds, last_activity: now }
    }

    /// Records activity at `now`.
    pub fn record_activity(&mut self, now: u64)
        ensures
            final(self).last_activity == now,
            final(self).timeout_secs == old(self).timeout_secs,
    {
        self.last_activity = now;
    }

    /// Whether the session has been idle for the whole timeout at `now`. A
    /// clock that went back counts as no idle time.
    pub fn is_idle(&self, now: u64) -> (r: bool)
        ensures
            r == (now >= self.last_activity && now - self.last_activity >= self.timeout_secs),
    {
        now >= self.last_activity && now - self.last_activity >= self.timeout_secs
    }
}

/// The session lock flag and its transitions.
#[derive(Clone, Copy, Debug)]
pub struct SessionLock {
    pub locked: bool,
}

impl SessionLock {
    /// A new session starts locked.
    pub fn new() -> (r: Self)
        ensures
            r.locked,
    {
        SessionLock { locked: true }
    }

    /// A successful unlock clears the flag.
    pub fn unlocked(&mut self)
        ensures
            !final(self).locked,
    {
        self.locked = false;
    }

    /// Locks the session when the detector reports it idle at `now`, and
    /// says whether it did.
    pub fn check_auto_lock(&mut self, idle: &IdleDetector, now: u64) -> (r: bool)
        ensures
            r == (now >= idle.last_activity && now - idle.last_activity >= idle.timeout_secs),
            final(self).locked == (old(self).locked || r),
    {
        if idle.is_idle(now) {
            self.locked = true;
            true
        } else {
            false
        }
    }
}

} // verus!
