//! When regaining window focus should refresh the asset list: once, a moment after the
//! window gains focus (and once at start-up), not on every frame while it keeps it.
//!
//! Times are milliseconds on a monotonic clock.
use vstd::prelude::*;

verus! {

/// How long the window must have kept focus before the refresh fires.
pub const SETTLE_MS: u64 = 200;

#[derive(Debug, Clone, Copy, PartialEq, Eq, Structural)]
pub struct State {
    pub focused: bool,
    /// When focus was gained, until the refresh for it has fired.
    pub gained_focus_at: Option<u64>,
}

/// The state and answer after one frame at `now` with the given focus.
pub open spec fn update_spec(s: State, focused: bool, now: u64) -> (State, bool) {
    if !focused {
        (State { focused: false, gained_focus_at: None }, false)
    } else if !s.focused {
        (State { focused: true, gained_focus_at: Some(now) }, false)
    } else {
        match s.gained_focus_at {
            None => (s, false),
            Some(t) => if now >= t && now - t >= SETTLE_MS {
                (State { focused: true, gained_focus_at: None }, true)
            } else {
                (s, false)
            },
        }
    }
}

impl State {
    /// The state before the first frame: not focused.
    pub fn new() -> (r: State)
        ensures
            r == (State { focused: false, gained_focus_at: None }),
    {
        State { focused: false, gained_focus_at: None }
    }

    /// Records one frame; true when the asset list should be refreshed now. A clock that
    /// reads earlier than the focus gain counts as no time elapsed.
    pub fn update(&mut self, focused: bool, now: u64) -> (r: bool)
        ensures
            (*final(self), r) == update_spec(*old(self), focused, now),
    {
        if !focused {
            self.focused = false;
            self.gained_focus_at = None;
            return false;
        }
        if !self.focused {
            self.focused = true;
            self.gained_focus_at = Some(now);
            return false;
        }
        match self.gained_focus_at {
            None => false,
            Some(t) => {
                if now >= t && now - t >= SETTLE_MS {
                    self.gained_focus_at = None;
                    true
                } else {
                    false
                }
            },
        }
    }
}

impl Default for State {
    fn default() -> (r: State)
        ensures
            r == (State { focused: false, gained_focus_at: None }),
    {
        State::new()
    }
}

/// Once the refresh for a focus gain has fired, frames that keep focus never fire it
/// again.
pub proof fn law_refresh_fires_once_per_focus(s: State, t1: u64, t2: u64)
    requires
        update_spec(s, true, t1).1,
    ensures
        !update_spec(update_spec(s, true, t1).0, true, t2).1,
        update_spec(update_spec(s, true, t1).0, true, t2).0 == update_spec(s, true, t1).0,
{
}

/// A frame without focus never refreshes, and the next focused frame only starts the wait.
pub proof fn law_focus_gain_waits(s: State, t1: u64, t2: u64)
    ensures
        !update_spec(s, false, t1).1,
        !update_spec(update_spec(s, false, t1).0, true, t2).1,
        update_spec(update_spec(s, false, t1).0, true, t2).0.gained_focus_at == Some(t2),
{
}

/// While focus is kept, the refresh fires exactly when the settle time has passed since
/// focus was gained.
pub proof fn law_fires_after_settling(gained: u64, now: u64)
    requires
        gained <= now,
    ensures
        update_spec(State { focused: true, gained_focus_at: Some(gained) }, true, now).1 == (now
            - gained >= SETTLE_MS),
{
}

} // verus!
