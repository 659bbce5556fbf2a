//! Keeping the machine awake while downloads run: when to take and when to
//! release the operating system's sleep assertion.
use vstd::prelude::*;

verus! {

/// What to do with the sleep assertion.
#[derive(Debug, Clone, Copy, PartialEq, Eq, Structural)]
pub enum PowerAction {
    /// Ask the system to stay awake.
    Acquire,
    /// Let the system sleep again.
    Release,
    /// Nothing to do.
    Keep,
}

/// What to do with the assertion when activity goes from `was_active` to
/// `active` while it is `held` or not.
pub open spec fn power_action(was_active: bool, held: bool, active: bool) -> PowerAction {
    if active && !was_active && !held {
        PowerAction::Acquire
    } else if !active && was_active && held {
        PowerAction::Release
    } else {
        PowerAction::Keep
    }
}

/// Whether the assertion is held after that change.
pub open spec fn power_held(was_active: bool, held: bool, active: bool) -> bool {
    if active && !was_active {
        true
    } else if !active && was_active {
        false
    } else {
        held
    }
}

/// Starting from a state where the assertion is held exactly while downloads
/// are active (as a new state is), every change keeps it so: the assertion
/// is taken when activity starts, released when it stops, and left alone
/// otherwise.
pub proof fn law_power_follows_activity(was_active: bool, active: bool)
    ensures
        power_held(was_active, was_active, active) == active,
        (power_action(was_active, was_active, active) == PowerAction::Acquire) == (active && !was_active),
        (power_action(was_active, was_active, active) == PowerAction::Release) == (!active && was_active),
{
}

/// Whether downloads are active and whether the assertion is held.
#[derive(Debug)]
pub struct PowerManager {
    pub is_active: bool,
    pub held: bool,
}

impl PowerManager {
    /// Nothing active, nothing held.
    pub fn new() -> (s: Self)
        ensures
            !s.is_active,
            !s.held,
    {
        PowerManager { is_active: false, held: false }
    }

    /// Records whether downloads are active and says what to do: the
    /// assertion is taken when activity starts (unless held already) and
    /// released when it stops (if held).
    pub fn set_active(&mut self, active: bool) -> (r: PowerAction)
        ensures
            final(self).is_active == active,
            r == power_action(old(self).is_active, old(self).held, active),
            final(self).held == power_held(old(self).is_active, old(self).held, active),
    {
        let mut action = PowerAction::Keep;
        if active && !self.is_active {
            if !self.held {
                action = PowerAction::Acquire;
            }
            self.held = true;
        } else if !active && self.is_active {
            if self.held {
                action = PowerAction::Release;
            }
            self.held = false;
        }
        self.is_active = active;
        action
    }
}

} // verus!
