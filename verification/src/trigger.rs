//! The shared dirty flag and the handles that raise it.

use vstd::prelude::*;

verus! {

/// A handle that a hook keeps in order to report a change. It carries no
/// state of its own: firing any handle raises the one flag it was made for.
#[derive(Clone, Copy, Debug, PartialEq, Eq, Structural)]
pub struct TriggerHandle {}

/// The dirty flag of one application: set when persisted state changed since
/// the last frame began.
#[derive(Debug)]
pub struct Trigger {
    pub state: bool,
}

impl Trigger {
    /// A flag that is not raised.
    pub fn new() -> (t: Self)
        ensures
            !t.state,
    {
        Trigger { state: false }
    }

    /// Whether a change was reported since the flag was last lowered.
    pub fn get_state(&self) -> (s: bool)
        ensures
            s == self.state,
    {
        self.state
    }

    /// Sets the flag to `state`.
    pub fn set_state(&mut self, state: bool)
        ensures
            final(self).state == state,
    {
        self.state = state;
    }

    /// Hands out a handle for one subscriber; the flag is untouched.
    pub fn create_trigger(&self) -> (h: TriggerHandle)
        ensures
            h == (TriggerHandle {}),
    {
        TriggerHandle {}
    }

    /// Fires `handle`: the flag is raised, whatever it was before.
    pub fn trigger(&mut self, handle: &TriggerHandle)
        ensures
            final(self).state,
    {
        self.state = true;
    }
}

} // verus!
