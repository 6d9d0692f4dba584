use vstd::prelude::*;
use crate::cell::all_dead;
use crate::grid::{stepped, toggled, App};

verus! {

/// A discrete command from the shell driving the session.
pub enum Msg {
    Random,
    Start,
    Step,
    Reset,
    Stop,
    ToggleCell(usize),
    Tick,
}

impl App {
    /// Apply one command to the session and report whether the visible
    /// grid changed (the shell's cue to re-render).
    ///
    /// Start and Stop only move the play state machine; Step forces one
    /// generation regardless of it; Tick advances one generation only
    /// while running and is a no-op while paused.
    pub fn update(&mut self, msg: Msg) -> (changed: bool)
        requires
            old(self).wf(),
            msg matches Msg::ToggleCell(idx) ==> idx < old(self).cells@.len(),
        ensures
            final(self).wf(),
            final(self).cells_width == old(self).cells_width,
            final(self).cells_height == old(self).cells_height,
            final(self).cells@.len() == old(self).cells@.len(),
            match msg {
                Msg::Random => changed && final(self).active == old(self).active,
                Msg::Start => !changed && final(self).active
                    && final(self).cells@ == old(self).cells@,
                Msg::Step => changed && final(self).active == old(self).active
                    && stepped(*old(self), *final(self)),
                Msg::Reset => changed && final(self).active == old(self).active
                    && all_dead(final(self).cells@),
                Msg::Stop => !changed && !final(self).active
                    && final(self).cells@ == old(self).cells@,
                Msg::ToggleCell(idx) => changed && final(self).active == old(self).active
                    && final(self).cells@ == old(self).cells@.update(
                        idx as int,
                        toggled(old(self).cells@[idx as int]),
                    ),
                Msg::Tick => if old(self).active {
                    changed && final(self).active && stepped(*old(self), *final(self))
                } else {
                    !changed && *final(self) == *old(self)
                },
            },
    {
        match msg {
            Msg::Random => {
                self.random_mutate();
                true
            },
            Msg::Start => {
                self.active = true;
                false
            },
            Msg::Step => {
                self.step();
                true
            },
            Msg::Reset => {
                self.reset();
                true
            },
            Msg::Stop => {
                self.active = false;
                false
            },
            Msg::ToggleCell(idx) => {
                self.toggle_cell(idx);
                true
            },
            Msg::Tick => {
                if self.active {
                    self.step();
                    true
                } else {
                    false
                }
            },
        }
    }
}

} // verus!
