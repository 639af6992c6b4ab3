//! The driver's decisions: when the simulation pauses, reseeds and steps.
//!
//! The event loop itself lives outside this crate. It hands every event to
//! `Driver::react` as a `Signal` and carries out the `Action` that comes back.

use vstd::prelude::*;

verus! {

/// The simulation steps on every `CLOCK_SKIP`-th frame.
pub const CLOCK_SKIP: usize = 10;

/// What the event loop observed.
#[derive(Clone, Copy, Debug, PartialEq, Eq, Structural)]
pub enum Signal {
    /// The play/pause key went down.
    TogglePlay,
    /// The reseed key went down.
    Reseed,
    /// Any event that is no input: a frame of the loop.
    Frame,
}

/// What the event loop has to do next.
#[derive(Clone, Copy, Debug, PartialEq, Eq, Structural)]
pub enum Action {
    /// Nothing.
    Nothing,
    /// Replace the grid by a freshly seeded one.
    Reseed,
    /// Advance the grid by one generation, then draw it.
    Step,
    /// Draw the grid as it is.
    Draw,
}

/// The driver's state: whether the simulation runs, and the position of the
/// clock divider.
#[derive(Clone, Copy, Debug, PartialEq, Eq, Structural)]
pub struct Driver {
    playing: bool,
    phase: usize,
}

impl Driver {
    /// Whether the simulation runs.
    pub closed spec fn playing(&self) -> bool {
        self.playing
    }

    /// The number of frames since the last one on which a step was due.
    pub closed spec fn phase(&self) -> nat {
        self.phase as nat
    }

    /// The clock divider stays below `CLOCK_SKIP`.
    #[verifier::type_invariant]
    spec fn in_cycle(self) -> bool {
        self.phase < CLOCK_SKIP
    }

    /// A paused driver at the start of the clock's cycle.
    pub fn new() -> (out: Driver)
        ensures
            !out.playing(),
            out.phase() == 0,
    {
        Driver { playing: false, phase: 0 }
    }

    /// Whether the simulation runs.
    pub fn is_playing(&self) -> (out: bool)
        ensures
            out == self.playing(),
    {
        self.playing
    }

    /// Takes one signal and says what to do.
    ///
    /// `TogglePlay` flips the running state. `Reseed` asks for a new grid and
    /// changes nothing else. `Frame` moves the clock on by one, modulo
    /// `CLOCK_SKIP`; a step is due when the clock comes back to zero while
    /// the simulation runs, and a redraw otherwise.
    pub fn react(&mut self, signal: Signal) -> (action: Action)
        ensures
            final(self).phase() < CLOCK_SKIP,
            match signal {
                Signal::TogglePlay => {
                    &&& final(self).playing() == !old(self).playing()
                    &&& final(self).phase() == old(self).phase()
                    &&& action == Action::Nothing
                },
                Signal::Reseed => {
                    &&& final(self).playing() == old(self).playing()
                    &&& final(self).phase() == old(self).phase()
                    &&& action == Action::Reseed
                },
                Signal::Frame => {
                    &&& final(self).playing() == old(self).playing()
                    &&& final(self).phase() == (old(self).phase() + 1) % (CLOCK_SKIP as nat)
                    &&& action == if old(self).playing() && final(self).phase() == 0 {
                        Action::Step
                    } else {
                        Action::Draw
                    }
                },
            },
    {
        proof {
            use_type_invariant(&*self);
        }
        match signal {
            Signal::TogglePlay => {
                self.playing = !self.playing;
                Action::Nothing
            },
            Signal::Reseed => Action::Reseed,
            Signal::Frame => {
                self.phase = (self.phase + 1) % CLOCK_SKIP;
                if self.playing && self.phase == 0 {
                    Action::Step
                } else {
                    Action::Draw
                }
            },
        }
    }
}

} // verus!
