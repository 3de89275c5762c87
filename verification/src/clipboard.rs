//! The generation counter behind clipboard auto-clear.
//!
//! Every copy to the clipboard bumps the generation; the timer that later
//! wants to wipe the clipboard captured the generation of its own copy and
//! must act only when it still matches. A timer from a superseded copy is
//! thus a no-op: a newer copy's content is never cleared. The caller owns the
//! actual clipboard and the timer thread; this type owns the decision.

use vstd::prelude::*;

verus! {

/// The auto-clear delay and the current copy generation.
pub struct ClipboardManager {
    clear_seconds: u64,
    generation: u64,
}

impl ClipboardManager {
    pub closed spec fn spec_clear_seconds(&self) -> u64 {
        self.clear_seconds
    }

    pub closed spec fn spec_generation(&self) -> u64 {
        self.generation
    }

    /// A manager that clears after the given delay; no copy has happened yet.
    pub fn new(clear_seconds: u64) -> (r: Self)
        ensures
            r.spec_clear_seconds() == clear_seconds,
            r.spec_generation() == 0,
    {
        ClipboardManager { clear_seconds, generation: 0 }
    }

    /// The configured auto-clear delay, in seconds.
    pub fn clear_seconds(&self) -> (r: u64)
        ensures
            r == self.spec_clear_seconds(),
    {
        self.clear_seconds
    }

    /// Record one more copy to the clipboard and return its generation. The
    /// counter wraps after 2^64 copies rather than fail.
    pub fn next_generation(&mut self) -> (r: u64)
        ensures
            final(self).spec_generation() == (if old(self).spec_generation() < u64::MAX {
                old(self).spec_generation() + 1
            } else {
                0int
            }),
            r == final(self).spec_generation(),
            final(self).spec_clear_seconds() == old(self).spec_clear_seconds(),
    {
        if self.generation < u64::MAX {
            self.generation = self.generation + 1;
        } else {
            self.generation = 0;
        }
        self.generation
    }

    /// May a timer that captured this generation clear the clipboard now?
    /// Exactly when no newer copy has been made: last write wins.
    pub fn should_clear(&self, captured: u64) -> (r: bool)
        ensures
            r == (captured == self.spec_generation()),
    {
        captured == self.generation
    }
}

} // verus!
