//! Progress accounting for long operations. The counter and the bar
//! arithmetic live here, verified; rendering to a terminal is the
//! caller's concern.

use vstd::prelude::*;

verus! {

/// How many cells the progress bar has.
pub const PROGRESS_BAR_LEN: usize = 30;

/// A progress counter against a fixed maximum.
pub struct ProgressPrinter {
    /// How much work is done.
    pub progress: u64,
    /// How much work there is in total; zero means unknown.
    pub progress_max: u64,
}

impl ProgressPrinter {
    /// A fresh counter at zero.
    pub fn new(progress_max: u64) -> (p: ProgressPrinter)
        ensures
            p.progress == 0,
            p.progress_max == progress_max,
    {
        ProgressPrinter { progress: 0, progress_max }
    }

    /// Advances the counter.
    pub fn add_progress(&mut self, add: u64)
        requires
            old(self).progress + add <= u64::MAX,
        ensures
            final(self).progress == old(self).progress + add,
            final(self).progress_max == old(self).progress_max,
    {
        let next = self.progress + add;
        self.set_progress(next);
    }

    /// Sets the counter outright.
    pub fn set_progress(&mut self, progress: u64)
        ensures
            final(self).progress == progress,
            final(self).progress_max == old(self).progress_max,
    {
        self.progress = progress;
    }

    /// How many of the bar's cells are filled: the done fraction of the
    /// bar length, rounded down and capped at the full bar. A zero
    /// maximum shows an empty bar.
    pub fn filled_cells(&self) -> (n: usize)
        ensures
            self.progress_max == 0 ==> n == 0,
            self.progress_max != 0 ==> n == vstd::math::min(
                PROGRESS_BAR_LEN as int,
                self.progress * PROGRESS_BAR_LEN as int / self.progress_max as int,
            ),
            n <= PROGRESS_BAR_LEN,
    {
        if self.progress_max == 0 {
            return 0;
        }
        let scaled = (self.progress as u128) * (PROGRESS_BAR_LEN as u128);
        let filled = scaled / (self.progress_max as u128);
        if filled >= PROGRESS_BAR_LEN as u128 {
            PROGRESS_BAR_LEN
        } else {
            filled as usize
        }
    }
}

} // verus!
