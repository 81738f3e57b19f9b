//! What a caller may set for a run, and what holds where it sets nothing.

use crate::partition::NO_SPLITTING;
use crate::units::UNIT;
use vstd::prelude::*;

verus! {

/// The settings of a run.
#[derive(Clone, Copy, Debug)]
pub struct Settings {
    /// Volume of the background track, in millionths of its own.
    pub bgm_volume: i64,
    /// What every effect is moved by, in microseconds.
    pub shift: i64,
    /// Whether the background track is left out of the finished track.
    pub silent: bool,
    /// The most instants that one task renders. Never zero in settings that
    /// are [`Settings::wf`].
    pub notes_per_thread: usize,
}

impl Settings {
    /// Whether a run can be made with the settings: the chunk size is
    /// positive.
    pub open spec fn wf(&self) -> bool {
        self.notes_per_thread > 0
    }

    /// Whether a run can be made with the settings.
    pub fn is_valid(&self) -> (valid: bool)
        ensures
            valid == self.wf(),
    {
        self.notes_per_thread > 0
    }
}

impl Default for Settings {
    /// The background track at its own volume, no shift, not silent, and
    /// instants never split.
    fn default() -> (settings: Settings)
        ensures
            settings.bgm_volume == UNIT,
            settings.shift == 0,
            !settings.silent,
            settings.notes_per_thread == NO_SPLITTING,
            settings.wf(),
    {
        Settings { bgm_volume: UNIT, shift: 0, silent: false, notes_per_thread: NO_SPLITTING }
    }
}

} // verus!
