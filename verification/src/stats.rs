//! Shot, hit and combo counters of a training session.
//!
//! Times (reaction times, tracking time, session length) are measured in
//! floating point by the caller; these counters are the discrete part of the
//! session record.
use vstd::prelude::*;

verus! {

/// Combo length beyond which the score multiplier stops growing.
pub const COMBO_CAP: u32 = 20;

/// Counters of one training session.
#[derive(Clone, Debug)]
pub struct SessionStats {
    /// Display name of the scenario played.
    pub scenario: &'static str,
    pub score: u64,
    pub shots: u32,
    pub hits: u32,
    /// Current run of consecutive hits (or of tracking frames on target).
    pub combo: u32,
    pub best_combo: u32,
    /// Number of reaction times recorded, one per hit.
    pub reaction_samples: u32,
}

impl SessionStats {
    /// What every sequence of updates keeps: the best combo is never below
    /// the current one, and one reaction time is recorded per hit.
    pub open spec fn wf(self) -> bool {
        &&& self.best_combo >= self.combo
        &&& self.reaction_samples == self.hits
    }

    /// A fresh session for `scenario`: every counter at zero.
    pub fn new(scenario: &'static str) -> (stats: SessionStats)
        ensures
            stats.scenario == scenario,
            stats.score == 0,
            stats.shots == 0,
            stats.hits == 0,
            stats.combo == 0,
            stats.best_combo == 0,
            stats.reaction_samples == 0,
            stats.wf(),
    {
        SessionStats { scenario, score: 0, shots: 0, hits: 0, combo: 0, best_combo: 0, reaction_samples: 0 }
    }

    /// Counts a shot fired.
    pub fn register_shot(&mut self)
        requires
            old(self).shots < u32::MAX,
        ensures
            *final(self) == (SessionStats { shots: (old(self).shots + 1) as u32, ..*old(self) }),
    {
        self.shots = self.shots + 1;
    }

    /// Counts a hit: the hit count, the combo and the number of reaction
    /// samples grow by one and the best combo follows the combo. Returns the
    /// number of combo steps (the new combo, at most `COMBO_CAP`) that raise
    /// this hit's points, each step by 2.5 %.
    pub fn register_hit(&mut self) -> (steps: u32)
        requires
            old(self).hits < u32::MAX,
            old(self).combo < u32::MAX,
            old(self).reaction_samples < u32::MAX,
        ensures
            final(self).hits == old(self).hits + 1,
            final(self).combo == old(self).combo + 1,
            final(self).best_combo == if old(self).best_combo >= old(self).combo + 1 {
                old(self).best_combo as int
            } else {
                old(self).combo + 1
            },
            final(self).reaction_samples == old(self).reaction_samples + 1,
            final(self).score == old(self).score,
            final(self).shots == old(self).shots,
            final(self).scenario == old(self).scenario,
            steps == if final(self).combo <= COMBO_CAP { final(self).combo } else { COMBO_CAP },
            old(self).wf() ==> final(self).wf(),
    {
        self.hits = self.hits + 1;
        self.combo = self.combo + 1;
        if self.combo > self.best_combo {
            self.best_combo = self.combo;
        }
        self.reaction_samples = self.reaction_samples + 1;
        if self.combo <= COMBO_CAP {
            self.combo
        } else {
            COMBO_CAP
        }
    }

    /// Adds points to the score.
    pub fn add_score(&mut self, points: u64)
        requires
            old(self).score + points <= u64::MAX,
        ensures
            *final(self) == (SessionStats { score: (old(self).score + points) as u64, ..*old(self) }),
    {
        self.score = self.score + points;
    }

    /// A miss breaks the combo; the best combo is kept.
    pub fn register_miss(&mut self)
        ensures
            *final(self) == (SessionStats { combo: 0, ..*old(self) }),
            old(self).wf() ==> final(self).wf(),
    {
        self.combo = 0;
    }

    /// A tracking frame spent on target extends the combo (saturating at
    /// `u32::MAX`) and the best combo follows it.
    pub fn register_contact(&mut self)
        ensures
            final(self).combo == if old(self).combo < u32::MAX { old(self).combo + 1 } else { u32::MAX as int },
            final(self).best_combo == if old(self).best_combo >= final(self).combo {
                old(self).best_combo
            } else {
                final(self).combo
            },
            final(self).score == old(self).score,
            final(self).shots == old(self).shots,
            final(self).hits == old(self).hits,
            final(self).reaction_samples == old(self).reaction_samples,
            final(self).scenario == old(self).scenario,
            old(self).wf() ==> final(self).wf(),
    {
        self.combo = self.combo.saturating_add(1);
        if self.combo > self.best_combo {
            self.best_combo = self.combo;
        }
    }
}


/// Column names of the session history file.
pub const CSV_HEADER: &'static str =
    "unix_time,scenario,duration_seconds,score,shots,hits,accuracy_percent,best_combo,average_reaction_ms,tracking_percent";

/// Whether the session history needs its column line before a new record:
/// when the file does not exist yet or is empty.
pub fn needs_csv_header(file_exists: bool, file_len: u64) -> (needed: bool)
    ensures
        needed == (!file_exists || file_len == 0),
{
    !file_exists || file_len == 0
}

} // verus!
