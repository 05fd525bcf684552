//! The order of a run: its phases, and which of them a configuration asks for.
//!
//! Phases follow one another strictly. Fetching is over before transforming
//! begins, and transforming is over before publishing begins.

use vstd::prelude::*;
use crate::config::{Config, ConfigView};

verus! {

/// A phase of a run.
#[derive(Debug, Clone, Copy, PartialEq, Eq, Structural)]
pub enum Phase {
    /// Clean and create the working directory.
    Prepare,
    /// Fetch the sources from the bucket.
    Fetch,
    /// Find the sources in the source directory.
    Resolve,
    /// Cut every source to every size.
    Transform,
    /// Publish what was produced to the bucket.
    Publish,
    /// Nothing is left to do.
    Done,
}

impl Phase {
    /// The place of a phase in the order of a run.
    pub open spec fn rank(self) -> nat {
        match self {
            Phase::Prepare => 0,
            Phase::Fetch => 1,
            Phase::Resolve => 2,
            Phase::Transform => 3,
            Phase::Publish => 4,
            Phase::Done => 5,
        }
    }
}

impl ConfigView {
    /// The run fetches its sources: that is asked for and a bucket is named.
    pub open spec fn fetches(self) -> bool {
        self.fetch_remote && self.s3_bucket_name.len() > 0
    }

    /// The run publishes what it produced: a bucket is named.
    pub open spec fn publishes(self) -> bool {
        self.s3_bucket_name.len() > 0
    }

    /// The phase that follows `phase`.
    pub open spec fn phase_after(self, phase: Phase) -> Phase {
        match phase {
            Phase::Prepare => if self.fetches() {
                Phase::Fetch
            } else {
                Phase::Resolve
            },
            Phase::Fetch => Phase::Resolve,
            Phase::Resolve => Phase::Transform,
            Phase::Transform => if self.publishes() {
                Phase::Publish
            } else {
                Phase::Done
            },
            Phase::Publish => Phase::Done,
            Phase::Done => Phase::Done,
        }
    }
}

/// The phase a run begins with.
pub fn first_phase() -> (phase: Phase)
    ensures
        phase == Phase::Prepare,
{
    Phase::Prepare
}

/// The phase that follows `phase` in a run under `config`.
pub fn next_phase(config: &Config, phase: Phase) -> (next: Phase)
    ensures
        next == config@.phase_after(phase),
{
    match phase {
        Phase::Prepare => {
            if config.fetch_remote && !config.s3_bucket_name.as_str().is_empty() {
                Phase::Fetch
            } else {
                Phase::Resolve
            }
        },
        Phase::Fetch => Phase::Resolve,
        Phase::Resolve => Phase::Transform,
        Phase::Transform => {
            if !config.s3_bucket_name.as_str().is_empty() {
                Phase::Publish
            } else {
                Phase::Done
            }
        },
        Phase::Publish => Phase::Done,
        Phase::Done => Phase::Done,
    }
}

/// A run moves forward only: each phase but the last is followed by a later
/// one, so no phase comes twice and every run ends.
pub proof fn lemma_phases_advance(config: ConfigView, phase: Phase)
    ensures
        phase != Phase::Done ==> config.phase_after(phase).rank() > phase.rank(),
        phase == Phase::Done ==> config.phase_after(phase) == Phase::Done,
{
}

/// Whether a directory is cleared before a phase writes to it: it exists, and
/// cleaning or overwriting is asked for.
pub fn must_clear_dir(present: bool, clean: bool, overwrite: bool) -> (clear: bool)
    ensures
        clear == (present && (clean || overwrite)),
{
    present && (clean || overwrite)
}

/// Whether the working directory is created before the run: it does not
/// exist, or it was just cleared.
pub fn must_create_dir(present: bool, clean: bool, overwrite: bool) -> (create: bool)
    ensures
        create == (!present || clean || overwrite),
{
    !present || must_clear_dir(present, clean, overwrite)
}

} // verus!
