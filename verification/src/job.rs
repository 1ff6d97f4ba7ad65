//! A download's life: the states it passes through and the updates the
//! engine sends about it.

use crate::deps::DepsStatus;
use vstd::prelude::*;

verus! {

pub type JobId = u64;

#[derive(Clone, Debug, PartialEq)]
pub enum JobState {
    /// Waits for its start time (Unix seconds).
    Scheduled(i64),
    Queued,
    Resolving,
    Downloading,
    Processing,
    /// Container job (playlist/album) whose work happens in child jobs.
    Group,
    Done,
    NoMatch,
    Failed(String),
    Cancelled,
}

impl JobState {
    /// Nothing more will happen to the job.
    pub open spec fn finished(self) -> bool {
        self is Done || self is NoMatch || self is Failed || self is Cancelled
    }

    /// It did not succeed and nothing is running.
    pub open spec fn retryable(self) -> bool {
        self is NoMatch || self is Failed || self is Cancelled
    }

    pub fn is_finished(&self) -> (b: bool)
        ensures
            b == self.finished(),
    {
        matches!(self, JobState::Done | JobState::NoMatch | JobState::Failed(_) | JobState::Cancelled)
    }

    /// Worth another try: it did not succeed and nothing is running.
    pub fn can_retry(&self) -> (b: bool)
        ensures
            b == self.retryable(),
    {
        matches!(self, JobState::NoMatch | JobState::Failed(_) | JobState::Cancelled)
    }
}

/// A job that can be tried again has finished.
pub proof fn lemma_retryable_is_finished(s: JobState)
    ensures
        s.retryable() ==> s.finished(),
        s.finished() ==> s.retryable() || s is Done,
{
}

/// What the engine reports about a job.
#[derive(Debug)]
pub enum JobUpdate {
    New { parent: Option<JobId>, url: String, title: String, source: &'static str },
    Title(String),
    State(JobState),
    /// `frac` in ten-thousandths of the whole, `speed` in bytes per second,
    /// `eta` in seconds.
    Progress { frac: Option<u32>, speed: Option<u64>, eta: Option<u64> },
    /// Item progress inside one yt-dlp process (non-expanded playlists).
    Item { index: u32, count: u32 },
    Output(String),
    /// Short remark under the title; an empty string removes it.
    Note(String),
}

/// What the engine tells the window or the web interface.
#[derive(Debug)]
pub enum Event {
    Job(JobId, JobUpdate),
    Deps(DepsStatus),
    Update(crate::update::Status),
    /// Links arrived from outside the window. `focus`: bring the window
    /// forward (someone started omnidl again, rather than sending from the
    /// browser).
    Remote { focus: bool },
}

} // verus!
