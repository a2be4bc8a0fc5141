//! The phases of one run: bring the rendering backend up, let every job
//! settle, take the backend down, write the feeds.

use vstd::prelude::*;

verus! {

/// Seconds to let the rendering backend settle after it was started.
pub const BACKEND_SETTLE_SECS: u64 = 2;

/// Where a run stands.
#[derive(Clone, Copy, Debug, PartialEq, Eq, Structural)]
pub enum RunPhase {
    /// The backend is being started, for this many jobs.
    Starting { jobs: usize },
    /// Jobs are running; this many have not settled yet.
    Crawling { unsettled: usize },
    /// Every job has settled and the backend is being stopped.
    Stopping,
    /// The feeds are being written.
    Materializing,
    /// The run is complete.
    Finished,
    /// The backend could not be started; nothing else was done.
    Aborted,
}

/// What happened during a run.
#[derive(Clone, Copy, Debug, PartialEq, Eq, Structural)]
pub enum RunEvent {
    BackendStarted,
    BackendUnavailable,
    /// One job reached success or exhaustion.
    JobSettled,
    BackendStopped,
    /// The backend did not stop; the run goes on all the same.
    BackendStopFailed,
    FeedsWritten,
}

impl RunPhase {
    /// The phase after `event`. An event that the phase does not wait for
    /// changes nothing.
    pub open spec fn next(self, event: RunEvent) -> RunPhase {
        match (self, event) {
            (RunPhase::Starting { jobs }, RunEvent::BackendStarted) => if jobs == 0 {
                RunPhase::Stopping
            } else {
                RunPhase::Crawling { unsettled: jobs }
            },
            (RunPhase::Starting { .. }, RunEvent::BackendUnavailable) => RunPhase::Aborted,
            (RunPhase::Crawling { unsettled }, RunEvent::JobSettled) => if unsettled <= 1 {
                RunPhase::Stopping
            } else {
                RunPhase::Crawling { unsettled: (unsettled - 1) as usize }
            },
            (RunPhase::Stopping, RunEvent::BackendStopped) => RunPhase::Materializing,
            (RunPhase::Stopping, RunEvent::BackendStopFailed) => RunPhase::Materializing,
            (RunPhase::Materializing, RunEvent::FeedsWritten) => RunPhase::Finished,
            _ => self,
        }
    }

    /// The phase after `count` jobs settled.
    pub open spec fn after_settled(self, count: nat) -> RunPhase
        decreases count,
    {
        if count == 0 {
            self
        } else {
            self.next(RunEvent::JobSettled).after_settled((count - 1) as nat)
        }
    }

    /// A run for `jobs` jobs, before anything was done.
    pub fn new(jobs: usize) -> (phase: RunPhase)
        ensures
            phase == (RunPhase::Starting { jobs }),
    {
        RunPhase::Starting { jobs }
    }

    /// Executable form of [`RunPhase::next`].
    pub fn advance(self, event: RunEvent) -> (phase: RunPhase)
        ensures
            phase == self.next(event),
    {
        match (self, event) {
            (RunPhase::Starting { jobs }, RunEvent::BackendStarted) => if jobs == 0 {
                RunPhase::Stopping
            } else {
                RunPhase::Crawling { unsettled: jobs }
            },
            (RunPhase::Starting { .. }, RunEvent::BackendUnavailable) => RunPhase::Aborted,
            (RunPhase::Crawling { unsettled }, RunEvent::JobSettled) => if unsettled <= 1 {
                RunPhase::Stopping
            } else {
                RunPhase::Crawling { unsettled: unsettled - 1 }
            },
            (RunPhase::Stopping, RunEvent::BackendStopped) => RunPhase::Materializing,
            (RunPhase::Stopping, RunEvent::BackendStopFailed) => RunPhase::Materializing,
            (RunPhase::Materializing, RunEvent::FeedsWritten) => RunPhase::Finished,
            _ => self,
        }
    }
}

/// The backend is stopped only once every job has settled: while fewer
/// jobs have settled than were started the run is still crawling, and when
/// the last one settles it moves on.
pub proof fn lemma_all_jobs_settle_first(jobs: usize, settled: nat)
    requires
        1 <= jobs,
        settled <= jobs,
    ensures
        (RunPhase::Crawling { unsettled: jobs }).after_settled(settled) == if settled < jobs {
            RunPhase::Crawling { unsettled: (jobs - settled) as usize }
        } else {
            RunPhase::Stopping
        },
    decreases settled,
{
    if settled > 0 {
        if jobs > 1 {
            lemma_all_jobs_settle_first((jobs - 1) as usize, (settled - 1) as nat);
        } else {
            assert(RunPhase::Stopping.after_settled(0) == RunPhase::Stopping);
        }
    }
}

} // verus!
