//! The per-source job: bounded attempts with a fixed backoff, then
//! persisting what an attempt found.

use vstd::prelude::*;
use crate::extract::{all_well_formed, script_outcome, ExtractionError, ScriptItem, ScriptValue};
use crate::store::{has_key, persisted, views, Chapter, ChapterView, Store};
use crate::time::Timestamp;

verus! {

/// The most attempts a job makes.
pub const MAX_ATTEMPTS: u8 = 3;

/// Seconds to wait before every attempt but the first.
pub const RETRY_DELAY_SECS: u64 = 3;

/// Seconds between the starts of two consecutive jobs.
pub const START_SPACING_SECS: u64 = 2;

/// Where a job stands.
#[derive(Clone, Copy, Debug, PartialEq, Eq, Structural)]
pub enum JobState {
    /// No attempt was made yet.
    Pending,
    /// The last attempt failed and another is due.
    Attempting,
    /// An attempt found chapters; they were offered to the store.
    Success,
    /// Every attempt failed.
    Exhausted,
}

/// What the driver of a job is to do next.
#[derive(Clone, Copy, Debug, PartialEq, Eq, Structural)]
pub enum JobAction {
    /// Wait `delay_secs` seconds, make an attempt and report its outcome.
    Attempt { delay_secs: u64 },
    /// Nothing: the job is over.
    Stop,
}

/// How an attempt ended.
#[derive(Debug)]
pub enum AttemptOutcome {
    /// No connection to the store could be opened.
    StoreUnreachable,
    /// The extraction failed.
    Failed(ExtractionError),
    /// The extraction returned these chapters.
    Extracted(Vec<Chapter>),
}

/// The state machine of one source's job.
#[derive(Clone, Copy, Debug, PartialEq, Eq, Structural)]
pub struct SourceJob {
    pub state: JobState,
    pub attempts: u8,
}

/// Whether an attempt with this outcome ends the job in success, against a
/// store whose next identifier is `next_id`: it extracted at least one
/// chapter and the store has identifiers left for all of them.
pub open spec fn attempt_succeeds(next_id: nat, outcome: AttemptOutcome) -> bool {
    match outcome {
        AttemptOutcome::Extracted(chapters) => chapters@.len() >= 1 && next_id + chapters@.len()
            <= usize::MAX,
        _ => false,
    }
}

/// The records after an attempt with this outcome was settled by a job
/// that was not over: those found are offered to the store on success, and
/// nothing is written otherwise.
pub open spec fn records_after_attempt(
    records: Seq<ChapterView>,
    next_id: nat,
    outcome: AttemptOutcome,
) -> Seq<ChapterView> {
    match outcome {
        AttemptOutcome::Extracted(chapters) => if attempt_succeeds(next_id, outcome) {
            persisted(records, next_id, views(chapters@))
        } else {
            records
        },
        _ => records,
    }
}

impl SourceJob {
    /// The state and the attempt count agree.
    pub open spec fn wf(self) -> bool {
        match self.state {
            JobState::Pending => self.attempts == 0,
            JobState::Attempting => 1 <= self.attempts < MAX_ATTEMPTS,
            JobState::Success => 1 <= self.attempts <= MAX_ATTEMPTS,
            JobState::Exhausted => self.attempts == MAX_ATTEMPTS,
        }
    }

    /// Whether the job is over.
    pub open spec fn is_over(self) -> bool {
        self.state == JobState::Success || self.state == JobState::Exhausted
    }

    /// The job after one more attempt was settled. A job that is over stays
    /// as it is.
    pub open spec fn after_attempt(self, succeeded: bool) -> SourceJob {
        if self.is_over() {
            self
        } else if succeeded {
            SourceJob { state: JobState::Success, attempts: (self.attempts + 1) as u8 }
        } else if self.attempts + 1 >= MAX_ATTEMPTS {
            SourceJob { state: JobState::Exhausted, attempts: MAX_ATTEMPTS }
        } else {
            SourceJob { state: JobState::Attempting, attempts: (self.attempts + 1) as u8 }
        }
    }

    /// What the driver is to do next.
    pub open spec fn action(self) -> JobAction {
        match self.state {
            JobState::Pending => JobAction::Attempt { delay_secs: 0 },
            JobState::Attempting => JobAction::Attempt { delay_secs: RETRY_DELAY_SECS },
            _ => JobAction::Stop,
        }
    }

    /// A job that has made no attempt.
    pub fn new() -> (job: SourceJob)
        ensures
            job.wf(),
            job.state == JobState::Pending,
            job.attempts == 0,
    {
        SourceJob { state: JobState::Pending, attempts: 0 }
    }

    /// Executable form of [`SourceJob::is_over`].
    pub fn finished(&self) -> (r: bool)
        ensures
            r == self.is_over(),
    {
        match self.state {
            JobState::Success | JobState::Exhausted => true,
            _ => false,
        }
    }

    /// What the driver is to do next: the first attempt at once, every
    /// later one after the backoff, and nothing once the job is over.
    pub fn next_action(&self) -> (r: JobAction)
        ensures
            r == self.action(),
    {
        match self.state {
            JobState::Pending => JobAction::Attempt { delay_secs: 0 },
            JobState::Attempting => JobAction::Attempt { delay_secs: RETRY_DELAY_SECS },
            _ => JobAction::Stop,
        }
    }

    /// Settles one attempt and returns how many records it inserted.
    ///
    /// An attempt that extracted at least one chapter ends the job in
    /// success, and its chapters are offered to the store in order, those
    /// with a known key being skipped. Any other outcome writes nothing and
    /// counts as a failure; the last allowed failure exhausts the job. On a
    /// job that is over nothing happens.
    pub fn settle(&mut self, store: &mut Store, outcome: &AttemptOutcome) -> (inserted: usize)
        requires
            old(self).wf(),
            old(store).wf(),
        ensures
            final(self).wf(),
            final(store).wf(),
            *final(self) == old(self).after_attempt(
                attempt_succeeds(old(store).next_id(), *outcome),
            ),
            final(store).records() == if old(self).is_over() {
                old(store).records()
            } else {
                records_after_attempt(old(store).records(), old(store).next_id(), *outcome)
            },
            final(store).next_id() == old(store).next_id() + inserted,
            inserted == final(store).records().len() - old(store).records().len(),
    {
        if self.finished() {
            return 0;
        }
        let stored = match outcome {
            AttemptOutcome::Extracted(chapters) => if chapters.len() >= 1 {
                match store.persist(chapters) {
                    Ok(inserted) => Some(inserted),
                    Err(_) => None,
                }
            } else {
                None
            },
            _ => None,
        };
        match stored {
            Some(inserted) => {
                self.state = JobState::Success;
                self.attempts = self.attempts + 1;
                inserted
            },
            None => {
                if self.attempts + 1 >= MAX_ATTEMPTS {
                    self.state = JobState::Exhausted;
                    self.attempts = MAX_ATTEMPTS;
                } else {
                    self.state = JobState::Attempting;
                    self.attempts = self.attempts + 1;
                }
                0
            },
        }
    }
}

/// Seconds that the job at position `index` waits before its first
/// attempt: twice its position.
pub fn start_delay_secs(index: u64) -> (r: u64)
    requires
        START_SPACING_SECS * index <= u64::MAX,
    ensures
        r == START_SPACING_SECS * index,
{
    START_SPACING_SECS * index
}

/// Start delays grow strictly with the position.
pub proof fn lemma_start_delays_increase(i: u64, j: u64)
    requires
        i < j,
    ensures
        START_SPACING_SECS * i < START_SPACING_SECS * j,
{
}

/// A job whose attempts all fail is exhausted by the third failure and has
/// written nothing: whatever the three outcomes were, as long as none of
/// them succeeds, the records are those it started with.
pub proof fn lemma_three_failures_exhaust(
    records: Seq<ChapterView>,
    next_id: nat,
    first: AttemptOutcome,
    second: AttemptOutcome,
    third: AttemptOutcome,
)
    requires
        !attempt_succeeds(next_id, first),
        !attempt_succeeds(next_id, second),
        !attempt_succeeds(next_id, third),
    ensures
        ({
            let job = SourceJob { state: JobState::Pending, attempts: 0 };
            let last = job.after_attempt(false).after_attempt(false).after_attempt(false);
            &&& !job.after_attempt(false).is_over()
            &&& !job.after_attempt(false).after_attempt(false).is_over()
            &&& last.state == JobState::Exhausted
            &&& last.action() == JobAction::Stop
        }),
        records_after_attempt(records, next_id, first) == records,
        records_after_attempt(records, next_id, second) == records,
        records_after_attempt(records, next_id, third) == records,
{
}

/// A job that fails twice and then succeeds ends in success on its third
/// attempt, and the records are those that offering the extracted chapters
/// to the untouched store gives.
pub proof fn lemma_success_after_two_failures(
    records: Seq<ChapterView>,
    next_id: nat,
    first: AttemptOutcome,
    second: AttemptOutcome,
    third: AttemptOutcome,
)
    requires
        !attempt_succeeds(next_id, first),
        !attempt_succeeds(next_id, second),
        attempt_succeeds(next_id, third),
    ensures
        ({
            let job = SourceJob { state: JobState::Pending, attempts: 0 };
            let last = job.after_attempt(false).after_attempt(false).after_attempt(true);
            last == SourceJob { state: JobState::Success, attempts: 3 }
        }),
        records_after_attempt(
            records_after_attempt(records_after_attempt(records, next_id, first), next_id, second),
            next_id,
            third,
        ) == persisted(records, next_id, views(third->Extracted_0@)),
{
}

/// A script result with a malformed element fails the attempt as a whole:
/// it is reported as `MalformedItem`, settling it writes nothing, whatever
/// its other elements are, and the job is not a success by it.
pub proof fn lemma_malformed_result_writes_nothing(
    items: Vec<ScriptItem>,
    source: Seq<char>,
    now: Timestamp,
    job: SourceJob,
    records: Seq<ChapterView>,
    next_id: nat,
)
    requires
        !all_well_formed(items@, source, now),
        !job.is_over(),
    ensures
        script_outcome(ScriptValue::Array(items), source, now) == Err::<
            Seq<ChapterView>,
            ExtractionError,
        >(ExtractionError::MalformedItem),
        records_after_attempt(
            records,
            next_id,
            AttemptOutcome::Failed(ExtractionError::MalformedItem),
        ) == records,
        job.after_attempt(
            attempt_succeeds(next_id, AttemptOutcome::Failed(ExtractionError::MalformedItem)),
        ).state != JobState::Success,
{
}

/// Chapters whose keys are new to the store and differ from one another
/// are all inserted: the store grows by exactly their number.
pub proof fn lemma_new_items_all_inserted(
    records: Seq<ChapterView>,
    next_id: nat,
    items: Seq<ChapterView>,
)
    requires
        forall|j: int|
            0 <= j < items.len() ==> !has_key(records, (#[trigger] items[j]).manga, items[j].title),
        forall|j: int, k: int|
            0 <= j < k < items.len() ==> !((#[trigger] items[j]).manga == (#[trigger] items[k]).manga
                && items[j].title == items[k].title),
    ensures
        persisted(records, next_id, items).len() == records.len() + items.len(),
    decreases items.len(),
{
    if items.len() > 0 {
        let rest = items.drop_first();
        let grown = records.push(items[0].with_id(next_id as usize));
        assert forall|j: int| 0 <= j < rest.len() implies !has_key(
            grown,
            (#[trigger] rest[j]).manga,
            rest[j].title,
        ) by {
            assert(rest[j] == items[j + 1]);
            if has_key(grown, rest[j].manga, rest[j].title) {
                let at = choose|at: int|
                    0 <= at < grown.len() && (#[trigger] grown[at]).manga == rest[j].manga
                        && grown[at].title == rest[j].title;
                if at < records.len() {
                    assert(records[at].manga == rest[j].manga);
                    assert(has_key(records, items[j + 1].manga, items[j + 1].title));
                } else {
                    assert(!(items[0].manga == items[j + 1].manga && items[0].title == items[j
                        + 1].title));
                }
            }
        }
        assert forall|j: int, k: int| 0 <= j < k < rest.len() implies !((#[trigger] rest[j]).manga
            == (#[trigger] rest[k]).manga && rest[j].title == rest[k].title) by {
            assert(rest[j] == items[j + 1] && rest[k] == items[k + 1]);
        }
        lemma_new_items_all_inserted(grown, next_id + 1, rest);
    }
}

} // verus!
