//! Jobs and their lifecycle records.
//!
//! A job's state machine is `Queued -> Running -> {Succeeded, Failed,
//! Canceled}`, with `Canceled` also reachable directly from `Queued`.
//! `started_at` is set exactly once, on the `Queued -> Running` transition;
//! `finished_at` is set exactly once, on any transition into a terminal
//! state.

use vstd::prelude::*;

use crate::clock::now_millis;
use crate::error::ErrorKind;
use crate::text::clone_strings;
use crate::valid_score;

verus! {

/// Lifecycle state of a job.
#[derive(Clone, Copy, Debug, PartialEq, Eq, Structural)]
pub enum JobState {
    Queued,
    Running,
    Succeeded,
    Failed,
    Canceled,
}

impl JobState {
    /// True for the states no transition ever leaves.
    pub open spec fn is_terminal(self) -> bool {
        self == JobState::Succeeded || self == JobState::Failed || self == JobState::Canceled
    }
}

/// The edges of the job state machine. `Queued` and `Running` are the only
/// states from which `Canceled` is reachable; terminal states have no
/// outgoing edges.
pub open spec fn allowed_transition(from: JobState, to: JobState) -> bool {
    ||| (from == JobState::Queued && to == JobState::Running)
    ||| (from == JobState::Queued && to == JobState::Canceled)
    ||| (from == JobState::Running && to.is_terminal())
}

/// One user-requested conversion and its execution lifecycle. `options`
/// carries request options as uninterpreted JSON text; `progress` is a
/// per-mille fraction of completed steps.
pub struct Job {
    pub id: String,
    pub state: JobState,
    pub inputs: Vec<String>,
    pub target_format: String,
    pub recipe_id: Option<String>,
    pub options: String,
    pub progress: u32,
    pub stage: Option<String>,
    pub eta_ms: Option<u64>,
    pub created_at: i64,
    pub started_at: Option<i64>,
    pub finished_at: Option<i64>,
    pub error: Option<String>,
    pub error_kind: Option<ErrorKind>,
}

/// Mathematical model of a [`Job`].
pub ghost struct JobView {
    pub id: Seq<char>,
    pub state: JobState,
    pub inputs: Seq<Seq<char>>,
    pub target_format: Seq<char>,
    pub recipe_id: Option<Seq<char>>,
    pub options: Seq<char>,
    pub progress: u32,
    pub stage: Option<Seq<char>>,
    pub eta_ms: Option<u64>,
    pub created_at: i64,
    pub started_at: Option<i64>,
    pub finished_at: Option<i64>,
    pub error: Option<Seq<char>>,
    pub error_kind: Option<ErrorKind>,
}

impl View for Job {
    type V = JobView;

    open spec fn view(&self) -> JobView {
        JobView {
            id: self.id@,
            state: self.state,
            inputs: self.inputs.deep_view(),
            target_format: self.target_format@,
            recipe_id: self.recipe_id.deep_view(),
            options: self.options@,
            progress: self.progress,
            stage: self.stage.deep_view(),
            eta_ms: self.eta_ms,
            created_at: self.created_at,
            started_at: self.started_at,
            finished_at: self.finished_at,
            error: self.error.deep_view(),
            error_kind: self.error_kind,
        }
    }
}

impl DeepView for Job {
    type V = JobView;

    open spec fn deep_view(&self) -> JobView {
        self.view()
    }
}

impl Clone for Job {
    fn clone(&self) -> (r: Self)
        ensures
            r@ == self@,
    {
        Job {
            id: self.id.clone(),
            state: self.state,
            inputs: clone_strings(&self.inputs),
            target_format: self.target_format.clone(),
            recipe_id: self.recipe_id.clone(),
            options: self.options.clone(),
            progress: self.progress,
            stage: self.stage.clone(),
            eta_ms: self.eta_ms,
            created_at: self.created_at,
            started_at: self.started_at,
            finished_at: self.finished_at,
            error: self.error.clone(),
            error_kind: self.error_kind,
        }
    }
}

impl JobView {
    /// Coupling of state and timestamps, maintained by every transition:
    /// a queued job has neither timestamp; a running job has started but not
    /// finished; a succeeded or failed job has both; a canceled job has
    /// finished, and has started exactly when it was running at the time the
    /// cancellation was acknowledged.
    pub open spec fn wf(self) -> bool {
        &&& valid_score(self.progress)
        &&& (self.state == JobState::Queued ==> self.started_at is None && self.finished_at is None)
        &&& (self.state == JobState::Running ==> self.started_at is Some && self.finished_at is None)
        &&& (self.state == JobState::Succeeded ==> self.started_at is Some && self.finished_at is Some)
        &&& (self.state == JobState::Failed ==> self.started_at is Some && self.finished_at is Some)
        &&& (self.state == JobState::Canceled ==> self.finished_at is Some)
    }
}

/// Relies on uuid's `Uuid::new_v4` and its hyphenated `Display` form: a
/// fresh random identifier of 36 characters. The value is random, so nothing
/// more is promised of it.
#[verifier::external_body]
pub(crate) fn fresh_id() -> (r: String)
    ensures
        r@.len() == 36,
{
    uuid::Uuid::new_v4().to_string()
}

impl Job {
    /// Creates a queued job with a fresh random identifier, the current time
    /// as creation time, zero progress, and no timestamps, stage, or error.
    pub fn new(
        inputs: Vec<String>,
        target_format: String,
        recipe_id: Option<String>,
        options: String,
    ) -> (r: Job)
        ensures
            r@.state == JobState::Queued,
            r@.inputs == inputs.deep_view(),
            r@.target_format == target_format@,
            r@.recipe_id == recipe_id.deep_view(),
            r@.options == options@,
            r@.progress == 0,
            r@.stage is None,
            r@.eta_ms is None,
            r@.started_at is None,
            r@.finished_at is None,
            r@.error is None,
            r@.error_kind is None,
            r@.wf(),
    {
        Job {
            id: fresh_id(),
            state: JobState::Queued,
            inputs,
            target_format,
            recipe_id,
            options,
            progress: 0,
            stage: None,
            eta_ms: None,
            created_at: now_millis(),
            started_at: None,
            finished_at: None,
            error: None,
            error_kind: None,
        }
    }
}

/// A control action requested on a job. Only `Cancel` takes effect; the
/// others are reserved and currently have no effect.
#[derive(Clone, Copy, Debug, PartialEq, Eq, Structural)]
pub enum JobAction {
    Pause,
    Resume,
    Cancel,
    Retry,
}

/// Progress event for a running job.
pub struct JobProgress {
    pub job_id: String,
    pub progress: u32,
    pub stage: String,
    pub eta_ms: Option<u64>,
}

/// State-change event for a job.
pub struct JobStateChanged {
    pub job_id: String,
    pub old_state: JobState,
    pub new_state: JobState,
    pub error: Option<String>,
}

/// Event announcing a produced output file.
pub struct ArtifactReady {
    pub job_id: String,
    pub path: String,
    pub size_bytes: u64,
    pub format: String,
}

/// An immutable record of one produced output file, linked to the job that
/// produced it.
pub struct Artifact {
    pub id: String,
    pub job_id: String,
    pub path: String,
    pub filename: String,
    pub size_bytes: u64,
    pub format: String,
    pub created_at: i64,
}

impl Clone for Artifact {
    fn clone(&self) -> (r: Self)
        ensures
            r == *self,
    {
        Artifact {
            id: self.id.clone(),
            job_id: self.job_id.clone(),
            path: self.path.clone(),
            filename: self.filename.clone(),
            size_bytes: self.size_bytes,
            format: self.format.clone(),
            created_at: self.created_at,
        }
    }
}

/// Severity of a log entry.
#[derive(Clone, Copy, Debug, PartialEq, Eq, Structural)]
pub enum LogLevel {
    Debug,
    Info,
    Warn,
    Error,
}

/// One log line attached to a job. `context` carries structured context as
/// uninterpreted JSON text.
pub struct LogEntry {
    pub timestamp: i64,
    pub level: LogLevel,
    pub message: String,
    pub context: Option<String>,
}

} // verus!
