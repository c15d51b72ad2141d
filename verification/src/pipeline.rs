//! The pipeline: job bookkeeping, the job state machine, and the step-wise
//! executor protocol.
//!
//! The pipeline owns every job for its whole lifetime and is the only
//! component that mutates job state. Running an external tool is outside
//! work, so execution is a protocol: [`Pipeline::execute`] admits a job and
//! yields an [`Execution`] cursor, the caller runs one step through the
//! adapter and reports a [`StepOutcome`] to [`Pipeline::execute_step`],
//! which decides the next [`ExecAction`] — run or retry a step, await the
//! quality gate, or finish. Transient failures are retried with exponential
//! backoff up to [`MAX_STEP_RETRIES`]; permanent failures end the job with
//! the tool's message attached verbatim plus its classification.

use vstd::prelude::*;

use crate::clock::now_millis;
use crate::conversion::{ConversionPath, PathView};
use crate::error::{AppError, ErrorKind};
use crate::job::{allowed_transition, fresh_id, Artifact, Job, JobState, JobView};
use crate::text::{contains_str, str_eq};
use crate::{valid_score, SCALE};

verus! {

/// Bound on retries of one step.
pub const MAX_STEP_RETRIES: u32 = 2;

/// Delay before running attempt `attempts` of a step: nothing before the
/// first attempt, then an exponentially growing backoff.
pub open spec fn spec_backoff_ms(attempts: u32) -> u64 {
    if attempts == 0 {
        0
    } else if attempts == 1 {
        500
    } else {
        1000
    }
}

/// The backoff table as executable code.
pub fn backoff_ms(attempts: u32) -> (r: u64)
    ensures
        r == spec_backoff_ms(attempts),
{
    if attempts == 0 {
        0
    } else if attempts == 1 {
        500
    } else {
        1000
    }
}

/// What one successful step produced.
pub struct StepOutput {
    pub path: String,
    pub filename: String,
    pub size_bytes: u64,
}

impl Clone for StepOutput {
    fn clone(&self) -> (r: Self)
        ensures
            r == *self,
    {
        StepOutput {
            path: self.path.clone(),
            filename: self.filename.clone(),
            size_bytes: self.size_bytes,
        }
    }
}

/// What the adapter reported for one step attempt.
pub enum StepOutcome {
    /// The step finished and produced an output file.
    Completed(StepOutput),
    /// The step failed; `transient` carries the retry policy's
    /// classification of the failure.
    Failed { kind: ErrorKind, message: String, transient: bool },
}

/// What the caller must do next.
pub enum ExecAction {
    /// Run the given step through the adapter after waiting `backoff_ms`.
    RunStep { step_index: usize, converter_id: String, backoff_ms: u64 },
    /// Every step is complete; the quality gate decides acceptance.
    AwaitQualityGate,
    /// The job reached a terminal state; the job record says which.
    Finished,
}

/// Cursor of one job execution: which step is next and how many attempts
/// the current step has used.
pub struct Execution {
    pub job_id: String,
    pub path: ConversionPath,
    pub step_index: usize,
    pub attempts: u32,
    pub quality_threshold: Option<u32>,
    pub gate_pending: bool,
    pub pending_output: Option<StepOutput>,
    pub done: bool,
}

impl Execution {
    /// The cursor stays within the path and the retry bound.
    pub open spec fn wf(self) -> bool {
        &&& 1 <= self.path@.steps.len() <= 8
        &&& self.step_index <= self.path@.steps.len()
        &&& self.attempts <= MAX_STEP_RETRIES
    }
}

/// The job after taking the edge to `s` at time `now`: `started_at` is set
/// exactly on entering `Running`, `finished_at` exactly on entering a
/// terminal state.
pub open spec fn transitioned(j: JobView, s: JobState, now: i64) -> JobView {
    JobView {
        state: s,
        started_at: if s == JobState::Running {
            Some(now)
        } else {
            j.started_at
        },
        finished_at: if s.is_terminal() {
            Some(now)
        } else {
            j.finished_at
        },
        ..j
    }
}

/// True when some listed job carries the given id.
pub open spec fn has_job(jobs: Seq<JobView>, id: Seq<char>) -> bool {
    exists|i: int| 0 <= i < jobs.len() && (#[trigger] jobs[i]).id == id
}

/// True when the job with the given id is listed in state `s`.
pub open spec fn job_in_state(jobs: Seq<JobView>, id: Seq<char>, s: JobState) -> bool {
    exists|i: int| 0 <= i < jobs.len() && (#[trigger] jobs[i]).id == id && jobs[i].state == s
}

/// True when the job with the given id ended `Failed` carrying exactly this
/// message and classification.
pub open spec fn job_failed_with(
    jobs: Seq<JobView>,
    id: Seq<char>,
    msg: Seq<char>,
    kind: ErrorKind,
) -> bool {
    exists|i: int|
        0 <= i < jobs.len() && (#[trigger] jobs[i]).id == id && jobs[i].state == JobState::Failed
            && jobs[i].error == Some(msg) && jobs[i].error_kind == Some(kind)
}

/// `b` is reachable from `a` along zero or more allowed edges.
pub open spec fn state_reachable(a: JobState, b: JobState) -> bool {
    ||| a == b
    ||| allowed_transition(a, b)
    ||| (a == JobState::Queued && b.is_terminal())
}

/// Every job moved only along allowed edges, if at all.
pub open spec fn states_legal(jobs0: Seq<JobView>, jobs1: Seq<JobView>) -> bool {
    &&& jobs0.len() == jobs1.len()
    &&& forall|i: int|
        0 <= i < jobs0.len() ==> state_reachable(jobs0[i].state, (#[trigger] jobs1[i]).state)
}

/// Every job kept its state exactly.
pub open spec fn states_unchanged(jobs0: Seq<JobView>, jobs1: Seq<JobView>) -> bool {
    &&& jobs0.len() == jobs1.len()
    &&& forall|i: int| 0 <= i < jobs0.len() ==> (#[trigger] jobs1[i]).state == jobs0[i].state
}

/// The pipeline: the job table, the produced artifacts, and the set of jobs
/// whose cancellation has been requested but not yet acknowledged.
pub struct Pipeline {
    jobs: Vec<Job>,
    artifacts: Vec<Artifact>,
    cancel_requested: Vec<String>,
}

/// Mathematical model of a [`Pipeline`].
pub ghost struct PipelineView {
    pub jobs: Seq<JobView>,
    pub artifacts: Seq<Artifact>,
    pub cancel_requested: Seq<Seq<char>>,
}

impl View for Pipeline {
    type V = PipelineView;

    closed spec fn view(&self) -> PipelineView {
        PipelineView {
            jobs: self.jobs.deep_view(),
            artifacts: self.artifacts@,
            cancel_requested: self.cancel_requested.deep_view(),
        }
    }
}

impl PipelineView {
    /// Well-formedness: every job observes the state/timestamp coupling and
    /// job ids are distinct.
    pub open spec fn wf(self) -> bool {
        &&& forall|i: int| 0 <= i < self.jobs.len() ==> (#[trigger] self.jobs[i]).wf()
        &&& forall|i: int, j: int|
            0 <= i < j < self.jobs.len() ==> (#[trigger] self.jobs[i]).id != (
            #[trigger] self.jobs[j]).id
    }
}

/// The state/timestamp coupling of the job lifecycle: a queued job has
/// neither timestamp, a running job has started but not finished, a
/// succeeded or failed job has both, and a canceled job has finished. A job
/// canceled while still queued never ran, so its `started_at` stays `None`:
/// that is the one state in which `started_at` does not determine whether
/// the state is `Queued`.
pub proof fn lemma_job_state_machine(j: JobView)
    requires
        j.wf(),
    ensures
        j.state == JobState::Queued <==> (j.started_at is None && j.finished_at is None),
        j.finished_at is None <==> (j.state == JobState::Queued || j.state == JobState::Running),
        j.state == JobState::Running ==> j.started_at is Some,
        j.state == JobState::Succeeded || j.state == JobState::Failed ==> j.started_at is Some,
{
}

impl Pipeline {
    /// Creates a pipeline with no jobs, artifacts, or pending
    /// cancellations.
    pub fn new() -> (r: Pipeline)
        ensures
            r@.wf(),
            r@.jobs == Seq::<JobView>::empty(),
            r@.artifacts == Seq::<Artifact>::empty(),
            r@.cancel_requested == Seq::<Seq<char>>::empty(),
    {
        let r = Pipeline { jobs: Vec::new(), artifacts: Vec::new(), cancel_requested: Vec::new() };
        proof {
            assert(r@.jobs =~= Seq::<JobView>::empty());
            assert(r@.artifacts =~= Seq::<Artifact>::empty());
            assert(r@.cancel_requested =~= Seq::<Seq<char>>::empty());
        }
        r
    }

    /// Index of the job with the given id, if any.
    fn find_job(&self, job_id: &str) -> (r: Option<usize>)
        ensures
            match r {
                Some(i) => i < self@.jobs.len() && self@.jobs[i as int].id == job_id@,
                None => !has_job(self@.jobs, job_id@),
            },
    {
        let mut i: usize = 0;
        while i < self.jobs.len()
            invariant
                i <= self.jobs.len(),
                self@.jobs == self.jobs.deep_view(),
                forall|k: int| 0 <= k < i ==> (#[trigger] self@.jobs[k]).id != job_id@,
            decreases self.jobs.len() - i,
        {
            if str_eq(self.jobs[i].id.as_str(), job_id) {
                return Some(i);
            }
            i = i + 1;
        }
        None
    }

    /// Accepts a job into the queue under its own id. The job enters in
    /// state `Queued` with cleared timestamps; a second job under an
    /// already-queued id is rejected.
    pub fn submit(&mut self, job: Job) -> (r: Result<String, AppError>)
        requires
            old(self)@.wf(),
            valid_score(job@.progress),
        ensures
            final(self)@.wf(),
            final(self)@.artifacts == old(self)@.artifacts,
            final(self)@.cancel_requested == old(self)@.cancel_requested,
            r is Ok <==> !has_job(old(self)@.jobs, job@.id),
            match r {
                Ok(id) => id@ == job@.id && final(self)@.jobs == old(self)@.jobs.push(
                    JobView {
                        state: JobState::Queued,
                        started_at: None,
                        finished_at: None,
                        ..job@
                    },
                ),
                Err(e) => final(self)@ == old(self)@ && e is ValidationError,
            },
    {
        if let Some(_i) = self.find_job(job.id.as_str()) {
            return Err(AppError::ValidationError("a job with this id is already known".to_owned()));
        }
        let job_id = job.id.clone();
        let mut queued = job;
        queued.state = JobState::Queued;
        queued.started_at = None;
        queued.finished_at = None;
        let ghost qv = queued@;
        let ghost jobs0 = self@.jobs;
        self.jobs.push(queued);
        proof {
            assert(self@.jobs =~= jobs0.push(qv));
            assert forall|i: int, j: int| 0 <= i < j < self@.jobs.len() implies (
            #[trigger] self@.jobs[i]).id != (#[trigger] self@.jobs[j]).id by {
                if j == self@.jobs.len() - 1 {
                    assert(!has_job(jobs0, qv.id));
                }
            }
        }
        Ok(job_id)
    }

    /// Takes the job with the given id along the edge to `new_state` at
    /// time `now`. An unknown id is a validation error; an edge the state
    /// machine does not allow is an internal error and changes nothing.
    pub fn update_job_state(&mut self, job_id: &str, new_state: JobState, now: i64) -> (r: Result<
        (),
        AppError,
    >)
        requires
            old(self)@.wf(),
        ensures
            final(self)@.wf(),
            final(self)@.artifacts == old(self)@.artifacts,
            final(self)@.cancel_requested == old(self)@.cancel_requested,
            states_legal(old(self)@.jobs, final(self)@.jobs),
            match r {
                Ok(_) => exists|i: int|
                    0 <= i < old(self)@.jobs.len() && (#[trigger] old(self)@.jobs[i]).id == job_id@
                        && allowed_transition(old(self)@.jobs[i].state, new_state)
                        && final(self)@.jobs == old(self)@.jobs.update(
                        i,
                        transitioned(old(self)@.jobs[i], new_state, now),
                    ),
                Err(e) => final(self)@ == old(self)@ && ((e is ValidationError && !has_job(
                    old(self)@.jobs,
                    job_id@,
                )) || (e is Internal && exists|i: int|
                    0 <= i < old(self)@.jobs.len() && (#[trigger] old(self)@.jobs[i]).id == job_id@
                        && !allowed_transition(old(self)@.jobs[i].state, new_state))),
            },
    {
        let idx = match self.find_job(job_id) {
            Some(i) => i,
            None => {
                return Err(AppError::ValidationError("unknown job id".to_owned()));
            },
        };
        let from = self.jobs[idx].state;
        let legal = match (from, new_state) {
            (JobState::Queued, JobState::Running) => true,
            (JobState::Queued, JobState::Canceled) => true,
            (JobState::Running, JobState::Succeeded) => true,
            (JobState::Running, JobState::Failed) => true,
            (JobState::Running, JobState::Canceled) => true,
            _ => false,
        };
        if !legal {
            return Err(
                AppError::Internal("job state transition not allowed by the lifecycle".to_owned()),
            );
        }
        let ghost jobs0 = self@.jobs;
        let mut j = self.jobs[idx].clone();
        j.state = new_state;
        if matches!(new_state, JobState::Running) {
            j.started_at = Some(now);
        }
        if matches!(new_state, JobState::Succeeded | JobState::Failed | JobState::Canceled) {
            j.finished_at = Some(now);
        }
        let ghost jv = j@;
        self.jobs.set(idx, j);
        proof {
            assert(self@.jobs =~= jobs0.update(idx as int, jv));
            assert(jv == transitioned(jobs0[idx as int], new_state, now));
        }
        Ok(())
    }

    /// Requests cancellation of a job, cooperatively.
    ///
    /// A queued job is canceled immediately and never enters `Running`; for
    /// a running job the request is recorded and the executor acknowledges
    /// it between steps; canceling a job already in a terminal state is a
    /// no-op, not an error.
    pub fn cancel(&mut self, job_id: &str) -> (r: Result<(), AppError>)
        requires
            old(self)@.wf(),
        ensures
            final(self)@.wf(),
            final(self)@.artifacts == old(self)@.artifacts,
            states_legal(old(self)@.jobs, final(self)@.jobs),
            r is Ok <==> has_job(old(self)@.jobs, job_id@),
            match r {
                Ok(_) => exists|i: int|
                    0 <= i < old(self)@.jobs.len() && (#[trigger] old(self)@.jobs[i]).id == job_id@
                        && {
                        let j0 = old(self)@.jobs[i];
                        if j0.state == JobState::Queued {
                            // canceled directly, without ever running
                            exists|t: i64|
                                final(self)@.jobs == old(self)@.jobs.update(
                                    i,
                                    #[trigger] transitioned(j0, JobState::Canceled, t),
                                ) && final(self)@.jobs[i].started_at is None
                        } else if j0.state == JobState::Running {
                            final(self)@.jobs == old(self)@.jobs
                                && final(self)@.cancel_requested.contains(job_id@)
                        } else {
                            final(self)@ == old(self)@
                        }
                    },
                Err(e) => final(self)@ == old(self)@ && e is ValidationError,
            },
    {
        let idx = match self.find_job(job_id) {
            Some(i) => i,
            None => {
                return Err(AppError::ValidationError("unknown job id".to_owned()));
            },
        };
        let state = self.jobs[idx].state;
        if matches!(state, JobState::Queued) {
            let now = now_millis();
            let ghost jobs0 = self@.jobs;
            let mut j = self.jobs[idx].clone();
            j.state = JobState::Canceled;
            j.finished_at = Some(now);
            let ghost jv = j@;
            self.jobs.set(idx, j);
            proof {
                assert(self@.jobs =~= jobs0.update(idx as int, jv));
                assert(jv == transitioned(jobs0[idx as int], JobState::Canceled, now));
                assert(self@.jobs[idx as int].started_at is None);
            }
            Ok(())
        } else if matches!(state, JobState::Running) {
            if !contains_str(&self.cancel_requested, job_id) {
                let ghost cr0 = self@.cancel_requested;
                self.cancel_requested.push(job_id.to_owned());
                proof {
                    assert(self@.cancel_requested =~= cr0.push(job_id@));
                    crate::text::lemma_push_contains(cr0, job_id@, job_id@);
                }
            }
            Ok(())
        } else {
            Ok(())
        }
    }

    /// A consistent snapshot of the job with the given id.
    pub fn get_job(&self, job_id: &str) -> (r: Result<Option<Job>, AppError>)
        ensures
            r is Ok,
            match r {
                Ok(opt) => {
                    &&& opt is Some <==> has_job(self@.jobs, job_id@)
                    &&& match opt {
                        Some(j) => j@.id == job_id@ && self@.jobs.contains(j@),
                        None => !has_job(self@.jobs, job_id@),
                    }
                },
                Err(_) => false,
            },
    {
        match self.find_job(job_id) {
            Some(i) => {
                let j = self.jobs[i].clone();
                proof {
                    assert(self@.jobs[i as int] == j@);
                    assert(self@.jobs.contains(j@));
                }
                Ok(Some(j))
            },
            None => Ok(None),
        }
    }

    /// A consistent snapshot of every job.
    pub fn list_jobs(&self) -> (r: Result<Vec<Job>, AppError>)
        ensures
            r is Ok,
            match r {
                Ok(l) => l.deep_view() == self@.jobs,
                Err(_) => false,
            },
    {
        let mut l: Vec<Job> = Vec::new();
        let mut i: usize = 0;
        while i < self.jobs.len()
            invariant
                i <= self.jobs.len(),
                self@.jobs == self.jobs.deep_view(),
                l.deep_view() =~= self@.jobs.subrange(0, i as int),
            decreases self.jobs.len() - i,
        {
            let ghost prev = l.deep_view();
            l.push(self.jobs[i].clone());
            proof {
                assert(l.deep_view() =~= prev.push(self@.jobs[i as int]));
                assert(l.deep_view() =~= self@.jobs.subrange(0, i as int + 1));
            }
            i = i + 1;
        }
        proof {
            assert(l.deep_view() =~= self@.jobs);
        }
        Ok(l)
    }

    /// The artifacts produced by the given job.
    pub fn get_artifacts(&self, job_id: &str) -> (r: Vec<Artifact>)
        ensures
            forall|k: int|
                0 <= k < r@.len() ==> self@.artifacts.contains(#[trigger] r@[k]) && r@[k].job_id@
                    == job_id@,
            forall|k: int|
                0 <= k < self@.artifacts.len() && (#[trigger] self@.artifacts[k]).job_id@ == job_id@
                    ==> r@.contains(self@.artifacts[k]),
    {
        let mut r: Vec<Artifact> = Vec::new();
        let mut i: usize = 0;
        while i < self.artifacts.len()
            invariant
                i <= self.artifacts.len(),
                self@.artifacts == self.artifacts@,
                forall|k: int|
                    0 <= k < r@.len() ==> self@.artifacts.contains(#[trigger] r@[k])
                        && r@[k].job_id@ == job_id@,
                forall|k: int|
                    0 <= k < i && (#[trigger] self@.artifacts[k]).job_id@ == job_id@ ==> r@.contains(
                        self@.artifacts[k],
                    ),
            decreases self.artifacts.len() - i,
        {
            if str_eq(self.artifacts[i].job_id.as_str(), job_id) {
                let ghost prev = r@;
                let a = self.artifacts[i].clone();
                proof {
                    assert(a == self@.artifacts[i as int]);
                    assert(self@.artifacts.contains(a));
                }
                r.push(a);
                proof {
                    assert(r@ =~= prev.push(self@.artifacts[i as int]));
                    assert forall|k: int|
                        0 <= k < i + 1 && (#[trigger] self@.artifacts[k]).job_id@ == job_id@
                            implies r@.contains(self@.artifacts[k]) by {
                        crate::text::lemma_push_contains(
                            prev,
                            self@.artifacts[i as int],
                            self@.artifacts[k],
                        );
                        if k < i {
                            assert(prev.contains(self@.artifacts[k]));
                        }
                    }
                    assert forall|k: int| 0 <= k < r@.len() implies self@.artifacts.contains(
                        #[trigger] r@[k],
                    ) && r@[k].job_id@ == job_id@ by {
                        if k < prev.len() {
                            assert(r@[k] == prev[k]);
                        } else {
                            assert(r@[k] == self@.artifacts[i as int]);
                        }
                    }
                }
            }
            i = i + 1;
        }
        r
    }

    /// Admits a queued job for execution against a planned path.
    ///
    /// With no path at all — the target was unreachable — the job moves to
    /// `Failed` with kind `ValidationError` before any tool invocation, and
    /// no execution cursor is produced. Otherwise the job starts running
    /// and the returned cursor begins at the first step.
    pub fn execute(
        &mut self,
        job_id: &str,
        path: Option<&ConversionPath>,
        quality_threshold: Option<u32>,
        now: i64,
    ) -> (r: Result<Option<Execution>, AppError>)
        requires
            old(self)@.wf(),
            match path {
                Some(p) => 1 <= p@.steps.len() <= 8,
                None => true,
            },
        ensures
            final(self)@.wf(),
            final(self)@.artifacts == old(self)@.artifacts,
            final(self)@.cancel_requested == old(self)@.cancel_requested,
            states_legal(old(self)@.jobs, final(self)@.jobs),
            match r {
                Ok(opt) => job_in_state(old(self)@.jobs, job_id@, JobState::Queued) && match opt {
                    None => path is None && job_failed_with(
                        final(self)@.jobs,
                        job_id@,
                        "no conversion path to the target format"@,
                        ErrorKind::ValidationError,
                    ),
                    Some(ex) => path matches Some(p) && ex.job_id@ == job_id@ && ex.path@ == p@
                        && ex.step_index == 0 && ex.attempts == 0 && !ex.done && !ex.gate_pending
                        && ex.pending_output is None && ex.quality_threshold == quality_threshold
                        && ex.wf() && job_in_state(final(self)@.jobs, job_id@, JobState::Running),
                },
                Err(e) => final(self)@ == old(self)@ && e is ValidationError && !job_in_state(
                    old(self)@.jobs,
                    job_id@,
                    JobState::Queued,
                ),
            },
    {
        let idx = match self.find_job(job_id) {
            Some(i) => i,
            None => {
                proof {
                    assert(!job_in_state(self@.jobs, job_id@, JobState::Queued));
                }
                return Err(AppError::ValidationError("unknown job id".to_owned()));
            },
        };
        if !matches!(self.jobs[idx].state, JobState::Queued) {
            proof {
                assert forall|i: int|
                    0 <= i < self@.jobs.len() && (#[trigger] self@.jobs[i]).id == job_id@ implies
                    self@.jobs[i].state != JobState::Queued by {
                    if i < idx {
                        assert(self@.jobs[i].id != self@.jobs[idx as int].id);
                    } else if i > idx {
                        assert(self@.jobs[idx as int].id != self@.jobs[i].id);
                    }
                }
            }
            return Err(AppError::ValidationError("job is not queued".to_owned()));
        }
        let ghost jobs0 = self@.jobs;
        match path {
            None => {
                let mut j = self.jobs[idx].clone();
                j.state = JobState::Failed;
                j.started_at = Some(now);
                j.finished_at = Some(now);
                j.error = Some("no conversion path to the target format".to_owned());
                j.error_kind = Some(ErrorKind::ValidationError);
                let ghost jv = j@;
                self.jobs.set(idx, j);
                proof {
                    assert(self@.jobs =~= jobs0.update(idx as int, jv));
                    assert(allowed_transition(JobState::Queued, JobState::Running));
                    assert(allowed_transition(JobState::Running, JobState::Failed));
                    assert(self@.jobs[idx as int].id == job_id@);
                    assert(job_failed_with(
                        self@.jobs,
                        job_id@,
                        "no conversion path to the target format"@,
                        ErrorKind::ValidationError,
                    ));
                }
                Ok(None)
            },
            Some(p) => {
                let mut j = self.jobs[idx].clone();
                j.state = JobState::Running;
                j.started_at = Some(now);
                let ghost jv = j@;
                self.jobs.set(idx, j);
                proof {
                    assert(self@.jobs =~= jobs0.update(idx as int, jv));
                    assert(self@.jobs[idx as int].id == job_id@);
                    assert(job_in_state(self@.jobs, job_id@, JobState::Running));
                }
                let ex = Execution {
                    job_id: job_id.to_owned(),
                    path: p.clone(),
                    step_index: 0,
                    attempts: 0,
                    quality_threshold,
                    gate_pending: false,
                    pending_output: None,
                    done: false,
                };
                Ok(Some(ex))
            },
        }
    }

    /// Moves the job with the given id, which must be running, to a
    /// terminal state and records the error fields when it failed.
    fn finish_running_job(
        &mut self,
        job_id: &str,
        to: JobState,
        error: Option<String>,
        error_kind: Option<ErrorKind>,
        now: i64,
    ) -> (r: Result<(), AppError>)
        requires
            old(self)@.wf(),
            to.is_terminal(),
        ensures
            final(self)@.wf(),
            final(self)@.artifacts == old(self)@.artifacts,
            final(self)@.cancel_requested == old(self)@.cancel_requested,
            states_legal(old(self)@.jobs, final(self)@.jobs),
            r is Ok <==> job_in_state(old(self)@.jobs, job_id@, JobState::Running),
            match r {
                Ok(_) => exists|i: int|
                    0 <= i < old(self)@.jobs.len() && (#[trigger] old(self)@.jobs[i]).id == job_id@
                        && old(self)@.jobs[i].state == JobState::Running
                        && final(self)@.jobs == old(self)@.jobs.update(
                        i,
                        JobView {
                            state: to,
                            finished_at: Some(now),
                            error: error.deep_view(),
                            error_kind: error_kind,
                            progress: if to == JobState::Succeeded {
                                SCALE
                            } else {
                                old(self)@.jobs[i].progress
                            },
                            ..old(self)@.jobs[i]
                        },
                    ),
                Err(e) => final(self)@ == old(self)@ && e is Internal,
            },
    {
        let idx = match self.find_job(job_id) {
            Some(i) => i,
            None => {
                proof {
                    assert(!job_in_state(self@.jobs, job_id@, JobState::Running));
                }
                return Err(AppError::Internal("executed job is unknown".to_owned()));
            },
        };
        if !matches!(self.jobs[idx].state, JobState::Running) {
            proof {
                assert forall|i: int|
                    0 <= i < self@.jobs.len() && (#[trigger] self@.jobs[i]).id == job_id@ implies
                    self@.jobs[i].state != JobState::Running by {
                    if i < idx {
                        assert(self@.jobs[i].id != self@.jobs[idx as int].id);
                    } else if i > idx {
                        assert(self@.jobs[idx as int].id != self@.jobs[i].id);
                    }
                }
            }
            return Err(AppError::Internal("executed job is not running".to_owned()));
        }
        let ghost jobs0 = self@.jobs;
        let mut j = self.jobs[idx].clone();
        j.state = to;
        j.finished_at = Some(now);
        j.error = error;
        j.error_kind = error_kind;
        if matches!(to, JobState::Succeeded) {
            j.progress = SCALE;
        }
        let ghost jv = j@;
        self.jobs.set(idx, j);
        proof {
            assert(self@.jobs =~= jobs0.update(idx as int, jv));
            assert(allowed_transition(JobState::Running, to));
        }
        Ok(())
    }

    /// Feeds one step's outcome back and decides what happens next.
    ///
    /// A pending cancellation is acknowledged first: the job moves to
    /// `Canceled` and nothing further runs. A completed step advances the
    /// cursor, updates progress and stage, and on the last step either
    /// hands over to the quality gate or finishes the job successfully,
    /// recording its artifact. A transient failure with attempts left
    /// re-runs the same step after an exponential backoff; any other
    /// failure ends the job `Failed` with the reported message attached
    /// verbatim plus its classification.
    pub fn execute_step(&mut self, ex: &mut Execution, outcome: StepOutcome, now: i64) -> (r:
        Result<ExecAction, AppError>)
        requires
            old(self)@.wf(),
            old(ex).wf(),
            !old(ex).done,
            !old(ex).gate_pending,
            old(ex).step_index < old(ex).path@.steps.len(),
        ensures
            final(self)@.wf(),
            final(ex).wf(),
            final(ex).job_id@ == old(ex).job_id@,
            final(ex).path@ == old(ex).path@,
            final(ex).quality_threshold == old(ex).quality_threshold,
            states_legal(old(self)@.jobs, final(self)@.jobs),
            final(self)@.cancel_requested == old(self)@.cancel_requested,
            match r {
                Ok(action) => {
                    if old(self)@.cancel_requested.contains(old(ex).job_id@) {
                        // cancellation acknowledged between steps
                        &&& action is Finished
                        &&& final(ex).done
                        &&& exists|i: int|
                            0 <= i < old(self)@.jobs.len() && (#[trigger] old(self)@.jobs[i]).id
                                == old(ex).job_id@ && old(self)@.jobs[i].state == JobState::Running
                                && final(self)@.jobs == old(self)@.jobs.update(
                                i,
                                JobView {
                                    state: JobState::Canceled,
                                    finished_at: Some(now),
                                    error: None,
                                    error_kind: None,
                                    ..old(self)@.jobs[i]
                                },
                            )
                        &&& final(self)@.artifacts == old(self)@.artifacts
                    } else {
                        match outcome {
                            StepOutcome::Completed(out) => {
                                if old(ex).step_index + 1 < old(ex).path@.steps.len() {
                                    &&& action matches ExecAction::RunStep {
                                        step_index,
                                        converter_id,
                                        backoff_ms,
                                    } && step_index == old(ex).step_index + 1 && converter_id@
                                        == old(ex).path@.steps[old(ex).step_index + 1].converter_id
                                        && backoff_ms == 0
                                    &&& final(ex).step_index == old(ex).step_index + 1
                                    &&& final(ex).attempts == 0
                                    &&& !final(ex).done
                                    &&& !final(ex).gate_pending
                                    // progress becomes completed/total; stage the
                                    // completed step's target format
                                    &&& exists|i: int|
                                        0 <= i < old(self)@.jobs.len() && (#[trigger] old(
                                        self,
                                        )@.jobs[i]).id == old(ex).job_id@ && old(self)@.jobs[i].state
                                            == JobState::Running && final(self)@.jobs == old(
                                            self,
                                        )@.jobs.update(
                                            i,
                                            JobView {
                                                progress: ((((old(ex).step_index + 1) * (
                                                SCALE as int)) / (old(
                                                    ex,
                                                ).path@.steps.len() as int)) as u32),
                                                stage: Some(
                                                    old(ex).path@.steps[old(
                                                        ex,
                                                    ).step_index as int].to_format,
                                                ),
                                                ..old(self)@.jobs[i]
                                            },
                                        )
                                    &&& final(self)@.artifacts == old(self)@.artifacts
                                } else if old(ex).quality_threshold is Some {
                                    &&& action is AwaitQualityGate
                                    &&& final(ex).gate_pending
                                    &&& final(ex).pending_output == Some(out)
                                    &&& !final(ex).done
                                    &&& final(self)@.jobs == old(self)@.jobs
                                    &&& final(self)@.artifacts == old(self)@.artifacts
                                } else {
                                    &&& action is Finished
                                    &&& final(ex).done
                                    // the job succeeds with full progress
                                    &&& exists|i: int|
                                        0 <= i < old(self)@.jobs.len() && (#[trigger] old(
                                        self,
                                        )@.jobs[i]).id == old(ex).job_id@ && old(self)@.jobs[i].state
                                            == JobState::Running && final(self)@.jobs == old(
                                            self,
                                        )@.jobs.update(
                                            i,
                                            JobView {
                                                state: JobState::Succeeded,
                                                finished_at: Some(now),
                                                error: None,
                                                error_kind: None,
                                                progress: SCALE,
                                                ..old(self)@.jobs[i]
                                            },
                                        )
                                    &&& final(self)@.artifacts.len() == old(self)@.artifacts.len()
                                        + 1
                                    &&& {
                                        let a = final(self)@.artifacts[final(self)@.artifacts.len()
                                            - 1];
                                        &&& a.job_id@ == old(ex).job_id@
                                        &&& a.path@ == out.path@
                                        &&& a.filename@ == out.filename@
                                        &&& a.size_bytes == out.size_bytes
                                        &&& a.format@ == old(ex).path@.steps[old(ex).path@.steps.len() - 1].to_format
                                        &&& a.created_at == now
                                    }
                                }
                            },
                            StepOutcome::Failed { kind, message, transient } => {
                                if transient && old(ex).attempts < MAX_STEP_RETRIES {
                                    &&& action matches ExecAction::RunStep {
                                        step_index,
                                        converter_id,
                                        backoff_ms,
                                    } && step_index == old(ex).step_index && converter_id@
                                        == old(ex).path@.steps[old(ex).step_index as int].converter_id
                                        && backoff_ms == spec_backoff_ms((old(ex).attempts + 1) as u32)
                                    &&& final(ex).step_index == old(ex).step_index
                                    &&& final(ex).attempts == old(ex).attempts + 1
                                    &&& !final(ex).done
                                    &&& !final(ex).gate_pending
                                    &&& final(self)@.jobs == old(self)@.jobs
                                    &&& final(self)@.artifacts == old(self)@.artifacts
                                } else {
                                    // retries exhausted or permanent: the last
                                    // message is preserved verbatim
                                    &&& action is Finished
                                    &&& final(ex).done
                                    &&& job_failed_with(
                                        final(self)@.jobs,
                                        old(ex).job_id@,
                                        message@,
                                        kind,
                                    )
                                    &&& exists|i: int|
                                        0 <= i < old(self)@.jobs.len() && (#[trigger] old(
                                        self,
                                        )@.jobs[i]).id == old(ex).job_id@ && old(self)@.jobs[i].state
                                            == JobState::Running && final(self)@.jobs == old(
                                            self,
                                        )@.jobs.update(
                                            i,
                                            JobView {
                                                state: JobState::Failed,
                                                finished_at: Some(now),
                                                error: Some(message@),
                                                error_kind: Some(kind),
                                                ..old(self)@.jobs[i]
                                            },
                                        )
                                    &&& final(self)@.artifacts == old(self)@.artifacts
                                }
                            },
                        }
                    }
                },
                Err(e) => final(self)@ == old(self)@ && *final(ex) == *old(ex) && e is Internal
                    && !job_in_state(old(self)@.jobs, old(ex).job_id@, JobState::Running),
            },
    {
        let cancel_pending = contains_str(&self.cancel_requested, ex.job_id.as_str());
        if cancel_pending {
            let res = self.finish_running_job(
                ex.job_id.as_str(),
                JobState::Canceled,
                None,
                None,
                now,
            );
            match res {
                Ok(_) => {
                    ex.done = true;
                    proof {
                        let i = choose|i: int|
                            0 <= i < old(self)@.jobs.len() && (#[trigger] old(self)@.jobs[i]).id
                                == old(ex).job_id@ && old(self)@.jobs[i].state == JobState::Running
                                && final(self)@.jobs == old(self)@.jobs.update(
                                i,
                                JobView {
                                    state: JobState::Canceled,
                                    finished_at: Some(now),
                                    error: None,
                                    error_kind: None,
                                    progress: old(self)@.jobs[i].progress,
                                    ..old(self)@.jobs[i]
                                },
                            );
                        assert(self@.jobs[i].id == old(ex).job_id@);
                        assert(job_in_state(self@.jobs, old(ex).job_id@, JobState::Canceled));
                    }
                    return Ok(ExecAction::Finished);
                },
                Err(e) => {
                    return Err(e);
                },
            }
        }
        match outcome {
            StepOutcome::Completed(out) => {
                let total = ex.path.steps.len();
                if ex.step_index + 1 < total {
                    // intermediate step: the output feeds the next step
                    let next = ex.step_index + 1;
                    let stage = ex.path.steps[ex.step_index].to_format.clone();
                    let progress: u32 = (((next as u64) * (SCALE as u64)) / (total as u64)) as u32;
                    proof {
                        assert((next as u64) * (SCALE as u64) <= 8 * 1000) by (nonlinear_arith)
                            requires next <= 8, SCALE == 1000, 0 <= next as u64;
                        assert(((next as u64) * (SCALE as u64)) / (total as u64 as int) <= 1000)
                            by (nonlinear_arith)
                            requires
                                0 < total as u64,
                                next as u64 <= total as u64,
                                SCALE == 1000,
                        ;
                    }
                    let upd = self.update_running_progress(
                        ex.job_id.as_str(),
                        progress,
                        Some(stage),
                        now,
                    );
                    match upd {
                        Ok(_) => {
                            ex.step_index = next;
                            ex.attempts = 0;
                            let converter_id = ex.path.steps[next].converter_id.clone();
                            Ok(ExecAction::RunStep { step_index: next, converter_id, backoff_ms: 0 })
                        },
                        Err(e) => Err(e),
                    }
                } else if ex.quality_threshold.is_some() {
                    // nothing is left to convert, but acceptance is gated
                    let probe = self.find_job(ex.job_id.as_str());
                    match probe {
                        Some(i) => {
                            if matches!(self.jobs[i].state, JobState::Running) {
                                ex.gate_pending = true;
                                ex.pending_output = Some(out);
                                Ok(ExecAction::AwaitQualityGate)
                            } else {
                                proof {
                                    lemma_single_id(self@.jobs, old(ex).job_id@, i as int);
                                }
                                Err(AppError::Internal("executed job is not running".to_owned()))
                            }
                        },
                        None => Err(AppError::Internal("executed job is unknown".to_owned())),
                    }
                } else {
                    let format = ex.path.steps[ex.path.steps.len() - 1].to_format.clone();
                    let res = self.finish_running_job(
                        ex.job_id.as_str(),
                        JobState::Succeeded,
                        None,
                        None,
                        now,
                    );
                    match res {
                        Ok(_) => {
                            let ghost arts0 = self@.artifacts;
                            let artifact = Artifact {
                                id: fresh_id(),
                                job_id: ex.job_id.clone(),
                                path: out.path,
                                filename: out.filename,
                                size_bytes: out.size_bytes,
                                format,
                                created_at: now,
                            };
                            self.artifacts.push(artifact);
                            ex.done = true;
                            proof {
                                assert(self@.artifacts =~= arts0.push(
                                    self@.artifacts[self@.artifacts.len() - 1],
                                ));
                                let i = choose|i: int|
                                    0 <= i < old(self)@.jobs.len()
                                        && (#[trigger] old(self)@.jobs[i]).id == old(ex).job_id@
                                        && old(self)@.jobs[i].state == JobState::Running
                                        && self@.jobs == old(self)@.jobs.update(
                                        i,
                                        JobView {
                                            state: JobState::Succeeded,
                                            finished_at: Some(now),
                                            error: None,
                                            error_kind: None,
                                            progress: SCALE,
                                            ..old(self)@.jobs[i]
                                        },
                                    );
                                assert(self@.jobs[i].state == JobState::Succeeded);
                                assert(self@.jobs[i].id == old(ex).job_id@);
                                assert(job_in_state(
                                    self@.jobs,
                                    old(ex).job_id@,
                                    JobState::Succeeded,
                                ));
                            }
                            Ok(ExecAction::Finished)
                        },
                        Err(e) => Err(e),
                    }
                }
            },
            StepOutcome::Failed { kind, message, transient } => {
                if transient && ex.attempts < MAX_STEP_RETRIES {
                    let probe = self.find_job(ex.job_id.as_str());
                    match probe {
                        Some(i) => {
                            if matches!(self.jobs[i].state, JobState::Running) {
                                ex.attempts = ex.attempts + 1;
                                let converter_id =
                                    ex.path.steps[ex.step_index].converter_id.clone();
                                let backoff = backoff_ms(ex.attempts);
                                Ok(
                                    ExecAction::RunStep {
                                        step_index: ex.step_index,
                                        converter_id,
                                        backoff_ms: backoff,
                                    },
                                )
                            } else {
                                proof {
                                    lemma_single_id(self@.jobs, old(ex).job_id@, i as int);
                                }
                                Err(AppError::Internal("executed job is not running".to_owned()))
                            }
                        },
                        None => Err(AppError::Internal("executed job is unknown".to_owned())),
                    }
                } else {
                    let res = self.finish_running_job(
                        ex.job_id.as_str(),
                        JobState::Failed,
                        Some(message),
                        Some(kind),
                        now,
                    );
                    match res {
                        Ok(_) => {
                            ex.done = true;
                            proof {
                                let i = choose|i: int|
                                    0 <= i < old(self)@.jobs.len()
                                        && (#[trigger] old(self)@.jobs[i]).id == old(ex).job_id@
                                        && old(self)@.jobs[i].state == JobState::Running;
                                assert(self@.jobs[i].id == old(ex).job_id@);
                            }
                            Ok(ExecAction::Finished)
                        },
                        Err(e) => Err(e),
                    }
                }
            },
        }
    }

    /// Updates progress and stage of a running job.
    fn update_running_progress(
        &mut self,
        job_id: &str,
        progress: u32,
        stage: Option<String>,
        now: i64,
    ) -> (r: Result<(), AppError>)
        requires
            old(self)@.wf(),
            valid_score(progress),
        ensures
            final(self)@.wf(),
            final(self)@.artifacts == old(self)@.artifacts,
            final(self)@.cancel_requested == old(self)@.cancel_requested,
            states_unchanged(old(self)@.jobs, final(self)@.jobs),
            r is Ok <==> job_in_state(old(self)@.jobs, job_id@, JobState::Running),
            r is Ok ==> exists|i: int|
                0 <= i < old(self)@.jobs.len() && (#[trigger] old(self)@.jobs[i]).id == job_id@
                    && old(self)@.jobs[i].state == JobState::Running
                    && final(self)@.jobs == old(self)@.jobs.update(
                    i,
                    JobView { progress, stage: stage.deep_view(), ..old(self)@.jobs[i] },
                ),
            r is Err ==> final(self)@ == old(self)@ && (r matches Err(e) ==> e is Internal),
        {
        let idx = match self.find_job(job_id) {
            Some(i) => i,
            None => {
                proof {
                    assert(!job_in_state(self@.jobs, job_id@, JobState::Running));
                }
                return Err(AppError::Internal("executed job is unknown".to_owned()));
            },
        };
        if !matches!(self.jobs[idx].state, JobState::Running) {
            proof {
                lemma_single_id(self@.jobs, job_id@, idx as int);
            }
            return Err(AppError::Internal("executed job is not running".to_owned()));
        }
        let ghost jobs0 = self@.jobs;
        let mut j = self.jobs[idx].clone();
        j.progress = progress;
        j.stage = stage;
        let ghost jv = j@;
        self.jobs.set(idx, j);
        proof {
            assert(self@.jobs =~= jobs0.update(idx as int, jv));
        }
        Ok(())
    }

    /// Applies the quality gate's verdict after the final step.
    ///
    /// A passing result finishes the job successfully and records its
    /// artifact; a failing gate ends the job `Failed` with reason
    /// `QualityBelowThreshold` — the conversion ran, the result was
    /// rejected.
    pub fn execute_gate(&mut self, ex: &mut Execution, passed: bool, now: i64) -> (r: Result<
        ExecAction,
        AppError,
    >)
        requires
            old(self)@.wf(),
            old(ex).wf(),
            !old(ex).done,
            old(ex).gate_pending,
            old(ex).pending_output is Some,
        ensures
            final(self)@.wf(),
            states_legal(old(self)@.jobs, final(self)@.jobs),
            final(self)@.cancel_requested == old(self)@.cancel_requested,
            match r {
                Ok(action) => {
                    &&& action is Finished
                    &&& final(ex).done
                    &&& if passed {
                        &&& exists|i: int|
                            0 <= i < old(self)@.jobs.len() && (#[trigger] old(self)@.jobs[i]).id
                                == old(ex).job_id@ && old(self)@.jobs[i].state == JobState::Running
                                && final(self)@.jobs == old(self)@.jobs.update(
                                i,
                                JobView {
                                    state: JobState::Succeeded,
                                    finished_at: Some(now),
                                    error: None,
                                    error_kind: None,
                                    progress: SCALE,
                                    ..old(self)@.jobs[i]
                                },
                            )
                        &&& final(self)@.artifacts.len() == old(self)@.artifacts.len() + 1
                    } else {
                        &&& job_failed_with(
                            final(self)@.jobs,
                            old(ex).job_id@,
                            "QualityBelowThreshold"@,
                            ErrorKind::ValidationError,
                        )
                        &&& exists|i: int|
                            0 <= i < old(self)@.jobs.len() && (#[trigger] old(self)@.jobs[i]).id
                                == old(ex).job_id@ && old(self)@.jobs[i].state == JobState::Running
                                && final(self)@.jobs == old(self)@.jobs.update(
                                i,
                                JobView {
                                    state: JobState::Failed,
                                    finished_at: Some(now),
                                    error: Some("QualityBelowThreshold"@),
                                    error_kind: Some(ErrorKind::ValidationError),
                                    ..old(self)@.jobs[i]
                                },
                            )
                        &&& final(self)@.artifacts == old(self)@.artifacts
                    }
                },
                Err(e) => final(self)@ == old(self)@ && *final(ex) == *old(ex) && e is Internal
                    && !job_in_state(old(self)@.jobs, old(ex).job_id@, JobState::Running),
            },
    {
        if passed {
            let format = ex.path.steps[ex.path.steps.len() - 1].to_format.clone();
            let res = self.finish_running_job(
                ex.job_id.as_str(),
                JobState::Succeeded,
                None,
                None,
                now,
            );
            match res {
                Ok(_) => {
                    let out = match ex.pending_output.take() {
                        Some(o) => o,
                        None => {
                            return Err(AppError::Internal("missing gated output".to_owned()));
                        },
                    };
                    let ghost arts0 = self@.artifacts;
                    let artifact = Artifact {
                        id: fresh_id(),
                        job_id: ex.job_id.clone(),
                        path: out.path,
                        filename: out.filename,
                        size_bytes: out.size_bytes,
                        format,
                        created_at: now,
                    };
                    self.artifacts.push(artifact);
                    ex.done = true;
                    ex.gate_pending = false;
                    proof {
                        assert(self@.artifacts =~= arts0.push(
                            self@.artifacts[self@.artifacts.len() - 1],
                        ));
                        let i = choose|i: int|
                            0 <= i < old(self)@.jobs.len() && (#[trigger] old(self)@.jobs[i]).id
                                == old(ex).job_id@ && old(self)@.jobs[i].state == JobState::Running
                                && self@.jobs == old(self)@.jobs.update(
                                i,
                                JobView {
                                    state: JobState::Succeeded,
                                    finished_at: Some(now),
                                    error: None,
                                    error_kind: None,
                                    progress: SCALE,
                                    ..old(self)@.jobs[i]
                                },
                            );
                        assert(self@.jobs[i].state == JobState::Succeeded);
                        assert(self@.jobs[i].id == old(ex).job_id@);
                        assert(job_in_state(self@.jobs, old(ex).job_id@, JobState::Succeeded));
                    }
                    Ok(ExecAction::Finished)
                },
                Err(e) => Err(e),
            }
        } else {
            let res = self.finish_running_job(
                ex.job_id.as_str(),
                JobState::Failed,
                Some("QualityBelowThreshold".to_owned()),
                Some(ErrorKind::ValidationError),
                now,
            );
            match res {
                Ok(_) => {
                    ex.done = true;
                    ex.gate_pending = false;
                    proof {
                        let i = choose|i: int|
                            0 <= i < old(self)@.jobs.len() && (#[trigger] old(self)@.jobs[i]).id
                                == old(ex).job_id@ && old(self)@.jobs[i].state == JobState::Running;
                        assert(self@.jobs[i].id == old(ex).job_id@);
                    }
                    Ok(ExecAction::Finished)
                },
                Err(e) => Err(e),
            }
        }
    }
}

/// In a well-formed job table, the job at position `idx` is the only one
/// carrying its id.
proof fn lemma_single_id(jobs: Seq<JobView>, id: Seq<char>, idx: int)
    requires
        forall|i: int, j: int|
            0 <= i < j < jobs.len() ==> (#[trigger] jobs[i]).id != (#[trigger] jobs[j]).id,
        0 <= idx < jobs.len(),
        jobs[idx].id == id,
        jobs[idx].state != JobState::Running,
    ensures
        !job_in_state(jobs, id, JobState::Running),
{
    assert forall|i: int|
        0 <= i < jobs.len() && (#[trigger] jobs[i]).id == id implies jobs[i].state
        != JobState::Running by {
        if i < idx {
            assert(jobs[i].id != jobs[idx].id);
        } else if i > idx {
            assert(jobs[idx].id != jobs[i].id);
        }
    }
}


} // verus!
