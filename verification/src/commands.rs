//! The command surface invoked by a presentation layer.
//!
//! The broker's components are owned by one explicitly constructed
//! [`AppContext`], created at process start and threaded through calls;
//! there is no hidden global state. Every fallible command returns the
//! structured [`ErrorResponse`] triple — no internal error type crosses
//! the boundary. File and process access stays with the caller, which
//! hands in plain values (bytes, probe results).

use vstd::prelude::*;

use crate::capability::{CapabilityRecord, HealthReport, ToolHealth};
use crate::conversion::ConversionTarget;
use crate::error::{kind_of, ErrorKind, ErrorResponse};
use crate::job::{Artifact, Job, JobAction, JobState, LogEntry};
use crate::pipeline::{has_job, Pipeline};
use crate::planner::Planner;
use crate::registry::Registry;
use crate::scheduler::Scheduler;
use crate::storage::Storage;

verus! {

/// User-facing settings, carried as plain values.
pub struct Settings {
    pub theme: String,
    pub language: String,
    pub quality_priority: String,
}

/// Mathematical model of a [`Settings`].
pub ghost struct SettingsView {
    pub theme: Seq<char>,
    pub language: Seq<char>,
    pub quality_priority: Seq<char>,
}

impl View for Settings {
    type V = SettingsView;

    open spec fn view(&self) -> SettingsView {
        SettingsView {
            theme: self.theme@,
            language: self.language@,
            quality_priority: self.quality_priority@,
        }
    }
}

impl Clone for Settings {
    fn clone(&self) -> (r: Self)
        ensures
            r@ == self@,
    {
        Settings {
            theme: self.theme.clone(),
            language: self.language.clone(),
            quality_priority: self.quality_priority.clone(),
        }
    }
}

impl Default for Settings {
    /// The out-of-the-box settings.
    fn default() -> (r: Self)
        ensures
            r@.theme == "system"@,
            r@.language == "zh-CN"@,
            r@.quality_priority == "balanced"@,
    {
        Settings {
            theme: "system".to_owned(),
            language: "zh-CN".to_owned(),
            quality_priority: "balanced".to_owned(),
        }
    }
}

/// The broker's components, constructed once at process start.
pub struct AppContext {
    pub registry: Registry,
    pub pipeline: Pipeline,
    pub planner: Planner,
    pub scheduler: Scheduler,
    pub storage: Storage,
    pub settings: Settings,
}

impl AppContext {
    /// A context with an empty registry and no jobs, ready for
    /// initialization.
    pub fn new() -> (r: AppContext)
        ensures
            r.registry@.wf(),
            r.registry@.caps == Seq::<crate::capability::CapView>::empty(),
            r.pipeline@.wf(),
            r.planner.wf(),
            r.scheduler@.wf(),
            r.settings@.theme == "system"@,
    {
        AppContext {
            registry: Registry::new(),
            pipeline: Pipeline::new(),
            planner: Planner::new(),
            scheduler: Scheduler::new(),
            storage: Storage::new(),
            settings: Settings::default(),
        }
    }

    /// Reports every registered capability.
    pub fn detect_capabilities(&self) -> (r: Result<Vec<CapabilityRecord>, ErrorResponse>)
        ensures
            r is Ok,
            match r {
                Ok(l) => l.deep_view() == self.registry@.caps,
                Err(_) => false,
            },
    {
        Ok(self.registry.list_all())
    }

    /// Reports the union of target formats reachable from the given MIME
    /// type within the planner's hop bound, annotated with tool
    /// availability computed from the caller's probe results.
    pub fn plan_targets(&self, source_mime: &str, present_tools: &Vec<String>) -> (r: Result<
        Vec<ConversionTarget>,
        ErrorResponse,
    >)
        requires
            self.registry@.wf(),
            self.planner.wf(),
        ensures
            r is Ok,
            match r {
                Ok(ts) => {
                    &&& forall|k: int|
                        0 <= k < ts.deep_view().len() ==> crate::planner::walk_reach(
                            self.registry@.caps,
                            source_mime@,
                            (#[trigger] ts.deep_view()[k]).format,
                            self.planner.max_hops as int,
                        )
                    &&& forall|to: Seq<char>|
                        #![trigger crate::planner::walk_reach(self.registry@.caps, source_mime@, to, self.planner.max_hops as int)]
                        crate::planner::walk_reach(
                            self.registry@.caps,
                            source_mime@,
                            to,
                            self.planner.max_hops as int,
                        ) ==> crate::registry::target_listed(ts.deep_view(), to)
                    &&& forall|k: int| 0 <= k < ts.deep_view().len() ==> {
                        let t = #[trigger] ts.deep_view()[k];
                        t.available == crate::planner::producer_available(
                            self.registry@.caps,
                            t.format,
                            present_tools.deep_view(),
                        )
                    }
                },
                Err(_) => false,
            },
    {
        Ok(self.planner.get_available_targets(&self.registry, source_mime, present_tools))
    }

    /// Creates a conversion job and queues it for execution.
    pub fn create_job(
        &mut self,
        inputs: Vec<String>,
        target: String,
        recipe_id: Option<String>,
        options: String,
    ) -> (r: Result<String, ErrorResponse>)
        requires
            old(self).pipeline@.wf(),
        ensures
            final(self).pipeline@.wf(),
            final(self).registry == old(self).registry,
            match r {
                Ok(id) => exists|j: crate::job::JobView|
                    final(self).pipeline@.jobs == old(self).pipeline@.jobs.push(j) && (#[trigger] j.id)
                        == id@ && j.state == JobState::Queued && j.inputs == inputs.deep_view()
                        && j.target_format == target@ && j.recipe_id == recipe_id.deep_view()
                        && j.options == options@ && j.started_at is None && j.finished_at is None,
                Err(e) => final(self).pipeline@ == old(self).pipeline@ && e.kind
                    == ErrorKind::ValidationError,
            },
    {
        let job = Job::new(inputs, target, recipe_id, options);
        match self.pipeline.submit(job) {
            Ok(id) => Ok(id),
            Err(e) => Err(ErrorResponse::from_error(e)),
        }
    }

    /// Lists every job.
    pub fn list_jobs(&self) -> (r: Result<Vec<Job>, ErrorResponse>)
        ensures
            r is Ok,
            match r {
                Ok(l) => l.deep_view() == self.pipeline@.jobs,
                Err(_) => false,
            },
    {
        match self.pipeline.list_jobs() {
            Ok(l) => Ok(l),
            Err(e) => Err(ErrorResponse::from_error(e)),
        }
    }

    /// Looks one job up by id.
    pub fn get_job(&self, job_id: &str) -> (r: Result<Option<Job>, ErrorResponse>)
        ensures
            r is Ok,
            match r {
                Ok(opt) => {
                    &&& opt is Some <==> has_job(self.pipeline@.jobs, job_id@)
                    &&& match opt {
                        Some(j) => j@.id == job_id@ && self.pipeline@.jobs.contains(j@),
                        None => !has_job(self.pipeline@.jobs, job_id@),
                    }
                },
                Err(_) => false,
            },
    {
        match self.pipeline.get_job(job_id) {
            Ok(opt) => Ok(opt),
            Err(e) => Err(ErrorResponse::from_error(e)),
        }
    }

    /// Applies a control action to a job. Only `Cancel` takes effect;
    /// `Pause`, `Resume`, and `Retry` are reserved and change nothing.
    pub fn control_job(&mut self, job_id: &str, action: JobAction) -> (r: Result<(), ErrorResponse>)
        requires
            old(self).pipeline@.wf(),
        ensures
            final(self).pipeline@.wf(),
            final(self).registry == old(self).registry,
            crate::pipeline::states_legal(old(self).pipeline@.jobs, final(self).pipeline@.jobs),
            action != JobAction::Cancel ==> final(self).pipeline@ == old(self).pipeline@ && r is Ok,
            action == JobAction::Cancel ==> (r is Ok <==> has_job(
                old(self).pipeline@.jobs,
                job_id@,
            )),
            // a cancel takes the pipeline's cooperative effect: a queued
            // job is canceled at once without ever running, a running job
            // has the request recorded, a terminal job is untouched
            action == JobAction::Cancel && r is Ok ==> exists|i: int|
                0 <= i < old(self).pipeline@.jobs.len() && (
                #[trigger] old(self).pipeline@.jobs[i]).id == job_id@ && {
                    let j0 = old(self).pipeline@.jobs[i];
                    if j0.state == JobState::Queued {
                        exists|t: i64|
                            final(self).pipeline@.jobs == old(self).pipeline@.jobs.update(
                                i,
                                #[trigger] crate::pipeline::transitioned(
                                    j0,
                                    JobState::Canceled,
                                    t,
                                ),
                            ) && final(self).pipeline@.jobs[i].started_at is None
                    } else if j0.state == JobState::Running {
                        final(self).pipeline@.jobs == old(self).pipeline@.jobs
                            && final(self).pipeline@.cancel_requested.contains(job_id@)
                    } else {
                        final(self).pipeline@ == old(self).pipeline@
                    }
                },
            match r {
                Ok(_) => true,
                Err(e) => e.kind == ErrorKind::ValidationError,
            },
    {
        match action {
            JobAction::Cancel => {
                match self.pipeline.cancel(job_id) {
                    Ok(_) => Ok(()),
                    Err(e) => {
                        proof {
                            assert(kind_of(e) == ErrorKind::ValidationError);
                        }
                        Err(ErrorResponse::from_error(e))
                    },
                }
            },
            _ => Ok(()),
        }
    }

    /// Reports every artifact produced by one job.
    pub fn get_artifacts(&self, job_id: &str) -> (r: Result<Vec<Artifact>, ErrorResponse>)
        ensures
            r is Ok,
            match r {
                Ok(l) => {
                    &&& forall|k: int|
                        0 <= k < l@.len() ==> self.pipeline@.artifacts.contains(#[trigger] l@[k])
                            && l@[k].job_id@ == job_id@
                    &&& forall|k: int|
                        0 <= k < self.pipeline@.artifacts.len() && (
                        #[trigger] self.pipeline@.artifacts[k]).job_id@ == job_id@ ==> l@.contains(
                            self.pipeline@.artifacts[k],
                        )
                },
                Err(_) => false,
            },
    {
        Ok(self.pipeline.get_artifacts(job_id))
    }

    /// Reports the log entries of one job after the cursor. Log retention
    /// is reserved; no entries are kept yet.
    pub fn get_logs(&self, job_id: &str, cursor: Option<i64>) -> (r: Result<Vec<LogEntry>, ErrorResponse>)
        ensures
            r is Ok,
            match r {
                Ok(l) => l@.len() == 0,
                Err(_) => false,
            },
    {
        Ok(Vec::new())
    }

    /// Reports the current settings.
    pub fn get_settings(&self) -> (r: Result<Settings, ErrorResponse>)
        ensures
            r is Ok,
            match r {
                Ok(s) => s@ == self.settings@,
                Err(_) => false,
            },
    {
        Ok(self.settings.clone())
    }

    /// Replaces the settings.
    pub fn set_settings(&mut self, settings: Settings) -> (r: Result<(), ErrorResponse>)
        ensures
            r is Ok,
            final(self).settings@ == settings@,
            final(self).registry == old(self).registry,
            final(self).pipeline == old(self).pipeline,
    {
        self.settings = settings;
        Ok(())
    }

    /// Assembles the health report from the caller's probe results.
    pub fn run_health_check(&self, probes: Vec<ToolHealth>) -> (r: Result<HealthReport, ErrorResponse>)
        ensures
            r is Ok,
            match r {
                Ok(h) => h@.tools == probes.deep_view(),
                Err(_) => false,
            },
    {
        Ok(self.registry.check_health(probes))
    }
}

} // verus!
