use f2f_converter::conversion::{ConversionPath, ConversionStep};
use f2f_converter::error::ErrorKind;
use f2f_converter::job::{Job, JobState};
use f2f_converter::pipeline::{ExecAction, Pipeline, StepOutcome, StepOutput};
use f2f_converter::scheduler::Scheduler;

fn step(id: &str, from: &str, to: &str, quality: u32) -> ConversionStep {
    ConversionStep {
        converter_id: id.to_owned(),
        from_format: from.to_owned(),
        to_format: to.to_owned(),
        quality,
    }
}

fn path(steps: Vec<ConversionStep>) -> ConversionPath {
    let total = steps.iter().fold(1000u32, |q, s| q * s.quality / 1000);
    ConversionPath { steps, total_quality: total, estimated_time_ms: 1000, risks: vec![] }
}

fn queued_job(target: &str) -> Job {
    Job::new(vec!["input.docx".to_owned()], target.to_owned(), None, "{}".to_owned())
}

fn output(name: &str) -> StepOutput {
    StepOutput { path: format!("/tmp/{name}"), filename: name.to_owned(), size_bytes: 42 }
}

#[test]
fn test_submit_and_get_job() {
    let mut pipeline = Pipeline::new();
    let job = queued_job("application/pdf");
    let id = pipeline.submit(job).unwrap();
    let j = pipeline.get_job(&id).unwrap().unwrap();
    assert_eq!(j.state, JobState::Queued);
    assert!(j.started_at.is_none());
    assert!(j.finished_at.is_none());
    assert_eq!(j.target_format, "application/pdf");
    assert_eq!(pipeline.list_jobs().unwrap().len(), 1);
    assert!(pipeline.get_job("missing").unwrap().is_none());
}

#[test]
fn test_submit_rejects_duplicate_id() {
    let mut pipeline = Pipeline::new();
    let job = queued_job("application/pdf");
    let twin = job.clone();
    pipeline.submit(job).unwrap();
    assert!(pipeline.submit(twin).is_err());
}

#[test]
fn test_job_lifecycle_timestamps() {
    let mut pipeline = Pipeline::new();
    let id = pipeline.submit(queued_job("mime/b")).unwrap();
    let p = path(vec![step("ab", "mime/a", "mime/b", 900)]);

    let mut ex = pipeline.execute(&id, Some(&p), None, 100).unwrap().unwrap();
    let j = pipeline.get_job(&id).unwrap().unwrap();
    assert_eq!(j.state, JobState::Running);
    assert_eq!(j.started_at, Some(100));
    assert!(j.finished_at.is_none());

    let action = pipeline.execute_step(&mut ex, StepOutcome::Completed(output("out.b")), 200).unwrap();
    assert!(matches!(action, ExecAction::Finished));
    let j = pipeline.get_job(&id).unwrap().unwrap();
    assert_eq!(j.state, JobState::Succeeded);
    assert_eq!(j.started_at, Some(100));
    assert_eq!(j.finished_at, Some(200));
    assert_eq!(j.progress, 1000);
}

#[test]
fn test_execute_updates_progress_and_stage() {
    let mut pipeline = Pipeline::new();
    let id = pipeline.submit(queued_job("mime/c")).unwrap();
    let p = path(vec![step("ab", "mime/a", "mime/b", 900), step("bc", "mime/b", "mime/c", 900)]);

    let mut ex = pipeline.execute(&id, Some(&p), None, 10).unwrap().unwrap();
    let action = pipeline.execute_step(&mut ex, StepOutcome::Completed(output("mid.b")), 20).unwrap();
    match action {
        ExecAction::RunStep { step_index, converter_id, backoff_ms } => {
            assert_eq!(step_index, 1);
            assert_eq!(converter_id, "bc");
            assert_eq!(backoff_ms, 0);
        }
        _ => panic!("expected the next step"),
    }
    let j = pipeline.get_job(&id).unwrap().unwrap();
    assert_eq!(j.progress, 500);
    assert_eq!(j.stage.as_deref(), Some("mime/b"));

    let action = pipeline.execute_step(&mut ex, StepOutcome::Completed(output("out.c")), 30).unwrap();
    assert!(matches!(action, ExecAction::Finished));
    let arts = pipeline.get_artifacts(&id);
    assert_eq!(arts.len(), 1);
    assert_eq!(arts[0].filename, "out.c");
    assert_eq!(arts[0].format, "mime/c");
    assert_eq!(arts[0].size_bytes, 42);
}

#[test]
fn test_execute_without_path_fails_validation() {
    let mut pipeline = Pipeline::new();
    let id = pipeline.submit(queued_job("mime/pdf")).unwrap();
    let r = pipeline.execute(&id, None, None, 50).unwrap();
    assert!(r.is_none());
    let j = pipeline.get_job(&id).unwrap().unwrap();
    assert_eq!(j.state, JobState::Failed);
    assert_eq!(j.error_kind, Some(ErrorKind::ValidationError));
    assert_eq!(j.error.as_deref(), Some("no conversion path to the target format"));
    assert!(j.finished_at.is_some());
}

#[test]
fn test_retry_exhaustion_preserves_message() {
    let mut pipeline = Pipeline::new();
    let id = pipeline.submit(queued_job("mime/b")).unwrap();
    let p = path(vec![step("ab", "mime/a", "mime/b", 900)]);
    let mut ex = pipeline.execute(&id, Some(&p), None, 10).unwrap().unwrap();

    let fail = || StepOutcome::Failed {
        kind: ErrorKind::ResourceLimit,
        message: "memory cap of 512 MB exceeded".to_owned(),
        transient: true,
    };

    // two retries with exponential backoff, then exhaustion
    match pipeline.execute_step(&mut ex, fail(), 20).unwrap() {
        ExecAction::RunStep { step_index, backoff_ms, .. } => {
            assert_eq!(step_index, 0);
            assert_eq!(backoff_ms, 500);
        }
        _ => panic!("expected a retry"),
    }
    match pipeline.execute_step(&mut ex, fail(), 30).unwrap() {
        ExecAction::RunStep { backoff_ms, .. } => assert_eq!(backoff_ms, 1000),
        _ => panic!("expected a second retry"),
    }
    let action = pipeline.execute_step(&mut ex, fail(), 40).unwrap();
    assert!(matches!(action, ExecAction::Finished));

    let j = pipeline.get_job(&id).unwrap().unwrap();
    assert_eq!(j.state, JobState::Failed);
    assert_eq!(j.error.as_deref(), Some("memory cap of 512 MB exceeded"));
    assert_eq!(j.error_kind, Some(ErrorKind::ResourceLimit));
}

#[test]
fn test_permanent_failure_is_not_retried() {
    let mut pipeline = Pipeline::new();
    let id = pipeline.submit(queued_job("mime/b")).unwrap();
    let p = path(vec![step("ab", "mime/a", "mime/b", 900)]);
    let mut ex = pipeline.execute(&id, Some(&p), None, 10).unwrap().unwrap();
    let action = pipeline
        .execute_step(
            &mut ex,
            StepOutcome::Failed {
                kind: ErrorKind::ToolError,
                message: "pandoc binary not found".to_owned(),
                transient: false,
            },
            20,
        )
        .unwrap();
    assert!(matches!(action, ExecAction::Finished));
    let j = pipeline.get_job(&id).unwrap().unwrap();
    assert_eq!(j.state, JobState::Failed);
    assert_eq!(j.error.as_deref(), Some("pandoc binary not found"));
}

#[test]
fn test_cancel_queued_job_never_runs() {
    let mut pipeline = Pipeline::new();
    let id = pipeline.submit(queued_job("mime/b")).unwrap();
    pipeline.cancel(&id).unwrap();
    let j = pipeline.get_job(&id).unwrap().unwrap();
    assert_eq!(j.state, JobState::Canceled);
    assert!(j.started_at.is_none(), "a queued job canceled directly never ran");
    assert!(j.finished_at.is_some());
}

#[test]
fn test_cancel_running_job_is_acknowledged_between_steps() {
    let mut pipeline = Pipeline::new();
    let id = pipeline.submit(queued_job("mime/c")).unwrap();
    let p = path(vec![step("ab", "mime/a", "mime/b", 900), step("bc", "mime/b", "mime/c", 900)]);
    let mut ex = pipeline.execute(&id, Some(&p), None, 10).unwrap().unwrap();

    pipeline.cancel(&id).unwrap();
    // the flag is set, but the job keeps running until acknowledged
    assert_eq!(pipeline.get_job(&id).unwrap().unwrap().state, JobState::Running);

    let action = pipeline.execute_step(&mut ex, StepOutcome::Completed(output("mid.b")), 20).unwrap();
    assert!(matches!(action, ExecAction::Finished));
    assert_eq!(pipeline.get_job(&id).unwrap().unwrap().state, JobState::Canceled);
}

#[test]
fn test_cancel_terminal_job_is_noop() {
    let mut pipeline = Pipeline::new();
    let id = pipeline.submit(queued_job("mime/b")).unwrap();
    pipeline.cancel(&id).unwrap();
    // canceling again changes nothing and is not an error
    pipeline.cancel(&id).unwrap();
    assert_eq!(pipeline.get_job(&id).unwrap().unwrap().state, JobState::Canceled);
    assert!(pipeline.cancel("missing").is_err());
}

#[test]
fn test_quality_gate_rejection() {
    let mut pipeline = Pipeline::new();
    let id = pipeline.submit(queued_job("mime/b")).unwrap();
    let p = path(vec![step("ab", "mime/a", "mime/b", 900)]);
    let mut ex = pipeline.execute(&id, Some(&p), Some(900), 10).unwrap().unwrap();
    let action = pipeline.execute_step(&mut ex, StepOutcome::Completed(output("out.b")), 20).unwrap();
    assert!(matches!(action, ExecAction::AwaitQualityGate));

    let action = pipeline.execute_gate(&mut ex, false, 30).unwrap();
    assert!(matches!(action, ExecAction::Finished));
    let j = pipeline.get_job(&id).unwrap().unwrap();
    assert_eq!(j.state, JobState::Failed);
    assert_eq!(j.error.as_deref(), Some("QualityBelowThreshold"));
    assert!(pipeline.get_artifacts(&id).is_empty());
}

#[test]
fn test_quality_gate_acceptance() {
    let mut pipeline = Pipeline::new();
    let id = pipeline.submit(queued_job("mime/b")).unwrap();
    let p = path(vec![step("ab", "mime/a", "mime/b", 900)]);
    let mut ex = pipeline.execute(&id, Some(&p), Some(500), 10).unwrap().unwrap();
    pipeline.execute_step(&mut ex, StepOutcome::Completed(output("out.b")), 20).unwrap();
    let action = pipeline.execute_gate(&mut ex, true, 30).unwrap();
    assert!(matches!(action, ExecAction::Finished));
    assert_eq!(pipeline.get_job(&id).unwrap().unwrap().state, JobState::Succeeded);
    assert_eq!(pipeline.get_artifacts(&id).len(), 1);
}

#[test]
fn test_parallelism_one_never_overlaps() {
    let mut scheduler = Scheduler::new();
    // two jobs target the same tool of parallelism one
    assert!(scheduler.try_admit("pandoc", 1));
    assert!(!scheduler.try_admit("pandoc", 1), "a second in-flight invocation must wait");
    assert_eq!(scheduler.in_flight("pandoc"), 1);
    // the first finishes; the waiting job is admitted and completes
    scheduler.release("pandoc");
    assert!(scheduler.try_admit("pandoc", 1));
    scheduler.release("pandoc");
    assert_eq!(scheduler.in_flight("pandoc"), 0);
}

#[test]
fn test_parallelism_bound_above_one() {
    let mut scheduler = Scheduler::new();
    assert!(scheduler.try_admit("magick", 4));
    assert!(scheduler.try_admit("magick", 4));
    assert!(scheduler.try_admit("magick", 4));
    assert!(scheduler.try_admit("magick", 4));
    assert!(!scheduler.try_admit("magick", 4));
    scheduler.release("magick");
    assert!(scheduler.try_admit("magick", 4));
}

#[test]
fn test_job_new_is_queued_with_uuid() {
    let j = Job::new(vec!["a".to_owned()], "mime/b".to_owned(), None, "{}".to_owned());
    assert_eq!(j.state, JobState::Queued);
    assert_eq!(j.id.len(), 36);
    assert_eq!(j.progress, 0);
    assert!(j.started_at.is_none());
    assert!(j.finished_at.is_none());
    assert!(j.error.is_none());
    let other = Job::new(vec![], "mime/b".to_owned(), None, "{}".to_owned());
    assert_ne!(j.id, other.id);
}
