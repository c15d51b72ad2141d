use f2f_converter::adapter::Adapter;
use f2f_converter::commands::{AppContext, Settings};
use f2f_converter::conversion::{ConversionOptions, QualityMetrics, QualityPriority};
use f2f_converter::detector::FileDetector;
use f2f_converter::error::{AppError, ErrorKind, ErrorResponse};
use f2f_converter::job::JobAction;
use f2f_converter::job::JobState;
use f2f_converter::pipeline::{backoff_ms, StepOutcome, StepOutput};
use f2f_converter::quality::{QualityAssessor, QualityThresholds};
use f2f_converter::storage::Storage;
use f2f_converter::mul_scores;

fn out() -> StepOutput {
    StepOutput { path: "/tmp/o".to_owned(), filename: "o".to_owned(), size_bytes: 1 }
}

#[test]
fn test_error_response_mapping() {
    let r = ErrorResponse::from_error(AppError::ValidationError("bad input".to_owned()));
    assert!(matches!(r.kind, ErrorKind::ValidationError));
    assert_eq!(r.message, "bad input");
    assert_eq!(r.suggestion.as_deref(), Some("请检查输入参数是否正确"));

    let r = ErrorResponse::from_error(AppError::ResourceLimit("too big".to_owned()));
    assert!(matches!(r.kind, ErrorKind::ResourceLimit));
    assert_eq!(r.message, "too big");

    let r = ErrorResponse::from_error(AppError::ToolError("exit 1".to_owned()));
    assert!(matches!(r.kind, ErrorKind::ToolError));

    let r = ErrorResponse::from_error(AppError::IoError("disk gone".to_owned()));
    assert!(matches!(r.kind, ErrorKind::IoError));

    let r = ErrorResponse::from_error(AppError::Cancelled);
    assert!(matches!(r.kind, ErrorKind::Canceled));
    assert_eq!(r.message, "操作已取消");

    let r = ErrorResponse::from_error(AppError::DatabaseError("locked".to_owned()));
    assert!(matches!(r.kind, ErrorKind::DatabaseError));
    assert!(r.suggestion.is_none());

    let r = ErrorResponse::from_error(AppError::SerializationError("bad json".to_owned()));
    assert!(matches!(r.kind, ErrorKind::Internal));

    let r: ErrorResponse = AppError::Internal("invariant broken".to_owned()).into();
    assert!(matches!(r.kind, ErrorKind::Internal));
    assert_eq!(r.message, "invariant broken");
}

#[test]
fn test_adapter_classification() {
    // a missing binary is a permanent tool error
    match Adapter::classify_run(true, false, false, false, "not found".to_owned(), out()) {
        StepOutcome::Failed { kind, message, transient } => {
            assert!(matches!(kind, ErrorKind::ToolError));
            assert_eq!(message, "not found");
            assert!(!transient);
        }
        _ => panic!("expected a failure"),
    }
    // exceeding a cap is a transient resource limit, not a silent truncation
    match Adapter::classify_run(false, true, false, false, "timed out".to_owned(), out()) {
        StepOutcome::Failed { kind, transient, .. } => {
            assert!(matches!(kind, ErrorKind::ResourceLimit));
            assert!(transient);
        }
        _ => panic!("expected a failure"),
    }
    match Adapter::classify_run(false, false, true, true, "oom".to_owned(), out()) {
        StepOutcome::Failed { kind, .. } => assert!(matches!(kind, ErrorKind::ResourceLimit)),
        _ => panic!("expected a failure"),
    }
    // a nonzero exit carries the captured stderr verbatim and is retried
    match Adapter::classify_run(false, false, false, false, "boom".to_owned(), out()) {
        StepOutcome::Failed { kind, message, transient } => {
            assert!(matches!(kind, ErrorKind::ToolError));
            assert_eq!(message, "boom");
            assert!(transient);
        }
        _ => panic!("expected a failure"),
    }
    // a clean exit hands the output through
    match Adapter::classify_run(false, false, false, true, String::new(), out()) {
        StepOutcome::Completed(o) => assert_eq!(o.filename, "o"),
        _ => panic!("expected success"),
    }
}

#[test]
fn test_quality_thresholds_default() {
    let t = QualityThresholds::default();
    assert_eq!(t.min_ocr_cer, 950);
    assert_eq!(t.min_structure_consistency, 900);
    assert_eq!(t.min_table_recall, 900);
    assert_eq!(t.max_bitrate_deviation, 100);
}

#[test]
fn test_meets_threshold() {
    let t = QualityThresholds::default();
    let mut m = QualityMetrics {
        ocr_cer: None,
        structure_consistency: None,
        table_recall: None,
        media_bitrate_deviation: None,
        schema_validation_passed: true,
    };
    assert!(QualityAssessor::meets_threshold(&m, &t), "absent measurements never block");
    m.ocr_cer = Some(949);
    assert!(!QualityAssessor::meets_threshold(&m, &t));
    m.ocr_cer = Some(950);
    assert!(QualityAssessor::meets_threshold(&m, &t));
    m.structure_consistency = Some(899);
    assert!(!QualityAssessor::meets_threshold(&m, &t));
    m.structure_consistency = Some(900);
    assert!(QualityAssessor::meets_threshold(&m, &t));
}

#[test]
fn test_assess_fixed_estimate() {
    let m = QualityAssessor::assess("/a", "/b", "mime/b").unwrap();
    assert_eq!(m.structure_consistency, Some(950));
    assert!(m.schema_validation_passed);
}

#[test]
fn test_detect_bytes_sniffs_png() {
    let png: Vec<u8> = vec![0x89, 0x50, 0x4E, 0x47, 0x0D, 0x0A, 0x1A, 0x0A, 0, 0, 0, 0];
    let d = FileDetector::detect_bytes(
        "/tmp/x.bin".to_owned(),
        "bin".to_owned(),
        12,
        &png,
        Some(7),
    );
    assert_eq!(d.mime_type, "image/png");
    assert_eq!(d.extension, "bin");
    assert_eq!(d.size_bytes, 12);
    assert_eq!(d.modified_secs, Some(7));
    assert!(!d.is_scanned_pdf);
}

#[test]
fn test_detect_bytes_falls_back_to_extension() {
    let text = b"just some plain text".to_vec();
    let d = FileDetector::detect_bytes("/tmp/a.txt".to_owned(), "txt".to_owned(), 20, &text, None);
    assert_eq!(d.mime_type, "text/plain");
}

#[test]
fn test_detect_bytes_defaults_to_octet_stream() {
    let noise = b"no magic here".to_vec();
    let d = FileDetector::detect_bytes(
        "/tmp/a.zzzz".to_owned(),
        "zzzzqq".to_owned(),
        13,
        &noise,
        None,
    );
    assert_eq!(d.mime_type, "application/octet-stream");
}

#[test]
fn test_scanned_pdf_heuristic() {
    let mut scanned = b"%PDF-1.4 ".to_vec();
    for _ in 0..11 {
        scanned.extend_from_slice(b"/Image ");
    }
    assert!(FileDetector::is_likely_scanned_pdf(&scanned));

    let mut textual = scanned.clone();
    for _ in 0..5 {
        textual.extend_from_slice(b"/Text ");
    }
    assert!(!FileDetector::is_likely_scanned_pdf(&textual));

    assert!(!FileDetector::is_likely_scanned_pdf(b"%PDF-1.4 /Image /Text"));
}

#[test]
fn test_compute_hash_known_digests() {
    assert_eq!(
        Storage::compute_hash(b""),
        "e3b0c44298fc1c149afbf4c8996fb92427ae41e4649b934ca495991b7852b855"
    );
    assert_eq!(
        Storage::compute_hash(b"abc"),
        "ba7816bf8f01cfea414140de5dae2223b00361a396177a9cb410ff61f20015ad"
    );
}

#[test]
fn test_storage_dirs() {
    let mut s = Storage::new();
    assert!(s.workspace_dir().is_none());
    assert!(s.cache_dir().is_none());
    s.init("/data/workspace".to_owned(), "/data/cache".to_owned());
    assert_eq!(s.workspace_dir().map(|p| p.as_str()), Some("/data/workspace"));
    assert_eq!(s.cache_dir().map(|p| p.as_str()), Some("/data/cache"));
}

#[test]
fn test_mul_scores_compounds() {
    assert_eq!(mul_scores(900, 900), 810);
    assert_eq!(mul_scores(1000, 737), 737);
    assert_eq!(mul_scores(737, 1000), 737);
    assert_eq!(mul_scores(0, 1000), 0);
}

#[test]
fn test_backoff_table() {
    assert_eq!(backoff_ms(0), 0);
    assert_eq!(backoff_ms(1), 500);
    assert_eq!(backoff_ms(2), 1000);
}

#[test]
fn test_conversion_options_default() {
    let o = ConversionOptions::default();
    assert!(matches!(o.quality_priority, QualityPriority::Balanced));
    assert!(o.max_file_size_mb.is_none());
    assert!(!o.ocr_enabled);
    assert_eq!(o.ocr_languages, vec!["eng".to_owned(), "chi_sim".to_owned()]);
    assert!(o.preserve_metadata);
    assert_eq!(o.custom_params, "{}");
}

#[test]
fn test_app_context_commands() {
    let mut ctx = AppContext::new();
    f2f_converter::builtin::initialize(&mut ctx.registry).unwrap();
    assert_eq!(ctx.detect_capabilities().unwrap().len(), 6);

    let id = ctx
        .create_job(
            vec!["a.docx".to_owned(), "b.docx".to_owned()],
            "application/pdf".to_owned(),
            None,
            "{}".to_owned(),
        )
        .unwrap();
    let j = ctx.get_job(&id).unwrap().unwrap();
    assert_eq!(j.state, JobState::Queued);
    assert_eq!(j.inputs.len(), 2);
    assert_eq!(ctx.list_jobs().unwrap().len(), 1);

    // reserved actions change nothing
    ctx.control_job(&id, JobAction::Pause).unwrap();
    assert_eq!(ctx.get_job(&id).unwrap().unwrap().state, JobState::Queued);
    ctx.control_job(&id, JobAction::Cancel).unwrap();
    assert_eq!(ctx.get_job(&id).unwrap().unwrap().state, JobState::Canceled);

    assert!(ctx.get_artifacts(&id).unwrap().is_empty());
    assert!(ctx.get_logs(&id, None).unwrap().is_empty());

    let s = ctx.get_settings().unwrap();
    assert_eq!(s.theme, "system");
    assert_eq!(s.language, "zh-CN");
    assert_eq!(s.quality_priority, "balanced");
    ctx.set_settings(Settings {
        theme: "dark".to_owned(),
        language: "en".to_owned(),
        quality_priority: "quality".to_owned(),
    })
    .unwrap();
    assert_eq!(ctx.get_settings().unwrap().theme, "dark");

    let report = ctx.run_health_check(vec![]).unwrap();
    assert!(report.tools.is_empty());

    let targets = ctx.plan_targets("text/markdown", &vec![]).unwrap();
    assert!(!targets.is_empty());
    // with no tools present, every reachable target reports what is missing
    assert!(targets.iter().all(|t| !t.available));
    let targets = ctx
        .plan_targets("text/markdown", &vec!["pandoc".to_owned(), "magick".to_owned()])
        .unwrap();
    assert!(targets.iter().all(|t| t.available && t.missing_requirements.is_empty()));
}
