use gpbeam::cli::{
    apply_safety_overrides, build_cloud_worker, count_failure, drains_after_offload,
    format_cloud_event, format_run_event, ledger_path_for, load_or_default_config,
    mirror_status_lines, nothing_to_mirror, outcome_message, parse_command, parse_safety_flags,
    retry_cloud, split_config, version_line, worker_from, CliConfigOverlay, Command, SafetyFlags,
};
use gpbeam::cloud::CloudEvent;
use gpbeam::config::{CloudConfig, CloudKind, Config, MirrorMode};
use gpbeam::credentials::EnvConfigStore;
use gpbeam::error::CoreError;
use gpbeam::ledger::{JobState, Ledger};
use gpbeam::orchestrator::RunEvent;

fn base_cfg() -> Config {
    Config::new("/tmp/dest".to_string())
}

fn cloud(mode: MirrorMode) -> CloudConfig {
    CloudConfig {
        kind: CloudKind::Nextcloud,
        destination_id: "home-nc".to_string(),
        base_url: "https://cloud.example.com".to_string(),
        username: "alice".to_string(),
        remote_root: "GoProBackup".to_string(),
        mirror_mode: mode,
        chunk_threshold: 10_000_000,
        tls_ca_pem: None,
        max_concurrency: 2,
        max_attempts: 3,
    }
}

fn args(list: &[&str]) -> Vec<String> {
    list.iter().map(|s| s.to_string()).collect()
}

#[test]
fn card_delete_failed_formats_as_warn_not_fail() {
    let line = format_run_event(&RunEvent::CardDeleteFailed {
        file: "GX010001.MP4".into(),
        error: "permission denied".into(),
    })
    .expect("CardDeleteFailed is printed, not suppressed");
    assert!(line.contains("[warn]"), "warning prefix: {line:?}");
    assert!(line.contains("GX010001.MP4"));
    assert!(line.contains("permission denied"));
    assert!(!line.contains("FAIL"), "must not look like a failed file: {line:?}");
}

#[test]
fn every_run_event_has_its_line() {
    let line = |e: RunEvent| format_run_event(&e);
    assert_eq!(
        line(RunEvent::NotGoPro("/mnt".into())).unwrap(),
        "[skip] not a GoPro card: /mnt"
    );
    assert_eq!(
        line(RunEvent::CardDetected { model: None, serial: None }).unwrap(),
        "[detect] GoPro (serial unknown)"
    );
    assert_eq!(
        line(RunEvent::CardDetected {
            model: Some("HERO11".into()),
            serial: Some("C346".into())
        })
        .unwrap(),
        "[detect] HERO11 (serial C346)"
    );
    assert_eq!(
        line(RunEvent::Scanned { new_files: 2, total_bytes: 1000 }).unwrap(),
        "[scan] 2 new file(s), 1000 bytes"
    );
    assert_eq!(
        line(RunEvent::InsufficientSpace { need: 10, have: 3 }).unwrap(),
        "[error] not enough space: need 10, have 3"
    );
    assert_eq!(
        line(RunEvent::Copying { file: "A".into(), index: 1, total: 2 }).unwrap(),
        "[copy 1/2] A"
    );
    assert_eq!(line(RunEvent::Progress { file: "A".into(), copied: 1, total: 2 }), None);
    assert_eq!(line(RunEvent::Verified { file: "A".into() }).unwrap(), "  [ok] A");
    assert_eq!(line(RunEvent::Skipped { file: "A".into() }).unwrap(), "  [skip] A");
    assert_eq!(
        line(RunEvent::Failed { file: "A".into(), error: "e".into() }).unwrap(),
        "  [FAIL] A: e"
    );
    assert_eq!(line(RunEvent::CloudQueued { file: "A".into() }).unwrap(), "[cloud-queued] A");
    assert_eq!(line(RunEvent::CardFileDeleted { file: "A".into() }).unwrap(), "  [deleted] A");
    assert_eq!(line(RunEvent::Ejected { mount: "/m".into() }).unwrap(), "[ejected] /m");
    assert_eq!(
        line(RunEvent::RunComplete { copied: 1, skipped: 2, failed: 3, bytes: 4 }).unwrap(),
        "[done] copied 1, skipped 2, failed 3, 4 bytes"
    );
}

#[test]
fn every_cloud_event_has_its_line() {
    assert_eq!(
        format_cloud_event(&CloudEvent::Uploading { file: "A".into(), uploaded: 5, total: 10 }),
        "[uploading] A 5/10"
    );
    assert_eq!(format_cloud_event(&CloudEvent::Mirrored { file: "A".into() }), "[mirrored] A");
    assert_eq!(
        format_cloud_event(&CloudEvent::CloudFailed { file: "A".into(), error: "e".into() }),
        "[cloud-FAIL] A: e"
    );
    assert_eq!(format_cloud_event(&CloudEvent::Deleted { file: "A".into() }), "[deleted] A");
}

#[test]
fn flags_set_both_booleans_true() {
    let mut cfg = base_cfg();
    assert!(!cfg.delete_after_verify);
    assert!(!cfg.auto_eject);

    let flags = SafetyFlags { delete_after_verify: true, auto_eject: true };
    apply_safety_overrides(&mut cfg, &flags);

    assert!(cfg.delete_after_verify);
    assert!(cfg.auto_eject);
}

#[test]
fn absent_flags_preserve_config_values() {
    let mut cfg = base_cfg();
    cfg.delete_after_verify = true;
    cfg.auto_eject = true;

    let flags = SafetyFlags { delete_after_verify: false, auto_eject: false };
    apply_safety_overrides(&mut cfg, &flags);

    assert!(cfg.delete_after_verify);
    assert!(cfg.auto_eject);
}

#[test]
fn parse_safety_flags_extracts_and_strips_argv() {
    let argv = vec![
        "offload".to_string(),
        "--delete-after-verify".to_string(),
        "/card".to_string(),
        "--auto-eject".to_string(),
        "/dest".to_string(),
    ];
    let (positional, flags) = parse_safety_flags(&argv).expect("recognized flags");
    assert_eq!(positional, vec!["offload", "/card", "/dest"]);
    assert!(flags.delete_after_verify);
    assert!(flags.auto_eject);
}

#[test]
fn parse_safety_flags_rejects_unknown_long_flag() {
    let argv = vec![
        "offload".to_string(),
        "--delete-after-verfy".to_string(),
        "/card".to_string(),
        "/dest".to_string(),
    ];
    let err = parse_safety_flags(&argv).expect_err("typo'd flag must be rejected");
    assert!(err.contains("--delete-after-verfy"), "error names the flag: {err}");
}

#[test]
fn parse_safety_flags_passes_version_flags_through() {
    for flag in ["--version", "-V"] {
        let argv = vec![flag.to_string()];
        let (positional, flags) = parse_safety_flags(&argv).expect("version flag stays valid");
        assert_eq!(positional, vec![flag]);
        assert_eq!(flags, SafetyFlags::default());
    }
}

#[test]
fn split_config_extracts_path() {
    let argv = vec![
        "offload".to_string(),
        "--config".to_string(),
        "/etc/gpbeam.toml".to_string(),
        "/card".to_string(),
    ];
    let (rest, cfg) = split_config(&argv).expect("--config with value is valid");
    assert_eq!(rest, vec!["offload", "/card"]);
    assert_eq!(cfg, Some("/etc/gpbeam.toml".to_string()));
}

#[test]
fn split_config_rejects_value_less_config() {
    let argv = vec![
        "offload".to_string(),
        "/card".to_string(),
        "/dest".to_string(),
        "--config".to_string(),
    ];
    let err = split_config(&argv).expect_err("bare --config must be rejected");
    assert!(err.contains("--config"), "error names the flag: {err}");
}

#[test]
fn version_line_reports_crate_version() {
    let line = version_line();
    assert!(line.starts_with("gpbeam-cli "), "got: {line}");
    assert_eq!(line, format!("gpbeam-cli {}", "0.1.0"));
}

#[test]
fn mirror_status_lists_jobs_by_state_and_pending_count() {
    let mut ledger = Ledger::new("2026-06-03 10:00:00".to_string());
    let imp = ledger.record(
        "C123",
        "GX010001.MP4",
        17,
        1_700_000_000,
        "/dest/GX010001.MP4",
        None,
    );
    let job_done = ledger.enqueue_cloud_job(
        imp,
        "home-nc",
        "/dest/GX010001.MP4",
        "GoProBackup/GX010001.MP4",
        17,
        None,
    );
    let imp2 = ledger.record(
        "C123",
        "GX010002.MP4",
        99,
        1_700_000_100,
        "/dest/GX010002.MP4",
        None,
    );
    let _job_queued = ledger.enqueue_cloud_job(
        imp2,
        "home-nc",
        "/dest/GX010002.MP4",
        "GoProBackup/GX010002.MP4",
        99,
        None,
    );
    ledger.mark_job_done(job_done);

    let lines = mirror_status_lines(&ledger);
    let joined = lines.join("\n");
    assert!(joined.contains("GX010001.MP4"), "done job listed: {joined}");
    assert!(joined.contains("GX010002.MP4"), "queued job listed: {joined}");
    assert!(joined.contains("done"), "state label present: {joined}");
    assert!(joined.contains("queued"), "state label present: {joined}");
    assert!(
        lines.iter().any(|l| l.contains("pending: 1")),
        "pending count line: {joined}"
    );
}

#[test]
fn retry_cloud_requeues_only_terminally_failed_jobs() {
    let mut ledger = Ledger::new("2026-06-03 10:00:00".to_string());
    let imp_a = ledger.record(
        "C123",
        "GX010003.MP4",
        42,
        1_700_000_200,
        "/dest/GX010003.MP4",
        None,
    );
    let terminal_id = ledger.enqueue_cloud_job(
        imp_a,
        "home-nc",
        "/dest/GX010003.MP4",
        "GoProBackup/GX010003.MP4",
        42,
        None,
    );
    ledger.mark_job_failed(terminal_id, "401 unauthorized", None);
    let imp_b = ledger.record(
        "C123",
        "GX010004.MP4",
        7,
        1_700_000_300,
        "/dest/GX010004.MP4",
        None,
    );
    let pending_id = ledger.enqueue_cloud_job(
        imp_b,
        "home-nc",
        "/dest/GX010004.MP4",
        "GoProBackup/GX010004.MP4",
        7,
        None,
    );
    ledger.mark_job_failed(pending_id, "503 transient", Some(9_999_999_999));
    assert_eq!(ledger.pending_cloud_count(), 1);

    let requeued = retry_cloud(&mut ledger);
    assert_eq!(requeued, 1, "exactly one terminally-failed job re-queued");

    let queued = ledger.list_cloud_jobs(Some(JobState::Queued));
    assert_eq!(queued.len(), 1, "the terminal job is Queued again");
    let job = &queued[0];
    assert_eq!(job.id, terminal_id);
    assert_eq!(job.state, JobState::Queued);
    assert_eq!(job.attempts, 0, "attempts reset to 0");
    assert_eq!(job.next_retry_at, None, "next_retry_at cleared");
    assert_eq!(job.last_error, None, "error cleared");

    let failed = ledger.list_cloud_jobs(Some(JobState::Failed));
    assert_eq!(failed.len(), 1, "the pending-retry job stays Failed");
    assert_eq!(failed[0].id, pending_id);
    assert_eq!(failed[0].next_retry_at, Some(9_999_999_999));

    assert_eq!(ledger.pending_cloud_count(), 2);
}

#[test]
fn commands_are_told_apart() {
    assert_eq!(parse_command(&args(&[])), Command::Usage);
    assert_eq!(parse_command(&args(&["--version"])), Command::Version);
    assert_eq!(parse_command(&args(&["-V"])), Command::Version);
    assert_eq!(
        parse_command(&args(&["offload", "/card", "/dest"])),
        Command::Offload { card: "/card".into(), dest: "/dest".into() }
    );
    assert_eq!(parse_command(&args(&["offload", "/card"])), Command::Usage);
    assert_eq!(
        parse_command(&args(&["watch", "/dest"])),
        Command::Watch { dest: "/dest".into() }
    );
    assert_eq!(
        parse_command(&args(&["mirror", "/dest"])),
        Command::Mirror { dest: "/dest".into() }
    );
    assert_eq!(
        parse_command(&args(&["mirror-status", "/dest"])),
        Command::MirrorStatus { dest: "/dest".into() }
    );
    assert_eq!(
        parse_command(&args(&["retry-cloud", "/dest"])),
        Command::RetryCloud { dest: "/dest".into() }
    );
    assert_eq!(parse_command(&args(&["mirror"])), Command::Usage);
    assert_eq!(parse_command(&args(&["upload", "/dest"])), Command::Usage);
}

#[test]
fn failures_are_reported_and_a_clean_run_is_silent() {
    assert_eq!(outcome_message(&Ok(0)), None);
    assert_eq!(outcome_message(&Ok(1)), Some("error: 1 file(s) failed".to_string()));
    assert_eq!(
        outcome_message(&Err(CoreError::Config("bad".to_string()))),
        Some("error: config error: bad".to_string())
    );
    assert_eq!(
        nothing_to_mirror(),
        CoreError::Config("no [cloud] destination configured; nothing to mirror".to_string())
    );
}

#[test]
fn only_terminal_cloud_failures_are_counted() {
    let failed = CloudEvent::CloudFailed { file: "A".into(), error: "e".into() };
    let done = CloudEvent::Mirrored { file: "A".into() };
    assert_eq!(count_failure(count_failure(0, &failed), &done), 1);
    let warned = CloudEvent::DeleteFailed { file: "A".into(), error: "e".into() };
    assert_eq!(count_failure(0, &warned), 0);
}

#[test]
fn the_configuration_file_never_moves_the_destination() {
    let plain = load_or_default_config("/dest", None);
    assert_eq!(plain, Config::new("/dest".to_string()));
    let overlay = CliConfigOverlay {
        cloud: Some(cloud(MirrorMode::Auto)),
        delete_after_verify: true,
        auto_eject: true,
    };
    let cfg = load_or_default_config("/dest", Some(overlay));
    assert_eq!(cfg.dest_root, "/dest");
    assert_eq!(cfg.cloud, Some(cloud(MirrorMode::Auto)));
    assert!(cfg.delete_after_verify);
    assert!(cfg.auto_eject);
    assert!(cfg.wired_ingest);
}

#[test]
fn only_the_automatic_mode_drains_after_an_offload() {
    let mut cfg = base_cfg();
    assert!(!drains_after_offload(&cfg));
    cfg.cloud = Some(cloud(MirrorMode::Manual));
    assert!(!drains_after_offload(&cfg));
    cfg.cloud = Some(cloud(MirrorMode::Auto));
    assert!(drains_after_offload(&cfg));
}

#[test]
fn a_worker_is_set_up_for_the_destination() {
    let mut cfg = base_cfg();
    assert_eq!(ledger_path_for("/dest"), "/dest/.gpbeam-ledger.sqlite");
    assert!(worker_from(&cfg, "/l").is_none());
    let none = EnvConfigStore::empty(None, None);
    let env = EnvConfigStore::empty(None, Some("pw".to_string()));
    assert!(matches!(build_cloud_worker(&cfg, "/l", &env), Ok(None)));

    cfg.cloud = Some(cloud(MirrorMode::Auto));
    cfg.delete_after_verify = true;
    let set_up = match build_cloud_worker(&cfg, "/l", &env) {
        Ok(Some(s)) => s,
        _ => panic!("the worker is set up"),
    };
    assert_eq!(set_up.0.username, "alice");
    assert_eq!(set_up.1.destination_id, "home-nc");
    assert_eq!(set_up.1.ledger_path, "/l");
    assert!(set_up.1.delete_after_verify);
    assert!(build_cloud_worker(&cfg, "/l", &none).is_err());
}
