use gpbeam::app_state::{AppState, Status};
use gpbeam::cloud::CloudEvent;
use gpbeam::commands::{build_app_ctx, seed_cloud_state};
use gpbeam::config::{CloudConfig, CloudKind, Config, MirrorMode};
use gpbeam::error::CoreError;
use gpbeam::keyring_store::MemoryKeyring;
use gpbeam::orchestrator::{RunEvent, RunSummary};
use gpbeam::tray::{
    cloud_notification, derive_tray_state, dest_root, fold_cloud_event, fold_run_error_state,
    fold_run_event, hides_on_blur, hides_on_close, rearm_needed, should_emit, should_set_icon,
    summary_notification, wired_ingest_enabled, RearmBudget,
};

fn cfg_with_cloud() -> Config {
    let mut cfg = Config::new("/tmp/gpbeam-test-dest".to_string());
    cfg.cloud = Some(CloudConfig {
        kind: CloudKind::Nextcloud,
        destination_id: "nc1".into(),
        base_url: "https://example.com".into(),
        username: "alice".into(),
        remote_root: "/GPBeam".into(),
        mirror_mode: MirrorMode::Auto,
        chunk_threshold: 10_000_000,
        tls_ca_pem: None,
        max_concurrency: 2,
        max_attempts: 3,
    });
    cfg.delete_after_verify = true;
    cfg
}

#[test]
fn build_app_ctx_seeds_runtime_from_cloud_config() {
    let cfg = cfg_with_cloud();
    let backend = MemoryKeyring::new();
    let ctx = build_app_ctx(
        &cfg,
        "/tmp/gpbeam-test-dest".to_string(),
        "/tmp/gpbeam-test-dest/gpbeam.toml".to_string(),
        "/tmp/gpbeam-test-dest/.gpbeam-ledger.sqlite".to_string(),
        backend,
        None,
        None,
        None,
    );
    let rt = &ctx.runtime;
    assert!(rt.config.is_some());
    assert!(rt.delete_after_verify);
    assert_eq!(
        ctx.dest_root,
        "/tmp/gpbeam-test-dest".to_string()
    );
    assert!(!ctx.paused);
    assert!(
        ctx.wired_enabled,
        "wired_enabled seeded true from the default config"
    );
    let st = &ctx.state;
    assert_eq!(st.status, Status::Idle);
    assert!(st.run.is_none());
}

#[test]
fn build_app_ctx_seeds_wired_enabled_false_from_config() {
    let mut cfg = Config::new("/tmp/gpbeam-test-dest".to_string());
    cfg.wired_ingest = false;
    let ctx = build_app_ctx(
        &cfg,
        "/tmp/gpbeam-test-dest".to_string(),
        "/tmp/gpbeam-test-dest/gpbeam.toml".to_string(),
        "/tmp/gpbeam-test-dest/.gpbeam-ledger.sqlite".to_string(),
        MemoryKeyring::new(),
        None,
        None,
        None,
    );
    assert!(
        !ctx.wired_enabled,
        "wired_ingest=false seeds the live toggle off"
    );
    assert!(
        ctx.detector_paused,
        "disabled wired ingest starts the camera poller paused"
    );
    assert!(!ctx
        .wired_offload_active);
}

#[test]
fn fold_run_event_threads_through_appstate() {
    let mut state = AppState::default();
    let snap = fold_run_event(
        &mut state,
        &RunEvent::Scanned {
            new_files: 3,
            total_bytes: 9_000,
        },
        1_600_000_000,
    );
    assert_eq!(snap.status, Status::Working);
    let run = snap.run.expect("run present after Scanned");
    assert_eq!(run.files_total, 3);
    assert_eq!(run.bytes_total, 9_000);
    assert_eq!(run.started_at_unix, 1_600_000_000);
    let shared = &state;
    assert_eq!(shared.status, Status::Working);
}

#[test]
fn run_event_sequence_folds_to_terminal_idle() {
    let mut state = AppState::default();
    let seq = [
        RunEvent::CardDetected {
            model: Some("HERO12".into()),
            serial: Some("C123".into()),
        },
        RunEvent::Scanned {
            new_files: 1,
            total_bytes: 100,
        },
        RunEvent::Copying {
            file: "a.mp4".into(),
            index: 1,
            total: 1,
        },
        RunEvent::Progress {
            file: "a.mp4".into(),
            copied: 100,
            total: 100,
        },
        RunEvent::Verified {
            file: "a.mp4".into(),
        },
        RunEvent::RunComplete {
            copied: 1,
            skipped: 0,
            failed: 0,
            bytes: 100,
        },
    ];
    let mut last = AppState::default();
    for ev in &seq {
        last = fold_run_event(&mut state, ev, 1_700_000_000);
    }
    assert_eq!(last.status, Status::Idle);
    assert!(last.run.is_none());
    let lr = last.last_run.expect("last_run set on RunComplete");
    assert_eq!(lr.copied, 1);
    assert_eq!(lr.bytes, 100);
}

#[test]
fn fold_cloud_event_threads_through_appstate() {
    let mut state = AppState::default();
    let snap = fold_cloud_event(
        &mut state,
        &CloudEvent::Uploading {
            file: "a.mp4".into(),
            uploaded: 10,
            total: 100,
        },
    );
    let up = snap.cloud.uploading.expect("uploading present");
    assert_eq!(up.file, "a.mp4");
    assert_eq!(up.uploaded, 10);
    assert_eq!(up.total, 100);
    let shared = &state;
    assert!(shared.cloud.uploading.is_some());
}

#[test]
fn cloud_failed_folds_to_error_state() {
    let mut state = AppState::default();
    let _ = fold_cloud_event(
        &mut state,
        &CloudEvent::Uploading {
            file: "x.mp4".into(),
            uploaded: 0,
            total: 10,
        },
    );
    let snap = fold_cloud_event(
        &mut state,
        &CloudEvent::CloudFailed {
            file: "x.mp4".into(),
            error: "boom".into(),
        },
    );
    assert_eq!(snap.status, Status::Error);
    assert!(snap.cloud.uploading.is_none());
    assert_eq!(snap.cloud.failed, 1);
    assert!(snap.message.is_some());
}




#[test]
fn seed_cloud_state_marks_configured_when_cloud_present() {
    let mut cfg = Config::new("/tmp/x".to_string());
    cfg.cloud = Some(CloudConfig {
        kind: CloudKind::Nextcloud,
        destination_id: "nc1".into(),
        base_url: "https://example.com".into(),
        username: "alice".into(),
        remote_root: "/GPBeam".into(),
        mirror_mode: MirrorMode::Auto,
        chunk_threshold: 10_000_000,
        tls_ca_pem: None,
        max_concurrency: 2,
        max_attempts: 3,
    });
    let mut st = AppState::default();
    seed_cloud_state(&mut st, &cfg, 7, 3);
    assert!(st.cloud.configured);
    assert_eq!(st.cloud.pending, 7);
    assert_eq!(st.cloud.failed, 3, "failed is seeded alongside pending");
}

#[test]
fn seed_cloud_state_leaves_unconfigured_without_cloud() {
    let cfg = Config::new("/tmp/x".to_string());
    let mut st = AppState::default();
    seed_cloud_state(&mut st, &cfg, 0, 0);
    assert!(!st.cloud.configured);
    assert_eq!(st.cloud.pending, 0);
    assert_eq!(st.cloud.failed, 0);
}

#[test]
fn build_app_ctx_without_cloud_leaves_runtime_idle() {
    let cfg = Config::new("/tmp/gpbeam-test-dest".to_string());
    let backend = MemoryKeyring::new();
    let ctx = build_app_ctx(
        &cfg,
        "/tmp/gpbeam-test-dest".to_string(),
        "/tmp/gpbeam-test-dest/gpbeam.toml".to_string(),
        "/tmp/gpbeam-test-dest/.gpbeam-ledger.sqlite".to_string(),
        backend,
        None,
        None,
        None,
    );
    let rt = &ctx.runtime;
    assert!(rt.config.is_none());
}

#[test]
fn wired_ingest_enabled_follows_config_flag() {
    let mut cfg = Config::new("/tmp/gpbeam-test-dest".to_string());
    assert!(
        wired_ingest_enabled(&cfg),
        "default config enables wired ingest"
    );
    cfg.wired_ingest = false;
    assert!(
        !wired_ingest_enabled(&cfg),
        "wired_ingest=false seeds the event gate off"
    );
}

#[test]
fn summary_notification_clean_run_with_copies_announces_counts() {
    let s = RunSummary {
        copied: 3,
        skipped: 1,
        failed: 0,
        bytes: 4096,
        queued: 2,
    };
    let (title, body) = summary_notification(&s).expect("clean copy toast");
    assert_eq!(title, "GPBeam");
    assert_eq!(body, "Copied 3 file(s), 1 skipped");
}

#[test]
fn summary_notification_nothing_copied_is_silent() {
    let s = RunSummary {
        copied: 0,
        skipped: 5,
        failed: 0,
        bytes: 0,
        queued: 0,
    };
    assert!(summary_notification(&s).is_none());
}

#[test]
fn summary_notification_failures_announce_failure_count() {
    let s = RunSummary {
        copied: 2,
        skipped: 0,
        failed: 1,
        bytes: 20,
        queued: 0,
    };
    let (title, body) = summary_notification(&s).expect("failure toast");
    assert_eq!(title, "GPBeam");
    assert_eq!(body, "1 file(s) failed to copy");
}

#[test]
fn derive_tray_state_error_status_wins() {
    let mut s = AppState {
        status: Status::Error,
        ..AppState::default()
    };
    assert_eq!(derive_tray_state(&s), "error");
    s.apply_run_event(
        &RunEvent::CardDetected {
            model: None,
            serial: None,
        },
        0,
    );
    s.status = Status::Error;
    assert_eq!(derive_tray_state(&s), "error");
}

#[test]
fn derive_tray_state_working_while_run_or_upload_in_flight() {
    let mut s = AppState::default();
    s.apply_run_event(
        &RunEvent::Scanned {
            new_files: 1,
            total_bytes: 10,
        },
        0,
    );
    assert_eq!(derive_tray_state(&s), "working");

    let mut s = AppState::default();
    s.apply_cloud_event(&CloudEvent::Uploading {
        file: "a.mp4".into(),
        uploaded: 1,
        total: 10,
    });
    assert_eq!(derive_tray_state(&s), "working");
}

#[test]
fn derive_tray_state_mirrored_mid_offload_stays_working() {
    let mut s = AppState::default();
    s.apply_run_event(
        &RunEvent::Scanned {
            new_files: 2,
            total_bytes: 10,
        },
        0,
    );
    s.cloud.pending = 1;
    s.apply_cloud_event(&CloudEvent::Mirrored {
        file: "a.mp4".into(),
    });
    assert_eq!(derive_tray_state(&s), "working");
}

#[test]
fn derive_tray_state_idle_when_nothing_in_flight() {
    let s = AppState::default();
    assert_eq!(derive_tray_state(&s), "idle");
}


#[test]
fn fold_helpers_bump_seq_under_the_lock() {
    let mut state = AppState::default();
    let a = fold_run_event(
        &mut state,
        &RunEvent::Scanned {
            new_files: 1,
            total_bytes: 1,
        },
        0,
    );
    assert_eq!(a.seq, 1, "fold_run_event bumps");
    let b = fold_cloud_event(&mut state, &CloudEvent::Mirrored { file: "x".into() });
    assert_eq!(b.seq, 2, "fold_cloud_event bumps");
    let c = fold_run_error_state(&mut state, "boom");
    assert_eq!(c.seq, 3, "fold_run_error_state bumps");
}

#[test]
fn fold_run_error_state_clears_run_and_reports() {
    let mut state = AppState::default();
    let _ = fold_run_event(
        &mut state,
        &RunEvent::Scanned {
            new_files: 2,
            total_bytes: 10,
        },
        0,
    );
    let snap = fold_run_error_state(&mut state, "ledger open failed");
    assert!(snap.run.is_none(), "phantom in-flight run cleared");
    assert_eq!(snap.status, Status::Error);
    assert_eq!(snap.message.as_deref(), Some("ledger open failed"));
    assert_eq!(derive_tray_state(&snap), "error");
    assert!(state.run.is_none());
}


#[test]
fn rearm_needed_only_for_failed_runs() {
    let clean = Ok(RunSummary {
        copied: 1,
        skipped: 0,
        failed: 0,
        bytes: 1,
        queued: 0,
    });
    assert!(!rearm_needed(&clean));
    let noop = Ok(RunSummary {
        copied: 0,
        skipped: 3,
        failed: 0,
        bytes: 0,
        queued: 0,
    });
    assert!(!rearm_needed(&noop));
    let with_failures = Ok(RunSummary {
        copied: 0,
        skipped: 0,
        failed: 2,
        bytes: 0,
        queued: 0,
    });
    assert!(rearm_needed(&with_failures));
    let hard_err: Result<RunSummary, CoreError> = Err(CoreError::Config("boom".into()));
    assert!(rearm_needed(&hard_err));
}

#[test]
fn should_emit_drops_stale_and_duplicate_frames() {
    let mut last = 0u64;
    assert!(should_emit(&mut last, 1), "first frame advances");
    assert!(!should_emit(&mut last, 1), "duplicate seq is dropped");
    assert!(should_emit(&mut last, 3), "newer frame advances (gaps ok)");
    assert!(!should_emit(&mut last, 2), "an older frame arriving late is dropped");
    assert!(should_emit(&mut last, 4));
}

#[test]
fn rearm_budget_bounds_consecutive_retries_and_resets_on_replug() {
    let ip: u128 = 0xac1a_7a33;
    let mut b = RearmBudget::new();

    b.note_event(ip);
    assert!(b.should_rearm(ip, true), "1st failure: retry");
    b.note_event(ip);
    assert!(b.should_rearm(ip, true), "2nd failure: retry");
    b.note_event(ip);
    assert!(
        !b.should_rearm(ip, true),
        "3rd consecutive failure: budget exhausted, no auto-retry"
    );

    b.note_event(ip);
    assert!(b.should_rearm(ip, true), "replug resets the budget");

    b.note_event(ip);
    assert!(!b.should_rearm(ip, false), "clean run never re-arms");
    b.note_event(ip);
    assert!(b.should_rearm(ip, true), "streak restarted after success");
}

#[test]
fn cameras_have_budgets_of_their_own() {
    let mut b = RearmBudget::new();
    b.note_event(1);
    assert!(b.should_rearm(1, true));
    b.note_event(1);
    assert!(b.should_rearm(1, true));
    b.note_event(2);
    assert!(b.should_rearm(2, true));
    b.note_event(1);
    assert!(!b.should_rearm(1, true));
}

#[test]
fn the_icon_is_set_only_when_it_changes() {
    let mut last = u8::MAX;
    assert!(should_set_icon(&mut last, "idle"));
    assert!(!should_set_icon(&mut last, "idle"));
    assert!(should_set_icon(&mut last, "working"));
    assert!(should_set_icon(&mut last, "error"));
    assert!(!should_set_icon(&mut last, "error"));
}

#[test]
fn cloud_events_notify() {
    let file = || "a.mp4".to_string();
    assert_eq!(
        cloud_notification(&CloudEvent::Uploading { file: file(), uploaded: 1, total: 2 }),
        None
    );
    assert_eq!(
        cloud_notification(&CloudEvent::Mirrored { file: file() }),
        Some(("GPBeam", "Mirrored a.mp4 to cloud".to_string()))
    );
    assert_eq!(
        cloud_notification(&CloudEvent::CloudFailed { file: file(), error: "e".into() }),
        Some(("GPBeam cloud error", "a.mp4: e".to_string()))
    );
    assert_eq!(
        cloud_notification(&CloudEvent::Deleted { file: file() }),
        Some(("GPBeam", "Freed card space: a.mp4".to_string()))
    );
    assert_eq!(
        cloud_notification(&CloudEvent::DeleteFailed { file: file(), error: "e".into() }),
        Some(("GPBeam", "card delete-after-verify failed for a.mp4: e".to_string()))
    );
}

#[test]
fn the_application_lives_in_the_home_directory() {
    assert_eq!(dest_root(&None, "/home/u"), "/home/u/GPBeam");
    assert_eq!(dest_root(&Some(String::new()), "/home/u"), "/home/u/GPBeam");
    assert_eq!(dest_root(&Some("/elsewhere".to_string()), "/home/u"), "/elsewhere");
}

#[test]
fn windows_hide() {
    assert!(hides_on_close("popover") && hides_on_close("settings"));
    assert!(!hides_on_close("main"));
    assert!(hides_on_blur("popover"));
    assert!(!hides_on_blur("settings"));
}
