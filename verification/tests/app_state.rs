use gpbeam::app_state::{
    AppState, CloudState, RunProgress, RunSummaryView, Status, UploadProgress,
};
use gpbeam::cloud::CloudEvent;
use gpbeam::orchestrator::RunEvent;


#[test]
fn default_app_state_is_idle_and_empty() {
    let s = AppState::default();
    assert_eq!(s.status, Status::Idle);
    assert!(s.run.is_none());
    assert!(s.last_run.is_none());
    assert!(s.message.is_none());
    assert_eq!(s.cloud, CloudState::default());
    assert_eq!(s.cloud.pending, 0);
    assert_eq!(s.cloud.failed, 0);
    assert!(!s.cloud.configured);
    assert!(!s.cloud.paused);
    assert!(s.cloud.uploading.is_none());
}

#[test]
fn structs_construct_and_compare() {
    let run = RunProgress {
        model: Some("HERO11".into()),
        serial: Some("C346".into()),
        files_done: 1,
        files_total: 4,
        bytes_done: 100,
        bytes_total: 1000,
        current_file: Some("GX010001.MP4".into()),
        started_at_unix: 1_000,
        completed_bytes: 0,
    };
    let up = UploadProgress { file: "clip.mp4".into(), uploaded: 5, total: 10 };
    let summary = RunSummaryView { copied: 3, skipped: 1, failed: 0, bytes: 4096 };
    let cloud = CloudState {
        configured: true,
        pending: 2,
        failed: 0,
        paused: false,
        uploading: Some(up.clone()),
    };
    let state = AppState {
        status: Status::Working,
        run: Some(run.clone()),
        last_run: Some(summary.clone()),
        cloud: cloud.clone(),
        message: Some("copying".into()),
        seq: 7,
    };
    assert_eq!(state.clone(), state);
    assert_eq!(state.run.unwrap(), run);
    assert_eq!(state.last_run.unwrap(), summary);
    assert_eq!(state.cloud.uploading.unwrap(), up);
}

#[test]
fn full_happy_path_scan_to_complete() {
    let now = 1_000i64;
    let mut s = AppState::default();

    s.apply_run_event(&RunEvent::Scanned { new_files: 2, total_bytes: 1000 }, now);
    assert_eq!(s.status, Status::Working);
    let run = s.run.as_ref().expect("run created on Scanned");
    assert_eq!(run.files_total, 2);
    assert_eq!(run.bytes_total, 1000);
    assert_eq!(run.files_done, 0);
    assert_eq!(run.bytes_done, 0);
    assert_eq!(run.started_at_unix, now);
    assert_eq!(run.current_file, None);

    s.apply_run_event(
        &RunEvent::CardDetected {
            model: Some("HERO11".into()),
            serial: Some("C346".into()),
        },
        now,
    );
    let run = s.run.as_ref().unwrap();
    assert_eq!(run.model.as_deref(), Some("HERO11"));
    assert_eq!(run.serial.as_deref(), Some("C346"));

    s.apply_run_event(
        &RunEvent::Copying { file: "A.MP4".into(), index: 1, total: 2 },
        now,
    );
    let run = s.run.as_ref().unwrap();
    assert_eq!(run.current_file.as_deref(), Some("A.MP4"));
    assert_eq!(run.files_done, 0);

    s.apply_run_event(
        &RunEvent::Progress { file: "A.MP4".into(), copied: 400, total: 400 },
        now,
    );
    assert_eq!(s.run.as_ref().unwrap().bytes_done, 400);

    s.apply_run_event(&RunEvent::Verified { file: "A.MP4".into() }, now);
    assert_eq!(s.run.as_ref().unwrap().files_done, 1);

    s.apply_run_event(
        &RunEvent::Copying { file: "B.MP4".into(), index: 2, total: 2 },
        now,
    );
    let run = s.run.as_ref().unwrap();
    assert_eq!(run.current_file.as_deref(), Some("B.MP4"));
    assert_eq!(run.files_done, 1);

    s.apply_run_event(
        &RunEvent::Progress { file: "B.MP4".into(), copied: 600, total: 600 },
        now,
    );
    assert_eq!(s.run.as_ref().unwrap().bytes_done, 1000);

    s.apply_run_event(&RunEvent::Verified { file: "B.MP4".into() }, now);
    assert_eq!(s.run.as_ref().unwrap().files_done, 2);

    s.apply_run_event(
        &RunEvent::RunComplete { copied: 2, skipped: 0, failed: 0, bytes: 1000 },
        now,
    );
    assert!(s.run.is_none(), "run cleared on completion");
    assert_eq!(s.status, Status::Idle);
    let last = s.last_run.as_ref().expect("last_run set");
    assert_eq!(*last, RunSummaryView { copied: 2, skipped: 0, failed: 0, bytes: 1000 });
}

#[test]
fn card_detected_before_scan_creates_run() {
    let mut s = AppState::default();
    s.apply_run_event(
        &RunEvent::CardDetected { model: Some("HERO12".into()), serial: None },
        42,
    );
    let run = s.run.as_ref().expect("run created by CardDetected when absent");
    assert_eq!(run.model.as_deref(), Some("HERO12"));
    assert_eq!(run.serial, None);
    assert_eq!(run.files_total, 0);
    assert_eq!(run.started_at_unix, 42);
}

#[test]
fn verified_caps_files_done_at_total() {
    let mut s = AppState::default();
    s.apply_run_event(&RunEvent::Scanned { new_files: 1, total_bytes: 10 }, 0);
    s.apply_run_event(&RunEvent::Verified { file: "x".into() }, 0);
    assert_eq!(s.run.as_ref().unwrap().files_done, 1);
    s.apply_run_event(&RunEvent::Verified { file: "x".into() }, 0);
    assert_eq!(s.run.as_ref().unwrap().files_done, 1);
}

#[test]
fn failed_event_sets_error_and_message() {
    let mut s = AppState::default();
    s.apply_run_event(&RunEvent::Scanned { new_files: 1, total_bytes: 10 }, 0);
    assert_eq!(s.status, Status::Working);
    s.apply_run_event(
        &RunEvent::Failed { file: "A.MP4".into(), error: "disk read error".into() },
        0,
    );
    assert_eq!(s.status, Status::Error);
    assert_eq!(s.message.as_deref(), Some("A.MP4: disk read error"));
}

#[test]
fn insufficient_space_sets_error_and_message() {
    let mut s = AppState::default();
    s.apply_run_event(&RunEvent::InsufficientSpace { need: 500, have: 100 }, 0);
    assert_eq!(s.status, Status::Error);
    assert_eq!(
        s.message.as_deref(),
        Some("insufficient space: need 500 bytes, have 100")
    );
}

#[test]
fn run_complete_with_failures_is_error_status() {
    let mut s = AppState::default();
    s.apply_run_event(&RunEvent::Scanned { new_files: 3, total_bytes: 30 }, 0);
    s.apply_run_event(
        &RunEvent::RunComplete { copied: 2, skipped: 0, failed: 1, bytes: 20 },
        0,
    );
    assert_eq!(s.status, Status::Error);
    assert!(s.run.is_none());
    assert_eq!(
        s.last_run.as_ref().unwrap(),
        &RunSummaryView { copied: 2, skipped: 0, failed: 1, bytes: 20 }
    );
}

#[test]
fn scanned_clears_a_stale_error_message() {
    let mut s = AppState::default();
    s.apply_run_event(&RunEvent::Failed { file: "x".into(), error: "boom".into() }, 0);
    assert_eq!(s.status, Status::Error);
    s.apply_run_event(&RunEvent::Scanned { new_files: 1, total_bytes: 5 }, 10);
    assert_eq!(s.status, Status::Working);
    assert!(s.message.is_none(), "Scanned resets the message for the new run");
}

#[test]
fn cloud_queued_increments_pending_and_marks_configured() {
    let mut s = AppState::default();
    assert!(!s.cloud.configured);
    assert_eq!(s.cloud.pending, 0);

    s.apply_run_event(&RunEvent::CloudQueued { file: "A.MP4".into() }, 0);
    assert!(s.cloud.configured);
    assert_eq!(s.cloud.pending, 1);

    s.apply_run_event(&RunEvent::CloudQueued { file: "B.MP4".into() }, 0);
    assert_eq!(s.cloud.pending, 2);
    assert!(s.cloud.configured);
}

#[test]
fn multi_file_files_done_bookkeeping_from_copying_index() {
    let mut s = AppState::default();
    s.apply_run_event(&RunEvent::Scanned { new_files: 3, total_bytes: 300 }, 0);

    s.apply_run_event(&RunEvent::Copying { file: "1".into(), index: 1, total: 3 }, 0);
    assert_eq!(s.run.as_ref().unwrap().files_done, 0);
    s.apply_run_event(&RunEvent::Verified { file: "1".into() }, 0);
    assert_eq!(s.run.as_ref().unwrap().files_done, 1);

    s.apply_run_event(&RunEvent::Copying { file: "2".into(), index: 2, total: 3 }, 0);
    assert_eq!(s.run.as_ref().unwrap().files_done, 1);
    s.apply_run_event(&RunEvent::Verified { file: "2".into() }, 0);
    assert_eq!(s.run.as_ref().unwrap().files_done, 2);

    s.apply_run_event(&RunEvent::Copying { file: "3".into(), index: 3, total: 3 }, 0);
    assert_eq!(s.run.as_ref().unwrap().files_done, 2);
    s.apply_run_event(&RunEvent::Verified { file: "3".into() }, 0);
    assert_eq!(s.run.as_ref().unwrap().files_done, 3);
    assert_eq!(s.run.as_ref().unwrap().current_file.as_deref(), Some("3"));
}

#[test]
fn multiple_progress_per_file_accumulate_via_base() {
    let mut s = AppState::default();
    s.apply_run_event(&RunEvent::Scanned { new_files: 1, total_bytes: 1000 }, 0);
    s.apply_run_event(&RunEvent::Copying { file: "a".into(), index: 1, total: 1 }, 0);

    s.apply_run_event(&RunEvent::Progress { file: "a".into(), copied: 200, total: 1000 }, 0);
    assert_eq!(s.run.as_ref().unwrap().bytes_done, 200);
    s.apply_run_event(&RunEvent::Progress { file: "a".into(), copied: 500, total: 1000 }, 0);
    assert_eq!(s.run.as_ref().unwrap().bytes_done, 500, "cumulative, not 200+500");
    s.apply_run_event(&RunEvent::Progress { file: "a".into(), copied: 1000, total: 1000 }, 0);
    assert_eq!(s.run.as_ref().unwrap().bytes_done, 1000);

    s.apply_run_event(&RunEvent::Verified { file: "a".into() }, 0);
    assert_eq!(s.run.as_ref().unwrap().completed_bytes, 1000, "verified file rolled into base");
}

#[test]
fn terminal_and_post_completion_ticks_are_idempotent() {
    let mut s = AppState::default();
    s.apply_run_event(&RunEvent::Scanned { new_files: 1, total_bytes: 500 }, 0);
    s.apply_run_event(&RunEvent::Copying { file: "a".into(), index: 1, total: 1 }, 0);
    s.apply_run_event(&RunEvent::Progress { file: "a".into(), copied: 500, total: 500 }, 0);
    s.apply_run_event(&RunEvent::Progress { file: "a".into(), copied: 500, total: 500 }, 0);
    assert_eq!(s.run.as_ref().unwrap().bytes_done, 500, "idempotent, not 1000");
    s.apply_run_event(&RunEvent::Verified { file: "a".into() }, 0);
    assert_eq!(s.run.as_ref().unwrap().completed_bytes, 500);
    assert_eq!(s.run.as_ref().unwrap().bytes_done, 500);
}

#[test]
fn second_file_progress_adds_to_completed_base() {
    let mut s = AppState::default();
    s.apply_run_event(&RunEvent::Scanned { new_files: 2, total_bytes: 1000 }, 0);
    s.apply_run_event(&RunEvent::Copying { file: "a".into(), index: 1, total: 2 }, 0);
    s.apply_run_event(&RunEvent::Progress { file: "a".into(), copied: 400, total: 400 }, 0);
    s.apply_run_event(&RunEvent::Verified { file: "a".into() }, 0);

    s.apply_run_event(&RunEvent::Copying { file: "b".into(), index: 2, total: 2 }, 0);
    assert_eq!(s.run.as_ref().unwrap().bytes_done, 400, "in-flight file starts from the base");
    s.apply_run_event(&RunEvent::Progress { file: "b".into(), copied: 250, total: 600 }, 0);
    assert_eq!(s.run.as_ref().unwrap().bytes_done, 650, "base 400 + current 250");
}

#[test]
fn failed_file_does_not_advance_base() {
    let mut s = AppState::default();
    s.apply_run_event(&RunEvent::Scanned { new_files: 2, total_bytes: 1000 }, 0);
    s.apply_run_event(&RunEvent::Copying { file: "a".into(), index: 1, total: 2 }, 0);
    s.apply_run_event(&RunEvent::Progress { file: "a".into(), copied: 300, total: 1000 }, 0);
    assert_eq!(s.run.as_ref().unwrap().bytes_done, 300);
    s.apply_run_event(&RunEvent::Copying { file: "b".into(), index: 2, total: 2 }, 0);
    assert_eq!(s.run.as_ref().unwrap().bytes_done, 0, "failed partial dropped");
    assert_eq!(s.run.as_ref().unwrap().completed_bytes, 0);
}

#[test]
fn resume_first_progress_starts_mid_file() {
    let mut s = AppState::default();
    s.apply_run_event(&RunEvent::Scanned { new_files: 1, total_bytes: 1000 }, 0);
    s.apply_run_event(&RunEvent::Copying { file: "a".into(), index: 1, total: 1 }, 0);
    s.apply_run_event(&RunEvent::Progress { file: "a".into(), copied: 800, total: 1000 }, 0);
    assert_eq!(s.run.as_ref().unwrap().bytes_done, 800);
    s.apply_run_event(&RunEvent::Progress { file: "a".into(), copied: 1000, total: 1000 }, 0);
    assert_eq!(s.run.as_ref().unwrap().bytes_done, 1000);
}


#[test]
fn skipped_and_other_noop_events_do_not_change_run() {
    let mut s = AppState::default();
    s.apply_run_event(&RunEvent::Scanned { new_files: 2, total_bytes: 20 }, 0);
    let before = s.run.clone();
    s.apply_run_event(&RunEvent::Skipped { file: "dup.MP4".into() }, 0);
    s.apply_run_event(&RunEvent::CardFileDeleted { file: "dup.MP4".into() }, 0);
    s.apply_run_event(&RunEvent::Ejected { mount: "/Volumes/GoPro".into() }, 0);
    s.apply_run_event(
        &RunEvent::NotGoPro("/Volumes/USB".to_string()),
        0,
    );
    assert_eq!(s.run, before, "no-op events leave run untouched");
    assert_eq!(s.status, Status::Working);
}

#[test]
fn cloud_uploading_sets_current_upload() {
    let mut s = AppState::default();
    s.apply_cloud_event(&CloudEvent::Uploading {
        file: "clip.mp4".into(),
        uploaded: 30,
        total: 100,
    });
    assert_eq!(
        s.cloud.uploading,
        Some(UploadProgress { file: "clip.mp4".into(), uploaded: 30, total: 100 })
    );
}

#[test]
fn cloud_mirrored_clears_upload_and_decrements_pending() {
    let mut s = AppState::default();
    s.cloud.pending = 2;
    s.apply_cloud_event(&CloudEvent::Uploading {
        file: "clip.mp4".into(),
        uploaded: 100,
        total: 100,
    });
    assert!(s.cloud.uploading.is_some());
    s.apply_cloud_event(&CloudEvent::Mirrored { file: "clip.mp4".into() });
    assert!(s.cloud.uploading.is_none());
    assert_eq!(s.cloud.pending, 1);
}

#[test]
fn cloud_mirrored_pending_saturates_at_zero() {
    let mut s = AppState::default();
    s.apply_cloud_event(&CloudEvent::Mirrored { file: "clip.mp4".into() });
    assert_eq!(s.cloud.pending, 0);
}

#[test]
fn cloud_failed_sets_error_increments_failed_and_decrements_pending() {
    let mut s = AppState::default();
    s.cloud.pending = 1;
    s.apply_cloud_event(&CloudEvent::Uploading {
        file: "clip.mp4".into(),
        uploaded: 10,
        total: 100,
    });
    s.apply_cloud_event(&CloudEvent::CloudFailed {
        file: "clip.mp4".into(),
        error: "401 Unauthorized".into(),
    });
    assert!(s.cloud.uploading.is_none());
    assert_eq!(s.cloud.failed, 1);
    assert_eq!(s.cloud.pending, 0);
    assert_eq!(s.status, Status::Error);
    assert_eq!(s.message.as_deref(), Some("clip.mp4: 401 Unauthorized"));
}

#[test]
fn cloud_failed_pending_saturates_at_zero() {
    let mut s = AppState::default();
    s.apply_cloud_event(&CloudEvent::CloudFailed {
        file: "clip.mp4".into(),
        error: "boom".into(),
    });
    assert_eq!(s.cloud.pending, 0);
    assert_eq!(s.cloud.failed, 1);
}

#[test]
fn cloud_deleted_sets_message_only() {
    let mut s = AppState::default();
    s.cloud.pending = 3;
    s.apply_cloud_event(&CloudEvent::Deleted { file: "clip.mp4".into() });
    assert_eq!(s.cloud.pending, 3);
    assert_eq!(s.cloud.failed, 0);
    assert_eq!(s.status, Status::Idle);
    assert_eq!(s.message.as_deref(), Some("freed card space: clip.mp4"));
}

fn rp(bytes_done: u64, bytes_total: u64, started_at_unix: i64) -> RunProgress {
    RunProgress {
        model: None,
        serial: None,
        files_done: 0,
        files_total: 0,
        bytes_done,
        bytes_total,
        current_file: None,
        started_at_unix,
        completed_bytes: 0,
    }
}

#[test]
fn eta_none_when_no_bytes_copied() {
    assert_eq!(rp(0, 1000, 0).eta_secs(10), None);
}

#[test]
fn eta_none_when_elapsed_not_positive() {
    assert_eq!(rp(500, 1000, 100).eta_secs(100), None);
    assert_eq!(rp(500, 1000, 100).eta_secs(50), None);
}

#[test]
fn eta_none_when_byte_complete() {
    assert_eq!(rp(1000, 1000, 0).eta_secs(10), None);
    assert_eq!(rp(1200, 1000, 0).eta_secs(10), None);
}

#[test]
fn eta_concrete_normal_case() {
    assert_eq!(rp(400, 1000, 0).eta_secs(10), Some(15));
}

#[test]
fn eta_ceils_fractional_seconds() {
    assert_eq!(rp(300, 1000, 0).eta_secs(10), Some(24));
}

#[test]
fn eta_holds_at_the_limits() {
    assert_eq!(rp(1, u64::MAX, i64::MIN).eta_secs(i64::MAX), Some(u64::MAX));
    assert_eq!(rp(u64::MAX - 1, u64::MAX, 0).eta_secs(1), Some(1));
    assert_eq!(rp(500, 1000, 0).eta_secs(10), Some(10));
}

#[test]
fn a_failed_card_deletion_is_no_error() {
    let mut s = AppState::default();
    s.apply_run_event(&RunEvent::Scanned { new_files: 1, total_bytes: 10 }, 0);
    s.apply_run_event(
        &RunEvent::CardDeleteFailed { file: "A.MP4".into(), error: "read-only".into() },
        0,
    );
    assert_eq!(s.status, Status::Working);
    assert_eq!(
        s.message.as_deref(),
        Some("card delete-after-verify failed for A.MP4: read-only")
    );
    let mut t = AppState::default();
    t.apply_cloud_event(&CloudEvent::DeleteFailed { file: "A.MP4".into(), error: "x".into() });
    assert_eq!(t.status, Status::Idle);
    assert_eq!(t.message.as_deref(), Some("card delete-after-verify failed for A.MP4: x"));
}

#[test]
fn a_run_error_drops_the_run() {
    let mut s = AppState::default();
    s.apply_run_event(&RunEvent::Scanned { new_files: 1, total_bytes: 10 }, 0);
    s.apply_run_error("db error: locked");
    assert!(s.run.is_none());
    assert_eq!(s.status, Status::Error);
    assert_eq!(s.message.as_deref(), Some("db error: locked"));
}

#[test]
fn a_new_scan_keeps_what_is_known_of_the_camera() {
    let mut s = AppState::default();
    s.apply_run_event(
        &RunEvent::CardDetected { model: Some("HERO12".into()), serial: Some("C1".into()) },
        5,
    );
    s.apply_run_event(&RunEvent::Scanned { new_files: 4, total_bytes: 9 }, 6);
    let run = s.run.as_ref().unwrap();
    assert_eq!(run.model.as_deref(), Some("HERO12"));
    assert_eq!(run.serial.as_deref(), Some("C1"));
    assert_eq!(run.started_at_unix, 6);
}

#[test]
fn progress_saturates() {
    let mut s = AppState::default();
    s.apply_run_event(&RunEvent::Scanned { new_files: 1, total_bytes: 10 }, 0);
    s.apply_run_event(
        &RunEvent::Progress { file: "a".into(), copied: u64::MAX, total: u64::MAX },
        0,
    );
    s.apply_run_event(&RunEvent::Verified { file: "a".into() }, 0);
    s.apply_run_event(&RunEvent::Progress { file: "b".into(), copied: 1, total: 1 }, 0);
    assert_eq!(s.run.as_ref().unwrap().bytes_done, u64::MAX);
}
