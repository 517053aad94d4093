use gpbeam::cloud::ResumeState;
use gpbeam::ledger::{JobState, Ledger};

fn mem() -> Ledger {
    Ledger::new("2026-06-03 10:00:00".to_string())
}

#[test]
fn new_file_is_not_a_duplicate_then_is_after_record() {
    let mut l = mem();
    let serial = "C346";
    assert!(!l.is_imported(serial, "GX010001.MP4", 4096, 1000));
    l.record(serial, "GX010001.MP4", 4096, 1000, "/dest/GX010001.MP4", Some("deadbeef"));
    assert!(l.is_imported(serial, "GX010001.MP4", 4096, 1000));
}

#[test]
fn different_size_or_mtime_is_not_duplicate() {
    let mut l = mem();
    l.record("C346", "GX010001.MP4", 4096, 1000, "/d/a", None);
    assert!(!l.is_imported("C346", "GX010001.MP4", 9999, 1000));
    assert!(!l.is_imported("C346", "GX010001.MP4", 4096, 2000));
    assert!(!l.is_imported("OTHER", "GX010001.MP4", 4096, 1000));
}

#[test]
fn record_is_idempotent_on_same_key() {
    let mut l = mem();
    l.record("C346", "GX010001.MP4", 4096, 1000, "/d/a", None);
    l.record("C346", "GX010001.MP4", 4096, 1000, "/d/a", Some("hash"));
    assert!(l.is_imported("C346", "GX010001.MP4", 4096, 1000));
}

#[test]
fn a_record_of_the_same_file_replaces_the_old_one() {
    let mut l = mem();
    let a = l.record("C346", "GX010001.MP4", 4096, 1000, "/d/a", None);
    let b = l.record("C346", "GX010001.MP4", 4096, 1000, "/d/b", Some("hash"));
    assert!(b > a);
    assert_eq!(l.imports().len(), 1);
    assert_eq!(l.imports()[0].dest_path, "/d/b");
    assert_eq!(l.imports()[0].hash.as_deref(), Some("hash"));
}

#[test]
fn due_jobs_are_claimed_once_and_in_order() {
    let mut l = mem();
    for i in 0..3 {
        let imp = l.record("C", "f", i, 1, "/d/f", None);
        l.enqueue_cloud_job(imp, "nc1", "/d/f", "r", i, None);
    }
    let first = l.claim_due_cloud_jobs(0, 2);
    assert_eq!(first.len(), 2);
    assert!(first.iter().all(|j| j.state == JobState::Uploading));
    assert!(first[0].id < first[1].id);
    let second = l.claim_due_cloud_jobs(0, 2);
    assert_eq!(second.len(), 1);
    assert!(l.claim_due_cloud_jobs(0, 2).is_empty());
    assert_eq!(l.reclaim_orphaned_uploading(), 3);
    assert_eq!(l.list_cloud_jobs(Some(JobState::Queued)).len(), 3);
}

#[test]
fn a_failed_job_waits_for_its_time() {
    let mut l = mem();
    let imp = l.record("C", "f", 1, 1, "/d/f", None);
    let job = l.enqueue_cloud_job(imp, "nc1", "/d/f", "r", 1, Some("/card/f"));
    l.claim_due_cloud_jobs(0, 1);
    l.mark_job_failed(job, "503", Some(100));
    assert_eq!(l.jobs()[0].attempts, 1);
    assert_eq!(l.jobs()[0].last_error.as_deref(), Some("503"));
    assert!(l.claim_due_cloud_jobs(99, 1).is_empty());
    assert_eq!(l.claim_due_cloud_jobs(100, 1).len(), 1);
    l.mark_job_done(job);
    assert_eq!(l.pending_cloud_count(), 0);
    assert_eq!(l.list_cloud_jobs(None).len(), 1);
    assert_eq!(l.jobs()[0].state.as_str(), "done");
    assert_eq!(l.jobs()[0].card_src.as_deref(), Some("/card/f"));
}

#[test]
fn progress_is_kept_for_the_next_claim() {
    let mut l = mem();
    let imp = l.record("C", "f", 1, 1, "/d/f", None);
    let job = l.enqueue_cloud_job(imp, "nc1", "/d/f", "r", 1, None);
    let resume = ResumeState { upload_id: Some("gpbeam-1".to_string()), uploaded_bytes: 42 };
    l.save_job_progress(job, 42, &resume);
    let claimed = l.claim_due_cloud_jobs(0, 1);
    assert_eq!(claimed[0].uploaded_bytes, 42);
    assert_eq!(claimed[0].resume_state, Some(resume));
}

#[test]
fn a_ledger_is_rebuilt_from_its_rows() {
    let mut l = mem();
    let imp = l.record("C", "f", 1, 1, "/d/f", None);
    l.enqueue_cloud_job(imp, "nc1", "/d/f", "r", 1, None);
    let copy = Ledger::from_rows(l.imports().clone(), l.jobs().clone(), "t".to_string());
    assert!(copy.is_imported("C", "f", 1, 1));
    assert_eq!(copy.pending_cloud_count(), 1);
}
