use gpbeam::cloud::worker::{
    add_clamped, after_pass, before_pass, begin_drain, deletion_event, derive_upload_id,
    note_progress, preflight, secs_until_next_retry, worker_lock_name, CloudWorker, DrainStep,
    JobResult, Preflight,
};
use gpbeam::cloud::{CloudEvent, ResumeState, UploadOutcome};
use gpbeam::error::CoreError;
use gpbeam::ledger::{CloudJob, JobState, Ledger};

/// What the destination of a test does with one job.
struct Script {
    present: Result<bool, CoreError>,
    progress: Vec<u64>,
    upload: Result<u64, CoreError>,
    elapsed_secs: i64,
}

fn ok() -> Script {
    Script { present: Ok(false), progress: vec![], upload: Ok(4096), elapsed_secs: 0 }
}

fn fails(error: CoreError) -> Script {
    Script { present: Ok(false), progress: vec![], upload: Err(error), elapsed_secs: 0 }
}

fn http(status: u16, msg: &str) -> CoreError {
    CoreError::Http { status: Some(status), msg: msg.to_string() }
}

/// What a pass of a test came to.
struct Ran {
    terminal: usize,
    uploads: usize,
    events: Vec<CloudEvent>,
    cursors: Vec<ResumeState>,
}

fn run_once(
    worker: &CloudWorker,
    ledger: &mut Ledger,
    now: i64,
    script: &dyn Fn(&CloudJob) -> Script,
) -> Ran {
    let (mut pass, jobs) = worker.begin_pass(ledger, now);
    let mut ran = Ran { terminal: 0, uploads: 0, events: vec![], cursors: vec![] };
    for job in &jobs {
        let s = script(job);
        let result = match preflight(job, s.present) {
            Preflight::Settle(r) => r,
            Preflight::Begin { event, resume } => {
                ran.events.push(event);
                ran.cursors.push(resume);
                ran.uploads += 1;
                for p in s.progress {
                    note_progress(ledger, job, p);
                }
                match s.upload {
                    Ok(bytes) => JobResult::Uploaded(UploadOutcome {
                        remote_ref: job.remote_path.clone(),
                        bytes,
                        etag: None,
                    }),
                    Err(e) => JobResult::Failed(e),
                }
            }
        };
        let settled = worker.settle(&mut pass, ledger, job, &result, s.elapsed_secs, 500);
        ran.events.extend(settled.event);
        if let Some(src) = settled.delete {
            ran.events.push(deletion_event(src, None));
        }
    }
    assert_eq!(pass.left, 0);
    ran.terminal = pass.terminal;
    ran
}

fn worker(max_concurrency: usize, max_attempts: u32, delete: bool) -> CloudWorker {
    CloudWorker::new("/l".into(), "nc1".into(), max_concurrency, max_attempts, delete)
}

fn ledger_with_one_job() -> (Ledger, i64) {
    let mut l = Ledger::new("2026-06-03 10:00:00".to_string());
    let imported_id =
        l.record("C346", "GX010001.MP4", 4096, 1000, "/dest/GX010001.MP4", Some("h"));
    let job_id = l.enqueue_cloud_job(
        imported_id,
        "nc1",
        "/dest/GX010001.MP4",
        "GX010001.MP4",
        4096,
        None,
    );
    (l, job_id)
}

#[test]
fn one_job_uploads_to_done_emits_mirrored_and_sets_cloud_status() {
    let (mut l, job_id) = ledger_with_one_job();
    let ran = run_once(&worker(2, 8, false), &mut l, 1000, &|_| ok());

    assert_eq!(ran.terminal, 1, "one job reached a terminal state");
    assert_eq!(ran.uploads, 1);
    let jobs = l.list_cloud_jobs(Some(JobState::Done));
    assert_eq!(jobs.len(), 1);
    assert_eq!(jobs[0].id, job_id);
    assert_eq!(jobs[0].state, JobState::Done);
    assert_eq!(jobs[0].uploaded_bytes, 4096);
    assert_eq!(l.pending_cloud_count(), 0);
    assert!(ran.events.iter().any(|e| matches!(
        e,
        CloudEvent::Mirrored { file } if file == "GX010001.MP4"
    )));
    assert!(ran.events.iter().any(|e| matches!(e, CloudEvent::Uploading { .. })));
}

#[test]
fn retryable_error_reschedules_then_succeeds_on_next_run() {
    let (mut l, job_id) = ledger_with_one_job();
    let w = worker(2, 8, false);
    let first = run_once(&w, &mut l, 1000, &|_| fails(http(503, "service unavailable")));
    assert_eq!(first.terminal, 0, "a rescheduled job is NOT terminal");
    assert!(
        !first.events.iter().any(|e| matches!(e, CloudEvent::CloudFailed { .. })),
        "retryable failure must not emit CloudFailed"
    );
    let failed = l.list_cloud_jobs(Some(JobState::Failed));
    assert_eq!(failed.len(), 1, "job is parked in Failed awaiting retry");
    assert_eq!(failed[0].attempts, 1);
    assert!(failed[0].next_retry_at.unwrap() >= 1000 + 2);
    assert!(failed[0].last_error.as_deref().unwrap().contains("503"));
    assert_eq!(l.pending_cloud_count(), 1, "still pending");

    let second = run_once(&w, &mut l, 100_000, &|_| ok());
    assert_eq!(second.terminal, 1, "now terminal (Done)");
    assert_eq!(first.uploads + second.uploads, 2);
    let done = l.list_cloud_jobs(Some(JobState::Done));
    assert_eq!(done.len(), 1);
    assert_eq!(done[0].id, job_id);
    assert_eq!(l.pending_cloud_count(), 0);
}

#[test]
fn non_retryable_auth_error_is_terminal_and_emits_cloud_failed() {
    let (mut l, job_id) = ledger_with_one_job();
    let ran = run_once(&worker(2, 8, false), &mut l, 1000, &|_| {
        fails(CoreError::CloudAuth("bad app password".into()))
    });
    assert_eq!(ran.terminal, 1, "a non-retryable failure IS terminal");
    assert_eq!(ran.uploads, 1);
    assert!(ran.events.iter().any(|e| matches!(
        e,
        CloudEvent::CloudFailed { file, error }
            if file == "GX010001.MP4" && error.contains("bad app password")
    )));
    let failed = l.list_cloud_jobs(Some(JobState::Failed));
    assert_eq!(failed.len(), 1);
    assert_eq!(failed[0].id, job_id);
    assert!(failed[0].next_retry_at.is_none());
    assert_eq!(l.pending_cloud_count(), 0);
}

#[test]
fn exhausting_max_attempts_makes_a_retryable_error_terminal() {
    let (mut l, _) = ledger_with_one_job();
    let ran =
        run_once(&worker(2, 1, false), &mut l, 1000, &|_| fails(http(503, "still down")));
    assert_eq!(ran.terminal, 1, "retries exhausted -> terminal");
    assert!(ran.events.iter().any(|e| matches!(e, CloudEvent::CloudFailed { .. })));
    let failed = l.list_cloud_jobs(Some(JobState::Failed));
    assert_eq!(failed.len(), 1);
    assert!(failed[0].next_retry_at.is_none(), "no retry after exhaustion");
    assert_eq!(l.pending_cloud_count(), 0);
}

#[test]
fn progress_is_persisted_and_next_claim_resumes() {
    let mut l = Ledger::new("t".to_string());
    let imported_id =
        l.record("C346", "GX010002.MP4", 100_000, 1000, "/dest/GX010002.MP4", Some("h"));
    let job_id = l.enqueue_cloud_job(
        imported_id,
        "nc1",
        "/dest/GX010002.MP4",
        "GX010002.MP4",
        100_000,
        None,
    );
    let w = worker(2, 8, false);
    run_once(&w, &mut l, 1000, &|_| Script {
        progress: vec![60_000],
        ..fails(http(429, "slow down"))
    });
    let jobs = l.list_cloud_jobs(Some(JobState::Failed));
    assert_eq!(jobs.len(), 1);
    assert_eq!(jobs[0].id, job_id);
    assert_eq!(jobs[0].uploaded_bytes, 60_000, "progress persisted across the failure");
    let resume = jobs[0].resume_state.as_ref().expect("resume_state persisted");
    assert_eq!(resume.uploaded_bytes, 60_000);

    run_once(&w, &mut l, 100_000, &|_| Script {
        progress: vec![100_000],
        upload: Ok(100_000),
        ..ok()
    });
    let done = l.list_cloud_jobs(Some(JobState::Done));
    assert_eq!(done.len(), 1);
    assert_eq!(done[0].uploaded_bytes, 100_000);
    assert_eq!(l.pending_cloud_count(), 0);
}

#[test]
fn already_present_remote_skips_upload_and_marks_done() {
    let (mut l, job_id) = ledger_with_one_job();
    let ran = run_once(&worker(2, 8, false), &mut l, 1000, &|_| Script {
        present: Ok(true),
        ..ok()
    });
    assert_eq!(ran.terminal, 1, "the skipped job reached a terminal state");
    assert_eq!(ran.uploads, 0, "upload() must NEVER be called when already_present is true");
    let done = l.list_cloud_jobs(Some(JobState::Done));
    assert_eq!(done.len(), 1);
    assert_eq!(done[0].id, job_id);
    assert_eq!(l.pending_cloud_count(), 0);
    assert!(ran.events.iter().any(|e| matches!(
        e,
        CloudEvent::Mirrored { file } if file == "GX010001.MP4"
    )));
    assert!(
        !ran.events.iter().any(|e| matches!(e, CloudEvent::Uploading { .. })),
        "already-present skip must NOT emit Uploading"
    );
}

#[test]
fn preflight_error_emits_no_uploading_event() {
    let (mut l, _) = ledger_with_one_job();
    let ran = run_once(&worker(2, 8, false), &mut l, 1000, &|_| Script {
        present: Err(http(503, "down")),
        ..ok()
    });
    assert_eq!(ran.uploads, 0, "upload never started");
    assert!(
        !ran.events.iter().any(|e| matches!(e, CloudEvent::Uploading { .. })),
        "a failed pre-flight check must NOT emit Uploading"
    );
}

#[test]
fn uploading_event_fires_at_upload_start_with_resume_offset() {
    let (mut l, job_id) = ledger_with_one_job();
    let resume = ResumeState { upload_id: None, uploaded_bytes: 2048 };
    l.save_job_progress(job_id, 2048, &resume);
    let ran = run_once(&worker(2, 8, false), &mut l, 1000, &|_| ok());

    let uploading_at = ran
        .events
        .iter()
        .position(|e| matches!(e, CloudEvent::Uploading { .. }))
        .expect("an Uploading event was emitted");
    let mirrored_at = ran
        .events
        .iter()
        .position(|e| matches!(e, CloudEvent::Mirrored { .. }))
        .expect("a Mirrored event was emitted");
    assert!(uploading_at < mirrored_at, "Uploading must precede Mirrored");
    assert!(
        ran.events.iter().any(|e| matches!(
            e,
            CloudEvent::Uploading { uploaded: 2048, total: 4096, .. }
        )),
        "Uploading carries the resume offset, got {:?}",
        ran.events
    );
}

#[test]
fn uploading_precedes_cloud_failed_on_terminal_failure() {
    let (mut l, _) = ledger_with_one_job();
    let ran = run_once(&worker(2, 1, false), &mut l, 1000, &|_| fails(http(500, "boom")));
    let uploading_at = ran
        .events
        .iter()
        .position(|e| matches!(e, CloudEvent::Uploading { .. }))
        .expect("an Uploading event was emitted (the upload genuinely started)");
    let failed_at = ran
        .events
        .iter()
        .position(|e| matches!(e, CloudEvent::CloudFailed { .. }))
        .expect("a CloudFailed event was emitted");
    assert!(uploading_at < failed_at, "Uploading must precede CloudFailed");
}

#[test]
fn worker_passes_deterministic_resume_id_and_carries_uploaded_bytes() {
    let (mut l, job_id) = ledger_with_one_job();
    let resume = ResumeState { upload_id: None, uploaded_bytes: 2048 };
    l.save_job_progress(job_id, 2048, &resume);
    let ran = run_once(&worker(2, 8, false), &mut l, 1000, &|_| ok());
    assert_eq!(ran.uploads, 1, "upload was attempted once");
    let cursor = &ran.cursors[0];
    assert_eq!(
        cursor.upload_id,
        Some(derive_upload_id(job_id, "GX010001.MP4", 4096)),
        "deterministic upload_id derived from the job id + target"
    );
    assert_eq!(
        cursor.uploaded_bytes, 2048,
        "the persisted uploaded_bytes is carried into the upload"
    );
}

#[test]
fn a_pass_hands_every_claimed_job_back() {
    let (mut l, _) = ledger_with_one_job();
    for name in ["a.mp4", "b.mp4"] {
        l.enqueue_cloud_job(1, "nc1", "/dest/x", name, 4096, None);
    }
    run_once(&worker(3, 8, false), &mut l, 1000, &|job| match job.remote_path.as_str() {
        "a.mp4" => fails(http(503, "down")),
        "b.mp4" => fails(CoreError::CloudAuth("no".into())),
        _ => ok(),
    });
    assert_eq!(l.list_cloud_jobs(Some(JobState::Uploading)).len(), 0);
    assert_eq!(l.list_cloud_jobs(Some(JobState::Done)).len(), 1);
    assert_eq!(l.list_cloud_jobs(Some(JobState::Failed)).len(), 2);
    assert_eq!(l.pending_cloud_count(), 1, "only the failed job that may be retried is pending");
}

/// Makes passes until the queue is drained.
fn drain(worker: &CloudWorker, ledger: &mut Ledger, script: &dyn Fn(&CloudJob) -> Script) -> Ran {
    begin_drain(ledger);
    let mut now = 1000;
    let mut all = Ran { terminal: 0, uploads: 0, events: vec![], cursors: vec![] };
    for _ in 0..100 {
        if before_pass(ledger) == DrainStep::Stop {
            return all;
        }
        let ran = run_once(worker, ledger, now, script);
        all.terminal += ran.terminal;
        all.uploads += ran.uploads;
        all.events.extend(ran.events);
        match after_pass(ledger, ran.terminal, now) {
            DrainStep::Wait(secs) => now += secs as i64,
            DrainStep::WaitAndStop(_) => return all,
            other => panic!("got {other:?}"),
        }
    }
    panic!("the drain does not end");
}

#[test]
fn run_until_drained_reclaims_orphaned_uploading_then_uploads() {
    let (mut l, job_id) = ledger_with_one_job();
    l.claim_due_cloud_jobs(0, 10);
    assert_eq!(l.list_cloud_jobs(Some(JobState::Uploading)).len(), 1);

    let ran = drain(&worker(2, 8, false), &mut l, &|_| ok());

    assert_eq!(l.pending_cloud_count(), 0, "orphaned job drained");
    let done = l.list_cloud_jobs(Some(JobState::Done));
    assert_eq!(done.len(), 1);
    assert_eq!(done[0].id, job_id);
    assert_eq!(ran.uploads, 1, "the reclaimed job was actually uploaded");
}

#[test]
fn run_until_drained_finishes_all_queued_jobs() {
    let mut l = Ledger::new("t".to_string());
    let imp_a = l.record("C346", "GX010001.MP4", 4096, 1000, "/dest/GX010001.MP4", Some("h"));
    let imp_b = l.record("C346", "GX010002.MP4", 8192, 1001, "/dest/GX010002.MP4", Some("h"));
    let id_a =
        l.enqueue_cloud_job(imp_a, "nc1", "/dest/GX010001.MP4", "GX010001.MP4", 4096, None);
    let id_b =
        l.enqueue_cloud_job(imp_b, "nc1", "/dest/GX010002.MP4", "GX010002.MP4", 8192, None);

    let ran = drain(&worker(1, 8, false), &mut l, &|_| ok());

    assert_eq!(l.pending_cloud_count(), 0, "queue fully drained");
    let done = l.list_cloud_jobs(Some(JobState::Done));
    let done_ids: Vec<i64> = done.iter().map(|j| j.id).collect();
    assert!(done_ids.contains(&id_a));
    assert!(done_ids.contains(&id_b));
    assert_eq!(done.len(), 2);
    let mirrored =
        ran.events.iter().filter(|e| matches!(e, CloudEvent::Mirrored { .. })).count();
    assert_eq!(mirrored, 2);
}

#[test]
fn a_drain_waits_for_retries_and_gives_up_in_the_end() {
    let (mut l, _) = ledger_with_one_job();
    let ran = drain(&worker(2, 3, false), &mut l, &|_| fails(http(503, "down")));
    assert_eq!(ran.uploads, 3);
    assert_eq!(ran.terminal, 1);
    assert_eq!(l.failed_cloud_count(), 1);
}

#[test]
fn retry_schedule_uses_failure_time_clock_not_pass_start() {
    let (mut l, _) = ledger_with_one_job();
    let ran = run_once(&worker(2, 8, false), &mut l, 1000, &|_| Script {
        elapsed_secs: 2,
        ..fails(http(503, "slow boom"))
    });
    assert_eq!(ran.terminal, 0, "a retryable failure is rescheduled, not terminal");
    let failed = l.list_cloud_jobs(Some(JobState::Failed));
    assert_eq!(failed.len(), 1);
    let next = failed[0].next_retry_at.unwrap();
    assert!(
        next >= 1000 + 2 + 2,
        "retry base must reflect the ~2s spent uploading, got {next}"
    );
    assert_eq!(next, 1000 + 2 + 3);
    assert_eq!(secs_until_next_retry(&l, 1000), Some(5));
    assert_eq!(secs_until_next_retry(&l, 2000), None);
}

fn seed_job(card: &str) -> Ledger {
    let mut l = Ledger::new("t".to_string());
    let imported_id = l.record("C346", "GX010001.MP4", 8, 1000, "/dest/GX010001.MP4", None);
    l.enqueue_cloud_job(
        imported_id,
        "nc1",
        "/dest/GX010001.MP4",
        "GoPro/GX010001.MP4",
        8,
        Some(card),
    );
    l
}

#[test]
fn worker_deletes_card_src_after_done() {
    let mut l = seed_job("/card/GX010001.MP4");
    let ran = drain(&worker(2, 8, true), &mut l, &|_| ok());
    assert!(ran.events.iter().any(|e| matches!(
        e,
        CloudEvent::Deleted { file } if file == "/card/GX010001.MP4"
    )));
    let mut kept = seed_job("/card/GX010001.MP4");
    let ran = drain(&worker(2, 8, false), &mut kept, &|_| ok());
    assert!(!ran.events.iter().any(|e| matches!(e, CloudEvent::Deleted { .. })));
}

#[test]
fn worker_keeps_card_src_on_failure() {
    let mut l = seed_job("/card/GX010001.MP4");
    let ran = run_once(&worker(2, 1, true), &mut l, 1000, &|_| fails(http(500, "boom")));
    assert!(!ran.events.iter().any(|e| matches!(e, CloudEvent::Deleted { .. })));

    let mut l = seed_job("/card/GX010001.MP4");
    let w = worker(2, 1, true);
    let (mut pass, jobs) = w.begin_pass(&mut l, 1000);
    let failed = JobResult::Failed(http(500, "boom"));
    let settled = w.settle(&mut pass, &mut l, &jobs[0], &failed, 0, 500);
    assert_eq!(settled.delete, None, "no deletion is handed out");
    assert!(settled.terminal);
}

#[test]
fn every_attempt_gets_the_same_upload_id() {
    let (mut l, job_id) = ledger_with_one_job();
    let w = worker(2, 8, false);
    let first = run_once(&w, &mut l, 1000, &|_| Script {
        progress: vec![1024],
        ..fails(http(503, "down"))
    });
    let second = run_once(&w, &mut l, 100_000, &|_| ok());
    let id = Some(derive_upload_id(job_id, "GX010001.MP4", 4096));
    assert_eq!(first.cursors[0], ResumeState { upload_id: id.clone(), uploaded_bytes: 0 });
    assert_eq!(second.cursors[0], ResumeState { upload_id: id, uploaded_bytes: 1024 });
}

#[test]
fn a_failed_deletion_is_reported_as_such() {
    assert_eq!(
        deletion_event("/card/x".into(), Some("read-only")),
        CloudEvent::DeleteFailed {
            file: "/card/x".into(),
            error: "post-upload delete failed: read-only".into()
        }
    );
}

#[test]
fn upload_ids_tell_jobs_and_targets_apart() {
    let id = derive_upload_id(7, "GoPro/a.mp4", 100);
    assert!(id.starts_with("gpbeam-7-"), "{id}");
    assert_eq!(id.len(), "gpbeam-7-".len() + 8);
    assert_eq!(id, derive_upload_id(7, "GoPro/a.mp4", 100));
    assert_ne!(id, derive_upload_id(8, "GoPro/a.mp4", 100));
    assert_ne!(id, derive_upload_id(7, "GoPro/b.mp4", 100));
    assert_ne!(id, derive_upload_id(7, "GoPro/a.mp4", 101));
    let mut hasher = blake3::Hasher::new();
    hasher.update(b"GoPro/a.mp4");
    hasher.update(&100u64.to_le_bytes());
    let hex = hasher.finalize().to_hex();
    assert_eq!(id, format!("gpbeam-7-{}", &hex[..8]));
}

#[test]
fn times_do_not_overflow() {
    assert_eq!(add_clamped(i64::MAX, 1), i64::MAX);
    assert_eq!(add_clamped(i64::MIN, -1), i64::MIN);
    assert_eq!(add_clamped(2, 3), 5);
    assert_eq!(worker_lock_name(), ".gpbeam-worker.lock");
}
