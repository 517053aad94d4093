//! Laws of the worker: what becomes of a job for each outcome of its upload.

use crate::backoff::{delay_is_bounded, delay_secs};
use crate::cloud::worker::{
    next_retry_in, preflight_of, upload_id_of, CloudWorker, JobResult, Preflight,
};
use crate::cloud::{CloudEvent, ResumeState, UploadOutcome};
use crate::error::CoreError;
use crate::hashing::blake3_hex;
use crate::ledger::{CloudJob, JobState, LedgerModel};
use crate::text::decimal_int;
use vstd::prelude::*;
use vstd::utf8::encode_utf8;

verus! {

/// A failure passes if and only if the transport failed, or the answer was 408, 429 or a
/// code from 500 on. No other failure does.
pub proof fn only_these_failures_pass(e: CoreError<Seq<char>>)
    ensures
        e.retryable() <==> e is Http && (e->status is None || e->status->0 == 408 || e->status->0
            == 429 || e->status->0 >= 500),
{
}

/// A job whose attempt failed by the transport, or by an answer of 408, 429 or 500 and
/// above, and that has attempts left, is still to be uploaded: it is parked with a time for
/// its retry, which lies 1 to 64 seconds ahead, with one more attempt and the error noted.
/// Nothing is reported or deleted, and no imported file is touched.
pub proof fn a_passing_failure_is_tried_again(
    w: CloudWorker<Seq<char>>,
    ledger: LedgerModel,
    job: CloudJob<Seq<char>>,
    e: CoreError<Seq<char>>,
    now: i64,
    jitter_ms: u64,
    i: int,
)
    requires
        0 <= i < ledger.jobs.len(),
        ledger.jobs[i].id == job.id,
        e is Http,
        e->status is None || e->status->0 == 408 || e->status->0 == 429 || e->status->0 >= 500,
        job.attempts + 1 < w.max_attempts,
    ensures
        ({
            let (after, s) = w.settled(ledger, job, JobResult::Failed(e), now, jitter_ms);
            let before = ledger.jobs[i];
            let parked = after.jobs[i];
            &&& parked.state == JobState::Failed
            &&& parked.next_retry_at is Some
            &&& parked.pending()
            &&& now <= i64::MAX - 64 ==> now < parked.next_retry_at->0 <= now + 64
            &&& now <= i64::MAX - 64 ==> parked.next_retry_at->0 == now + delay_secs(
                (job.attempts + 1) as nat,
                jitter_ms as nat,
            )
            &&& now > i64::MAX - 64 ==> now <= parked.next_retry_at->0
            &&& before.attempts < u32::MAX ==> parked.attempts == before.attempts + 1
            &&& parked.last_error == Some(e.text())
            &&& parked.uploaded_bytes == before.uploaded_bytes && parked.resume_state
                == before.resume_state
            &&& parked.local_path == before.local_path && parked.remote_path == before.remote_path
            &&& after.imports == ledger.imports
            &&& !s.terminal && s.event is None && s.delete is None
        }),
{
    delay_is_bounded((job.attempts + 1) as nat, jitter_ms as nat);
}

/// A job whose attempt failed in any other way, or that has no attempt left, is given up
/// on: it is parked without a time, the failure is reported with its text, and the file
/// that it belongs to is marked as failed. Nothing is deleted.
pub proof fn a_lasting_failure_is_given_up(
    w: CloudWorker<Seq<char>>,
    ledger: LedgerModel,
    job: CloudJob<Seq<char>>,
    e: CoreError<Seq<char>>,
    now: i64,
    jitter_ms: u64,
    i: int,
    r: int,
)
    requires
        0 <= i < ledger.jobs.len(),
        ledger.jobs[i].id == job.id,
        0 <= r < ledger.imports.len(),
        !(e is Http) || (e->status is Some && e->status->0 != 408 && e->status->0 != 429
            && e->status->0 < 500) || job.attempts + 1 >= w.max_attempts,
    ensures
        ({
            let (after, s) = w.settled(ledger, job, JobResult::Failed(e), now, jitter_ms);
            let before = ledger.jobs[i];
            let parked = after.jobs[i];
            &&& parked.state == JobState::Failed
            &&& parked.next_retry_at is None
            &&& !parked.pending()
            &&& before.attempts < u32::MAX ==> parked.attempts == before.attempts + 1
            &&& parked.last_error == Some(e.text())
            &&& after.imports.len() == ledger.imports.len()
            &&& after.imports[r].cloud_status == (if ledger.imports[r].id == job.imported_id {
                Some("failed"@)
            } else {
                ledger.imports[r].cloud_status
            })
            &&& s.terminal && s.delete is None
            &&& s.event == Some(
                CloudEvent::CloudFailed { file: job.remote_path, error: e.text() },
            )
        }),
{
}

/// A job whose file was there already, or was uploaded, is done: it has no retry and no
/// error, that is reported, and the file that it belongs to is marked as done. After an
/// upload all its bytes are noted, and its source on the card is to be deleted where that
/// is asked for; a file that was there already is not deleted.
pub proof fn an_upload_that_succeeded_is_done(
    w: CloudWorker<Seq<char>>,
    ledger: LedgerModel,
    job: CloudJob<Seq<char>>,
    out: UploadOutcome<Seq<char>>,
    uploaded: bool,
    now: i64,
    jitter_ms: u64,
    i: int,
    r: int,
)
    requires
        0 <= i < ledger.jobs.len(),
        ledger.jobs[i].id == job.id,
        0 <= r < ledger.imports.len(),
    ensures
        ({
            let result = if uploaded {
                JobResult::Uploaded(out)
            } else {
                JobResult::Present
            };
            let (after, s) = w.settled(ledger, job, result, now, jitter_ms);
            let done = after.jobs[i];
            &&& done.state == JobState::Done
            &&& done.next_retry_at is None && done.last_error is None
            &&& uploaded ==> done.uploaded_bytes == job.total_bytes
            &&& !uploaded ==> done.uploaded_bytes == ledger.jobs[i].uploaded_bytes
            &&& done.attempts == ledger.jobs[i].attempts
            &&& after.imports[r].cloud_status == (if ledger.imports[r].id == job.imported_id {
                Some("done"@)
            } else {
                ledger.imports[r].cloud_status
            })
            &&& s.terminal
            &&& s.event == Some(CloudEvent::Mirrored { file: job.remote_path })
            &&& s.delete == (if uploaded && w.delete_after_verify {
                job.card_src
            } else {
                None
            })
        }),
{
}

/// What the worker does with a job once it has asked for its file: where the file is there,
/// nothing is sent; where it is not, the upload is announced and begins at the bytes that
/// are noted, under the id of the job; and where the question failed, so has the job.
pub proof fn only_a_missing_file_is_uploaded(job: CloudJob<Seq<char>>, e: CoreError<Seq<char>>)
    ensures
        preflight_of(job, Ok(true)) == Preflight::<Seq<char>>::Settle(JobResult::Present),
        preflight_of(job, Err(e)) == Preflight::Settle(JobResult::Failed(e)),
        preflight_of(job, Ok(false)) == (Preflight::Begin {
            event: CloudEvent::Uploading {
                file: job.remote_path,
                uploaded: job.uploaded_bytes,
                total: job.total_bytes,
            },
            resume: ResumeState {
                upload_id: Some(upload_id_of(job.id, job.remote_path, job.total_bytes)),
                uploaded_bytes: job.uploaded_bytes,
            },
        }),
{
}

/// The worker waits for the retry that comes first: no parked job that is not due yet comes
/// before the wait is over, and one comes when it is.
pub proof fn the_worker_waits_for_the_first_retry(
    jobs: Seq<CloudJob<Seq<char>>>,
    now: i64,
    secs: int,
    i: int,
    at: i64,
)
    requires
        next_retry_in(jobs, now, secs),
        0 <= i < jobs.len(),
        jobs[i].state == JobState::Failed,
        jobs[i].next_retry_at == Some(at),
        at > now,
    ensures
        0 < secs <= at - now,
        exists|k: int|
            0 <= k < jobs.len() && (#[trigger] jobs[k]).state == JobState::Failed
                && jobs[k].next_retry_at is Some && jobs[k].next_retry_at->0 == now + secs,
{
    assert(crate::cloud::worker::waits_after(jobs[i], now));
    let k = choose|k: int|
        0 <= k < jobs.len() && #[trigger] crate::cloud::worker::waits_after(jobs[k], now)
            && jobs[k].next_retry_at->0 - now == secs;
    assert(jobs[k].next_retry_at->0 == now + secs);
}

/// The id of the upload directory of a job is made of its number and of the first eight digits
/// of the hash of its remote path and its size.
pub proof fn an_upload_id_names_its_target(job_id: i64, remote_path: Seq<char>, total: u64)
    ensures
        upload_id_of(job_id, remote_path, total) == "gpbeam-"@ + decimal_int(job_id as int) + "-"@
            + blake3_hex(
            encode_utf8(remote_path) + vstd::bytes::spec_u64_to_le_bytes(total),
        ).take(8),
{
}

} // verus!
