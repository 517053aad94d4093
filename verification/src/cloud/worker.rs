//! The worker that empties the upload queue: what it does with each job, and when
//! it stops.

use crate::backoff::{backoff_delay_secs, delay_secs};
use crate::cloud::chunks::chunks_cover_the_file;
use crate::cloud::nextcloud::NextcloudUploader;
use crate::cloud::upload::{
    an_interrupted_upload_resumes, stored_parts_are_not_sent, ChunkAction, ChunkedModel, Reply,
};
use crate::cloud::webdav::listed_chunks;
use crate::cloud::{CloudEvent, ResumeState, UploadOutcome};
use crate::config::clone_opt;
use crate::error::{is_retryable, CoreError, Result};
use crate::hashing::{blake3_hex, blake3_of_two};
use crate::ledger::{
    after_claims, claims, job_views, pending_count, CloudJob, JobState, Ledger, LedgerModel,
};
use crate::text::{
    decimal_int, from_chars, lemma_decimal_injective, lemma_decimal_value, opt_view, push_i64,
    to_chars,
};
use vstd::prelude::*;
use vstd::utf8::encode_utf8;

verus! {

/// How long the worker waits, in seconds, if jobs are pending that it can neither
/// claim nor wait for.
pub const IDLE_BACKSTOP_SECS: u64 = 5;

/// The name of the file beside the ledger that keeps a second worker out.
pub fn worker_lock_name() -> (r: &'static str)
    ensures
        r@ == ".gpbeam-worker.lock"@,
{
    ".gpbeam-worker.lock"
}

// ---- upload ids -------------------------------------------------------------

/// The id of a job's upload directory: the number of the job, and the first eight
/// digits of a hash.
pub open spec fn upload_id_text(job_id: i64, hex: Seq<char>) -> Seq<char> {
    "gpbeam-"@ + decimal_int(job_id as int) + "-"@ + hex.take(8)
}

/// The id of the upload directory of a job: the hash is that of the remote path
/// and the size.
pub open spec fn upload_id_of(job_id: i64, remote_path: Seq<char>, total: u64) -> Seq<char> {
    upload_id_text(
        job_id,
        blake3_hex(encode_utf8(remote_path) + vstd::bytes::spec_u64_to_le_bytes(total)),
    )
}

/// The id of the upload directory of a job. It is the same at every attempt, so
/// that an upload resumes across restarts, and it holds more than the number of
/// the job, so that two ledgers do not share a directory.
pub fn derive_upload_id(job_id: i64, remote_path: &str, total: u64) -> (r: String)
    ensures
        r@ == upload_id_of(job_id, remote_path@, total),
{
    let size = vstd::bytes::u64_to_le_bytes(total);
    let hex = blake3_of_two(remote_path.as_bytes(), size.as_slice());
    let mut s = "gpbeam-".to_owned();
    push_i64(&mut s, job_id);
    s.append("-");
    let v = to_chars(hex.as_str());
    let head = from_chars(v.as_slice(), 0, 8);
    s.append(head.as_str());
    assert(head@ =~= hex@.take(8));
    s
}

proof fn lemma_decimal_int_injective(a: int, b: int)
    requires
        decimal_int(a) == decimal_int(b),
    ensures
        a == b,
{
    if a < 0 && b < 0 {
        assert(decimal_int(a).skip(1) =~= crate::text::decimal((-a) as nat));
        assert(decimal_int(b).skip(1) =~= crate::text::decimal((-b) as nat));
        lemma_decimal_injective((-a) as nat, (-b) as nat);
    } else if a >= 0 && b >= 0 {
        lemma_decimal_injective(a as nat, b as nat);
    } else if a >= 0 {
        lemma_decimal_value(a as nat);
        assert(crate::text::is_digit(decimal_int(a)[0]));
        assert(decimal_int(b)[0] == '-');
    } else {
        lemma_decimal_value(b as nat);
        assert(crate::text::is_digit(decimal_int(b)[0]));
        assert(decimal_int(a)[0] == '-');
    }
}

/// Two jobs share an upload directory only if they have the same number and the
/// same first eight digits of the hash of their target.
pub proof fn upload_ids_tell_jobs_apart(a: i64, b: i64, hex_a: Seq<char>, hex_b: Seq<char>)
    requires
        hex_a.len() == 64,
        hex_b.len() == 64,
        upload_id_text(a, hex_a) == upload_id_text(b, hex_b),
    ensures
        a == b,
        hex_a.take(8) == hex_b.take(8),
{
    let ta = upload_id_text(a, hex_a);
    let tb = upload_id_text(b, hex_b);
    let da = decimal_int(a as int);
    let db = decimal_int(b as int);
    reveal_strlit("gpbeam-");
    reveal_strlit("-");
    assert(ta.len() == 7 + da.len() + 1 + 8);
    assert(tb.len() == 7 + db.len() + 1 + 8);
    assert(ta.subrange(7, 7 + da.len() as int) =~= da);
    assert(tb.subrange(7, 7 + db.len() as int) =~= db);
    lemma_decimal_int_injective(a as int, b as int);
    assert(ta.skip(8 + da.len() as int) =~= hex_a.take(8));
    assert(tb.skip(8 + db.len() as int) =~= hex_b.take(8));
}

// ---- one job ----------------------------------------------------------------

/// What the worker knows of itself.
#[derive(Debug, PartialEq, Eq)]
pub struct CloudWorker<S = String> {
    pub ledger_path: S,
    pub destination_id: S,
    /// How many jobs are uploaded at a time.
    pub max_concurrency: usize,
    /// How often a job is tried.
    pub max_attempts: u32,
    /// Whether the file on the card is deleted once its upload is done.
    pub delete_after_verify: bool,
}

impl View for CloudWorker<String> {
    type V = CloudWorker<Seq<char>>;

    open spec fn view(&self) -> CloudWorker<Seq<char>> {
        CloudWorker {
            ledger_path: self.ledger_path@,
            destination_id: self.destination_id@,
            max_concurrency: self.max_concurrency,
            max_attempts: self.max_attempts,
            delete_after_verify: self.delete_after_verify,
        }
    }
}

/// How the upload of a job came out.
#[derive(Debug)]
pub enum JobResult<S = String> {
    /// The file was there already, and nothing was sent.
    Present,
    /// The upload is done.
    Uploaded(UploadOutcome<S>),
    /// The upload, or the question whether the file is there, failed.
    Failed(CoreError<S>),
}

impl View for JobResult<String> {
    type V = JobResult<Seq<char>>;

    open spec fn view(&self) -> JobResult<Seq<char>> {
        match *self {
            JobResult::Present => JobResult::Present,
            JobResult::Uploaded(o) => JobResult::Uploaded(o@),
            JobResult::Failed(e) => JobResult::Failed(e@),
        }
    }
}

/// What the worker does with a job once it knows whether the file is there.
#[derive(Debug)]
pub enum Preflight<S = String> {
    /// The job is settled without an upload.
    Settle(JobResult<S>),
    /// The upload begins: the event announces it, and the cursor goes with it.
    Begin { event: CloudEvent<S>, resume: ResumeState<S> },
}

impl View for Preflight<String> {
    type V = Preflight<Seq<char>>;

    open spec fn view(&self) -> Preflight<Seq<char>> {
        match *self {
            Preflight::Settle(r) => Preflight::Settle(r@),
            Preflight::Begin { event, resume } => Preflight::Begin {
                event: event@,
                resume: resume@,
            },
        }
    }
}

/// What settling a job comes to.
#[derive(Debug)]
pub struct Settled {
    /// The event to report, if any.
    pub event: Option<CloudEvent>,
    /// True if the job will not be tried again.
    pub terminal: bool,
    /// The file on the card that can now be deleted.
    pub delete: Option<String>,
}

/// What settling a job comes to.
pub struct SettledModel {
    pub event: Option<CloudEvent<Seq<char>>>,
    pub terminal: bool,
    pub delete: Option<Seq<char>>,
}

impl View for Settled {
    type V = SettledModel;

    open spec fn view(&self) -> SettledModel {
        SettledModel {
            event: match self.event {
                Some(e) => Some(e@),
                None => None,
            },
            terminal: self.terminal,
            delete: opt_view(self.delete),
        }
    }
}

/// The sum of two times, held at the ends of the range.
pub open spec fn clamped_sum(a: int, b: int) -> i64 {
    if a + b > i64::MAX {
        i64::MAX
    } else if a + b < i64::MIN {
        i64::MIN
    } else {
        (a + b) as i64
    }
}

/// The sum of two times, held at the ends of the range.
pub fn add_clamped(a: i64, b: i64) -> (r: i64)
    ensures
        r == clamped_sum(a as int, b as int),
{
    match a.checked_add(b) {
        Some(s) => s,
        None => if b > 0 {
            i64::MAX
        } else {
            i64::MIN
        },
    }
}

impl CloudJob<Seq<char>> {
    /// The number of the attempt that runs now.
    pub open spec fn attempt(self) -> u32 {
        if self.attempts < u32::MAX {
            (self.attempts + 1) as u32
        } else {
            u32::MAX
        }
    }

    /// The cursor that notes `uploaded` bytes.
    pub open spec fn cursor(self, uploaded: u64) -> ResumeState<Seq<char>> {
        ResumeState {
            upload_id: Some(upload_id_of(self.id, self.remote_path, self.total_bytes)),
            uploaded_bytes: uploaded,
        }
    }
}

impl CloudWorker<Seq<char>> {
    /// True if a job that failed so is tried again.
    pub open spec fn tries_again(self, job: CloudJob<Seq<char>>, e: CoreError<Seq<char>>) -> bool {
        e.retryable() && job.attempt() < self.max_attempts
    }

    /// What settling a job does to the ledger, and what it comes to. `now` is the
    /// time of the failure.
    pub open spec fn settled(
        self,
        ledger: LedgerModel,
        job: CloudJob<Seq<char>>,
        result: JobResult<Seq<char>>,
        now: i64,
        jitter_ms: u64,
    ) -> (LedgerModel, SettledModel) {
        let mirrored = Some(CloudEvent::Mirrored { file: job.remote_path });
        match result {
            JobResult::Present => (
                ledger.job_done(job.id).status_set(job.imported_id, "done"@),
                SettledModel { event: mirrored, terminal: true, delete: None },
            ),
            JobResult::Uploaded(_) => (
                ledger.job_progressed(
                    job.id,
                    job.total_bytes,
                    job.cursor(job.total_bytes),
                ).job_done(job.id).status_set(job.imported_id, "done"@),
                SettledModel {
                    event: mirrored,
                    terminal: true,
                    delete: if self.delete_after_verify {
                        job.card_src
                    } else {
                        None
                    },
                },
            ),
            JobResult::Failed(e) => {
                if self.tries_again(job, e) {
                    let next = clamped_sum(
                        now as int,
                        delay_secs(job.attempt() as nat, jitter_ms as nat),
                    );
                    (
                        ledger.job_failed(job.id, e.text(), Some(next)),
                        SettledModel { event: None, terminal: false, delete: None },
                    )
                } else {
                    (
                        ledger.job_failed(job.id, e.text(), None).status_set(
                            job.imported_id,
                            "failed"@,
                        ),
                        SettledModel {
                            event: Some(
                                CloudEvent::CloudFailed { file: job.remote_path, error: e.text() },
                            ),
                            terminal: true,
                            delete: None,
                        },
                    )
                }
            },
        }
    }
}

/// What the worker does with a job, given the answer to the question whether the
/// file is there.
pub open spec fn preflight_of(
    job: CloudJob<Seq<char>>,
    present: std::result::Result<bool, CoreError<Seq<char>>>,
) -> Preflight<Seq<char>> {
    match present {
        Ok(true) => Preflight::Settle(JobResult::Present),
        Ok(false) => Preflight::Begin {
            event: CloudEvent::Uploading {
                file: job.remote_path,
                uploaded: job.uploaded_bytes,
                total: job.total_bytes,
            },
            resume: job.cursor(job.uploaded_bytes),
        },
        Err(e) => Preflight::Settle(JobResult::Failed(e)),
    }
}

/// The cursor of a job that notes `uploaded` bytes.
pub fn job_cursor(job: &CloudJob, uploaded: u64) -> (r: ResumeState)
    ensures
        r@ == job@.cursor(uploaded),
{
    ResumeState {
        upload_id: Some(derive_upload_id(job.id, job.remote_path.as_str(), job.total_bytes)),
        uploaded_bytes: uploaded,
    }
}

/// Decides what to do with a job, given the answer to the question whether the
/// file is there.
pub fn preflight(job: &CloudJob, present: Result<bool>) -> (r: Preflight)
    ensures
        r@ == preflight_of(
            job@,
            match present {
                Ok(b) => Ok(b),
                Err(e) => Err(e@),
            },
        ),
{
    match present {
        Ok(true) => Preflight::Settle(JobResult::Present),
        Ok(false) => Preflight::Begin {
            event: CloudEvent::Uploading {
                file: job.remote_path.clone(),
                uploaded: job.uploaded_bytes,
                total: job.total_bytes,
            },
            resume: job_cursor(job, job.uploaded_bytes),
        },
        Err(e) => Preflight::Settle(JobResult::Failed(e)),
    }
}

/// Notes in the ledger how far the upload of a job has come.
pub fn note_progress(ledger: &mut Ledger, job: &CloudJob, uploaded: u64)
    ensures
        final(ledger)@ == old(ledger)@.job_progressed(job@.id, uploaded, job@.cursor(uploaded)),
{
    ledger.save_job_progress(job.id, uploaded, &job_cursor(job, uploaded));
}

/// The event that says how the deletion of the file on the card went. A file that
/// cannot be deleted does not undo the upload.
pub fn deletion_event(src: String, failure: Option<&str>) -> (r: CloudEvent)
    ensures
        r@ == (match failure {
            None => CloudEvent::Deleted { file: src@ },
            Some(e) => CloudEvent::DeleteFailed {
                file: src@,
                error: "post-upload delete failed: "@ + e@,
            },
        }),
{
    match failure {
        None => CloudEvent::Deleted { file: src },
        Some(e) => {
            let mut error = "post-upload delete failed: ".to_owned();
            error.append(e);
            CloudEvent::DeleteFailed { file: src, error }
        },
    }
}

// ---- one pass ---------------------------------------------------------------

/// A pass of the worker over the jobs that it has claimed.
#[derive(Debug)]
pub struct Pass {
    /// The time at which the pass began.
    pub now_unix: i64,
    /// The jobs that are still out.
    pub left: usize,
    /// The jobs that will not be tried again.
    pub terminal: usize,
}

impl CloudWorker<String> {
    /// A worker for the ledger at `ledger_path`.
    pub fn new(
        ledger_path: String,
        destination_id: String,
        max_concurrency: usize,
        max_attempts: u32,
        delete_after_verify: bool,
    ) -> (r: Self)
        ensures
            r@ == (CloudWorker {
                ledger_path: ledger_path@,
                destination_id: destination_id@,
                max_concurrency,
                max_attempts,
                delete_after_verify,
            }),
    {
        CloudWorker {
            ledger_path,
            destination_id,
            max_concurrency,
            max_attempts,
            delete_after_verify,
        }
    }

    /// Begins a pass: claims as many due jobs as are uploaded at a time.
    pub fn begin_pass(&self, ledger: &mut Ledger, now_unix: i64) -> (r: (Pass, Vec<CloudJob>))
        ensures
            job_views(r.1@) == claims(old(ledger)@.jobs, now_unix, self@.max_concurrency as nat),
            final(ledger)@ == (LedgerModel {
                jobs: after_claims(old(ledger)@.jobs, now_unix, self@.max_concurrency as nat),
                ..old(ledger)@
            }),
            r.0 == (Pass { now_unix, left: r.1@.len() as usize, terminal: 0 }),
            r.0.left == r.1@.len(),
    {
        let jobs = ledger.claim_due_cloud_jobs(now_unix, self.max_concurrency);
        let left: usize = jobs.len();
        (Pass { now_unix, left, terminal: 0 }, jobs)
    }

    /// Settles a job of the pass `elapsed_secs` after the pass began. A retry is
    /// scheduled from the time of the failure, so it never lies in the past.
    pub fn settle(
        &self,
        pass: &mut Pass,
        ledger: &mut Ledger,
        job: &CloudJob,
        result: &JobResult,
        elapsed_secs: i64,
        jitter_ms: u64,
    ) -> (r: Settled)
        requires
            old(pass).left > 0,
            old(pass).terminal + old(pass).left <= usize::MAX,
        ensures
            (final(ledger)@, r@) == self@.settled(
                old(ledger)@,
                job@,
                result@,
                clamped_sum(old(pass).now_unix as int, elapsed_secs as int),
                jitter_ms,
            ),
            *final(pass) == (Pass {
                now_unix: old(pass).now_unix,
                left: (old(pass).left - 1) as usize,
                terminal: (old(pass).terminal + if r.terminal {
                    1int
                } else {
                    0int
                }) as usize,
            }),
            final(pass).terminal + final(pass).left <= usize::MAX,
    {
        pass.left = pass.left - 1;
        match result {
            JobResult::Present => {
                ledger.mark_job_done(job.id);
                ledger.set_cloud_status(job.imported_id, "done");
                pass.terminal = pass.terminal + 1;
                Settled {
                    event: Some(CloudEvent::Mirrored { file: job.remote_path.clone() }),
                    terminal: true,
                    delete: None,
                }
            },
            JobResult::Uploaded(_) => {
                note_progress(ledger, job, job.total_bytes);
                ledger.mark_job_done(job.id);
                ledger.set_cloud_status(job.imported_id, "done");
                pass.terminal = pass.terminal + 1;
                Settled {
                    event: Some(CloudEvent::Mirrored { file: job.remote_path.clone() }),
                    terminal: true,
                    delete: if self.delete_after_verify {
                        clone_opt(&job.card_src)
                    } else {
                        None
                    },
                }
            },
            JobResult::Failed(e) => {
                let attempt: u32 = job.attempts.saturating_add(1);
                let text = e.to_string();
                if is_retryable(e) && attempt < self.max_attempts {
                    let now: i64 = add_clamped(pass.now_unix, elapsed_secs);
                    let delay: i64 = backoff_delay_secs(attempt, jitter_ms);
                    let next: i64 = add_clamped(now, delay);
                    ledger.mark_job_failed(job.id, text.as_str(), Some(next));
                    Settled { event: None, terminal: false, delete: None }
                } else {
                    ledger.mark_job_failed(job.id, text.as_str(), None);
                    ledger.set_cloud_status(job.imported_id, "failed");
                    pass.terminal = pass.terminal + 1;
                    Settled {
                        event: Some(
                            CloudEvent::CloudFailed { file: job.remote_path.clone(), error: text },
                        ),
                        terminal: true,
                        delete: None,
                    }
                }
            },
        }
    }
}

// ---- the drain --------------------------------------------------------------

/// True of a job that waits for a retry after `now`.
pub open spec fn waits_after(job: CloudJob<Seq<char>>, now: i64) -> bool {
    job.state == JobState::Failed && job.next_retry_at is Some && job.next_retry_at->0 > now
}

/// True if `secs` is how long the first retry after `now` is away.
pub open spec fn next_retry_in(jobs: Seq<CloudJob<Seq<char>>>, now: i64, secs: int) -> bool {
    &&& exists|i: int|
        0 <= i < jobs.len() && #[trigger] waits_after(jobs[i], now) && jobs[i].next_retry_at->0
            - now == secs
    &&& forall|i: int|
        0 <= i < jobs.len() && #[trigger] waits_after(jobs[i], now) ==> secs
            <= jobs[i].next_retry_at->0 - now
}

/// How many seconds the first retry after `now` is away; `None` without one.
pub fn secs_until_next_retry(ledger: &Ledger, now: i64) -> (r: Option<u64>)
    ensures
        match r {
            Some(secs) => next_retry_in(ledger@.jobs, now, secs as int),
            None => forall|i: int|
                0 <= i < ledger@.jobs.len() ==> !#[trigger] waits_after(ledger@.jobs[i], now),
        },
{
    let jobs = ledger.jobs();
    let mut soonest: Option<i64> = None;
    let ghost mut at: int = 0;
    let mut i: usize = 0;
    while i < jobs.len()
        invariant
            i <= jobs@.len(),
            job_views(jobs@) == ledger@.jobs,
            match soonest {
                Some(t) => {
                    &&& 0 <= at < i
                    &&& waits_after(ledger@.jobs[at], now)
                    &&& ledger@.jobs[at].next_retry_at == Some(t)
                    &&& forall|k: int|
                        0 <= k < i && #[trigger] waits_after(ledger@.jobs[k], now) ==> t
                            <= ledger@.jobs[k].next_retry_at->0
                },
                None => forall|k: int|
                    0 <= k < i ==> !#[trigger] waits_after(ledger@.jobs[k], now),
            },
        decreases jobs.len() - i,
    {
        assert(ledger@.jobs[i as int] == jobs@[i as int]@);
        let job = &jobs[i];
        if job.state == JobState::Failed {
            if let Some(t) = job.next_retry_at {
                let sooner = match soonest {
                    Some(s) => t < s,
                    None => true,
                };
                if t > now && sooner {
                    soonest = Some(t);
                    proof {
                        at = i as int;
                    }
                }
            }
        }
        i += 1;
    }
    assert(job_views(jobs@).len() == jobs@.len());
    match soonest {
        Some(t) => {
            assert(waits_after(ledger@.jobs[at], now));
            Some((t as i128 - now as i128) as u64)
        },
        None => None,
    }
}

/// What the worker does after a look at the queue.
#[derive(Debug, Clone, Copy, PartialEq, Eq, Structural)]
pub enum DrainStep {
    /// Nothing is pending: the worker is done.
    Stop,
    /// Make a pass.
    Pass,
    /// Wait so many seconds, then look at the queue again.
    Wait(u64),
    /// Wait so many seconds, then stop.
    WaitAndStop(u64),
}

/// The start of a drain: jobs that a worker left behind in the middle of an upload
/// go back into the queue. Returns how many there were.
pub fn begin_drain(ledger: &mut Ledger) -> (r: usize)
    ensures
        final(ledger)@ == old(ledger)@.uploading_reclaimed(),
        r == crate::ledger::uploading_count(old(ledger)@.jobs),
{
    ledger.reclaim_orphaned_uploading()
}

/// A look at the queue: a pass is made while jobs are pending.
pub fn before_pass(ledger: &Ledger) -> (r: DrainStep)
    ensures
        r == (if pending_count(ledger@.jobs) == 0 {
            DrainStep::Stop
        } else {
            DrainStep::Pass
        }),
{
    if ledger.pending_cloud_count() == 0 {
        DrainStep::Stop
    } else {
        DrainStep::Pass
    }
}

/// What follows a pass that settled `terminal` jobs for good. After a pass that
/// settled none, the worker waits for the next retry after `now`; without one it
/// waits a little and stops, so that it never spins.
pub fn after_pass(ledger: &Ledger, terminal: usize, now: i64) -> (r: DrainStep)
    ensures
        terminal > 0 ==> r == DrainStep::Wait(0),
        terminal == 0 ==> match r {
            DrainStep::Wait(secs) => next_retry_in(ledger@.jobs, now, secs as int),
            DrainStep::WaitAndStop(secs) => secs == IDLE_BACKSTOP_SECS && forall|i: int|
                0 <= i < ledger@.jobs.len() ==> !#[trigger] waits_after(ledger@.jobs[i], now),
            _ => false,
        },
{
    if terminal > 0 {
        DrainStep::Wait(0)
    } else {
        match secs_until_next_retry(ledger, now) {
            Some(secs) => DrainStep::Wait(secs),
            None => DrainStep::WaitAndStop(IDLE_BACKSTOP_SECS),
        }
    }
}

// ---- laws -------------------------------------------------------------------

/// The file on the card is deleted only after the upload of this very job, and
/// only where that was asked for.
pub proof fn deletes_only_after_upload(
    w: CloudWorker<Seq<char>>,
    ledger: LedgerModel,
    job: CloudJob<Seq<char>>,
    result: JobResult<Seq<char>>,
    now: i64,
    jitter_ms: u64,
)
    ensures
        ({
            let (_, s) = w.settled(ledger, job, result, now, jitter_ms);
            s.delete is Some ==> w.delete_after_verify && result is Uploaded && s.delete
                == job.card_src
        }),
{
}

/// A settled job is done, parked for a retry, or given up; it is never left with
/// the worker. It is pending if and only if it was not settled for good.
pub proof fn settled_jobs_are_not_claimed(
    w: CloudWorker<Seq<char>>,
    ledger: LedgerModel,
    job: CloudJob<Seq<char>>,
    result: JobResult<Seq<char>>,
    now: i64,
    jitter_ms: u64,
    i: int,
)
    requires
        0 <= i < ledger.jobs.len(),
        ledger.jobs[i].id == job.id,
    ensures
        ({
            let (after, s) = w.settled(ledger, job, result, now, jitter_ms);
            &&& after.jobs.len() == ledger.jobs.len()
            &&& after.jobs[i].state != JobState::Uploading
            &&& after.jobs[i].pending() <==> !s.terminal
            &&& after.jobs[i].state == JobState::Done <==> !(result is Failed)
        }),
{
}

/// Settling a job leaves every other job as it was.
pub proof fn settling_touches_one_job(
    w: CloudWorker<Seq<char>>,
    ledger: LedgerModel,
    job: CloudJob<Seq<char>>,
    result: JobResult<Seq<char>>,
    now: i64,
    jitter_ms: u64,
    i: int,
)
    requires
        0 <= i < ledger.jobs.len(),
        ledger.jobs[i].id != job.id,
    ensures
        w.settled(ledger, job, result, now, jitter_ms).0.jobs[i] == ledger.jobs[i],
{
}

/// A retry lies in the future, by at least a second and at most 64.
pub proof fn retries_lie_ahead(
    w: CloudWorker<Seq<char>>,
    ledger: LedgerModel,
    job: CloudJob<Seq<char>>,
    e: CoreError<Seq<char>>,
    now: i64,
    jitter_ms: u64,
    i: int,
)
    requires
        0 <= i < ledger.jobs.len(),
        ledger.jobs[i].id == job.id,
        w.tries_again(job, e),
        now <= i64::MAX - 64,
    ensures
        ({
            let after = w.settled(ledger, job, JobResult::Failed(e), now, jitter_ms).0;
            &&& after.jobs[i].next_retry_at is Some
            &&& now + 1 <= after.jobs[i].next_retry_at->0 <= now + 64
        }),
{
    crate::backoff::delay_is_bounded(job.attempt() as nat, jitter_ms as nat);
}

/// A job is not tried more often than the worker allows: each failure counts one
/// attempt, and a job that has used them up is given up, whatever the failure.
pub proof fn attempts_are_bounded(
    w: CloudWorker<Seq<char>>,
    ledger: LedgerModel,
    job: CloudJob<Seq<char>>,
    e: CoreError<Seq<char>>,
    now: i64,
    jitter_ms: u64,
    i: int,
)
    requires
        0 <= i < ledger.jobs.len(),
        ledger.jobs[i].id == job.id,
        ledger.jobs[i].attempts == job.attempts,
    ensures
        ({
            let after = w.settled(ledger, job, JobResult::Failed(e), now, jitter_ms).0;
            &&& after.jobs[i].attempts == job.attempt()
            &&& after.jobs[i].next_retry_at is Some ==> after.jobs[i].attempts < w.max_attempts
            &&& job.attempt() >= w.max_attempts ==> after.jobs[i].given_up()
        }),
{
}

/// How one job of a pass came out, when, and with which jitter.
pub struct PassOutcome {
    pub job: CloudJob<Seq<char>>,
    pub result: JobResult<Seq<char>>,
    pub now: i64,
    pub jitter_ms: u64,
}

impl CloudWorker<Seq<char>> {
    /// The ledger once the jobs are settled, one after the other.
    pub open spec fn all_settled(
        self,
        ledger: LedgerModel,
        outcomes: Seq<PassOutcome>,
    ) -> LedgerModel
        decreases outcomes.len(),
    {
        if outcomes.len() == 0 {
            ledger
        } else {
            let o = outcomes.last();
            self.settled(
                self.all_settled(ledger, outcomes.drop_last()),
                o.job,
                o.result,
                o.now,
                o.jitter_ms,
            ).0
        }
    }
}

proof fn lemma_settled_length(
    w: CloudWorker<Seq<char>>,
    ledger: LedgerModel,
    outcomes: Seq<PassOutcome>,
)
    ensures
        w.all_settled(ledger, outcomes).jobs.len() == ledger.jobs.len(),
    decreases outcomes.len(),
{
    if outcomes.len() > 0 {
        lemma_settled_length(w, ledger, outcomes.drop_last());
    }
}

proof fn lemma_all_settled(
    w: CloudWorker<Seq<char>>,
    ledger: LedgerModel,
    outcomes: Seq<PassOutcome>,
    i: int,
)
    requires
        0 <= i < ledger.jobs.len(),
    ensures
        ({
            let after = w.all_settled(ledger, outcomes);
            &&& after.jobs[i].id == ledger.jobs[i].id
            &&& after.jobs[i].state == JobState::Uploading ==> ledger.jobs[i].state
                == JobState::Uploading && forall|k: int|
                0 <= k < outcomes.len() ==> (#[trigger] outcomes[k]).job.id != ledger.jobs[i].id
        }),
    decreases outcomes.len(),
{
    if outcomes.len() > 0 {
        let head = outcomes.drop_last();
        lemma_all_settled(w, ledger, head, i);
        lemma_settled_length(w, ledger, head);
        let after = w.all_settled(ledger, outcomes);
        if after.jobs[i].state == JobState::Uploading {
            assert forall|k: int| 0 <= k < outcomes.len() implies (#[trigger] outcomes[k]).job.id
                != ledger.jobs[i].id by {
                if k < head.len() {
                    assert(head[k] == outcomes[k]);
                }
            }
        }
    }
}

/// A pass that settles every job it claimed, in whatever order and however they
/// came out, leaves no job with a worker if none was before.
pub proof fn a_pass_leaves_no_job_claimed(
    w: CloudWorker<Seq<char>>,
    ledger: LedgerModel,
    now: i64,
    outcomes: Seq<PassOutcome>,
)
    requires
        forall|i: int|
            0 <= i < ledger.jobs.len() ==> (#[trigger] ledger.jobs[i]).state
                != JobState::Uploading,
        forall|j: CloudJob<Seq<char>>| #[trigger]
            claims(ledger.jobs, now, w.max_concurrency as nat).contains(j) ==> exists|k: int|
                0 <= k < outcomes.len() && (#[trigger] outcomes[k]).job.id == j.id,
    ensures
        ({
            let claimed = LedgerModel {
                jobs: after_claims(ledger.jobs, now, w.max_concurrency as nat),
                ..ledger
            };
            let after = w.all_settled(claimed, outcomes);
            &&& after.jobs.len() == ledger.jobs.len()
            &&& forall|i: int|
                0 <= i < after.jobs.len() ==> (#[trigger] after.jobs[i]).state
                    != JobState::Uploading
        }),
{
    let limit = w.max_concurrency as nat;
    let claimed = LedgerModel { jobs: after_claims(ledger.jobs, now, limit), ..ledger };
    let after = w.all_settled(claimed, outcomes);
    crate::ledger_laws::claim_takes_due_jobs_only(ledger, now, limit);
    lemma_settled_length(w, claimed, outcomes);
    assert forall|i: int| 0 <= i < after.jobs.len() implies (#[trigger] after.jobs[i]).state
        != JobState::Uploading by {
        lemma_all_settled(w, claimed, outcomes, i);
        let job = after_claims(ledger.jobs, now, limit)[i];
        if job != ledger.jobs[i] {
            assert(claims(ledger.jobs, now, limit).contains(ledger.jobs[i].claimed()));
        }
    }
}

/// While no job is with a worker, a pending job can be claimed or waits for a
/// retry after `now`: the worker never waits and stops with jobs pending.
pub proof fn a_drain_never_idles(jobs: Seq<CloudJob<Seq<char>>>, now: i64)
    requires
        forall|i: int| 0 <= i < jobs.len() ==> (#[trigger] jobs[i]).state != JobState::Uploading,
        pending_count(jobs) > 0,
    ensures
        exists|i: int| 0 <= i < jobs.len() && ((#[trigger] jobs[i]).due(now) || waits_after(
            jobs[i],
            now,
        )),
    decreases jobs.len(),
{
    let last = jobs.last();
    assert(jobs[jobs.len() - 1] == last);
    if last.pending() {
        assert(last.due(now) || waits_after(last, now));
    } else {
        let head = jobs.drop_last();
        assert forall|i: int| 0 <= i < head.len() implies (#[trigger] head[i]).state
            != JobState::Uploading by {
            assert(head[i] == jobs[i]);
        }
        a_drain_never_idles(head, now);
        let i = choose|i: int|
            0 <= i < head.len() && ((#[trigger] head[i]).due(now) || waits_after(head[i], now));
        assert(jobs[i] == head[i]);
    }
}

/// Whatever becomes of a job, its upload directory keeps its id: every attempt gets
/// the same one, however far the last one came and however it ended.
pub proof fn every_attempt_has_the_same_id(
    job: CloudJob<Seq<char>>,
    uploaded: u64,
    error: Seq<char>,
    next: Option<i64>,
    a: u64,
    b: u64,
)
    ensures
        job.cursor(a).upload_id is Some,
        job.cursor(a).upload_id == job.cursor(b).upload_id,
        job.claimed().cursor(a).upload_id == job.cursor(b).upload_id,
        job.progressed(uploaded, job.cursor(uploaded)).cursor(a).upload_id == job.cursor(
            b,
        ).upload_id,
        job.after_failure(error, next).cursor(a).upload_id == job.cursor(b).upload_id,
        job.requeued().cursor(a).upload_id == job.cursor(b).upload_id,
{
}

/// The upload of a job resumes across restarts: whatever the server answered to an
/// earlier attempt, the next attempt at the same job asks first for the parts in the
/// directory that the earlier one used. It creates that very directory if it is gone,
/// and otherwise sends only parts that are not there in full.
pub proof fn a_job_resumes_its_upload(
    up: NextcloudUploader<Seq<char>>,
    rel: Seq<char>,
    job: CloudJob<Seq<char>>,
    later: CloudJob<Seq<char>>,
    fresh_id: Seq<char>,
    later_fresh_id: Seq<char>,
    replies: Seq<Reply<Seq<char>>>,
    listing: Reply<Seq<char>>,
)
    requires
        later.id == job.id,
        later.remote_path == job.remote_path,
        later.total_bytes == job.total_bytes,
        listing.status == 207 || listing.status == 404,
    ensures
        preflight_of(job, Ok(false)) is Begin,
        preflight_of(later, Ok(false)) is Begin,
        ({
            let total = job.total_bytes;
            let earlier = ChunkedModel::started(
                up,
                rel,
                total,
                preflight_of(job, Ok(false))->resume.upload_id,
                fresh_id,
            ).0.after(replies);
            let (m, asks) = ChunkedModel::started(
                up,
                rel,
                total,
                preflight_of(later, Ok(false))->resume.upload_id,
                later_fresh_id,
            );
            let (next, reports, action) = m.step(listing);
            &&& asks == ChunkAction::List { dir: earlier.dir }
            &&& next.dir == earlier.dir
            &&& action matches ChunkAction::MakeDir { dir, .. } ==> dir == earlier.dir
            &&& action matches ChunkAction::Send { url, .. } ==> {
                &&& !next.stored(next.next as int)
                &&& url == earlier.part_url(next.next as int)
                &&& next.present == listed_chunks(listing.body)
            }
            &&& action is MakeDir || action is Send || action is Assemble
        }),
{
    let total = job.total_bytes;
    let id = upload_id_of(job.id, job.remote_path, total);
    an_interrupted_upload_resumes(
        up,
        rel,
        total,
        id,
        fresh_id,
        later_fresh_id,
        replies,
        listing,
    );
    let m = ChunkedModel::started(up, rel, total, Some(id), later_fresh_id).0;
    chunks_cover_the_file(total);
    stored_parts_are_not_sent(m, listing);
}

} // verus!
