//! The ledger: which files were imported, and the queue of cloud uploads.

use crate::cloud::{resume_view, ResumeState};
use crate::config::clone_opt;
use crate::text::{opt_str_view, opt_view, same_text};
use vstd::prelude::*;

verus! {

/// Where an upload job stands.
#[derive(Debug, Clone, Copy, PartialEq, Eq, Structural)]
pub enum JobState {
    /// Waiting for a worker.
    Queued,
    /// Claimed by a worker.
    Uploading,
    /// The remote copy is there.
    Done,
    /// The last attempt failed. With a retry time it is tried again; without
    /// one the worker has given up.
    Failed,
}

impl JobState {
    /// The name under which the state is stored and shown.
    pub open spec fn name(self) -> Seq<char> {
        match self {
            JobState::Queued => "queued"@,
            JobState::Uploading => "uploading"@,
            JobState::Done => "done"@,
            JobState::Failed => "failed"@,
        }
    }

    /// The name under which the state is stored and shown.
    pub fn as_str(self) -> (r: &'static str)
        ensures
            r@ == self.name(),
    {
        match self {
            JobState::Queued => "queued",
            JobState::Uploading => "uploading",
            JobState::Done => "done",
            JobState::Failed => "failed",
        }
    }
}

/// One upload in the queue.
#[derive(Debug, PartialEq, Eq)]
pub struct CloudJob<S = String> {
    pub id: i64,
    pub imported_id: i64,
    pub destination_id: S,
    pub local_path: S,
    pub remote_path: S,
    pub total_bytes: u64,
    pub uploaded_bytes: u64,
    pub state: JobState,
    pub attempts: u32,
    pub next_retry_at: Option<i64>,
    pub last_error: Option<S>,
    /// The file on the card that the upload came from.
    pub card_src: Option<S>,
    pub resume_state: Option<ResumeState<S>>,
}

impl View for CloudJob<String> {
    type V = CloudJob<Seq<char>>;

    open spec fn view(&self) -> CloudJob<Seq<char>> {
        CloudJob {
            id: self.id,
            imported_id: self.imported_id,
            destination_id: self.destination_id@,
            local_path: self.local_path@,
            remote_path: self.remote_path@,
            total_bytes: self.total_bytes,
            uploaded_bytes: self.uploaded_bytes,
            state: self.state,
            attempts: self.attempts,
            next_retry_at: self.next_retry_at,
            last_error: opt_view(self.last_error),
            card_src: opt_view(self.card_src),
            resume_state: resume_view(self.resume_state),
        }
    }
}

impl Clone for CloudJob<String> {
    fn clone(&self) -> (r: Self)
        ensures
            r@ == self@,
    {
        CloudJob {
            id: self.id,
            imported_id: self.imported_id,
            destination_id: self.destination_id.clone(),
            local_path: self.local_path.clone(),
            remote_path: self.remote_path.clone(),
            total_bytes: self.total_bytes,
            uploaded_bytes: self.uploaded_bytes,
            state: self.state,
            attempts: self.attempts,
            next_retry_at: self.next_retry_at,
            last_error: clone_opt(&self.last_error),
            card_src: clone_opt(&self.card_src),
            resume_state: match &self.resume_state {
                Some(r) => Some(r.clone()),
                None => None,
            },
        }
    }
}

/// One imported file.
#[derive(Debug, PartialEq, Eq)]
pub struct ImportRow<S = String> {
    pub id: i64,
    pub camera_serial: S,
    pub name: S,
    pub size: u64,
    pub mtime_unix: i64,
    pub dest_path: S,
    pub hash: Option<S>,
    pub copied_at: S,
    pub cloud_status: Option<S>,
}

impl View for ImportRow<String> {
    type V = ImportRow<Seq<char>>;

    open spec fn view(&self) -> ImportRow<Seq<char>> {
        ImportRow {
            id: self.id,
            camera_serial: self.camera_serial@,
            name: self.name@,
            size: self.size,
            mtime_unix: self.mtime_unix,
            dest_path: self.dest_path@,
            hash: opt_view(self.hash),
            copied_at: self.copied_at@,
            cloud_status: opt_view(self.cloud_status),
        }
    }
}

impl Clone for ImportRow<String> {
    fn clone(&self) -> (r: Self)
        ensures
            r@ == self@,
    {
        ImportRow {
            id: self.id,
            camera_serial: self.camera_serial.clone(),
            name: self.name.clone(),
            size: self.size,
            mtime_unix: self.mtime_unix,
            dest_path: self.dest_path.clone(),
            hash: clone_opt(&self.hash),
            copied_at: self.copied_at.clone(),
            cloud_status: clone_opt(&self.cloud_status),
        }
    }
}

/// What tells one source file from another.
pub struct FileKey {
    pub serial: Seq<char>,
    pub name: Seq<char>,
    pub size: u64,
    pub mtime_unix: i64,
}

impl ImportRow<Seq<char>> {
    /// The source file of the row.
    pub open spec fn key(self) -> FileKey {
        FileKey {
            serial: self.camera_serial,
            name: self.name,
            size: self.size,
            mtime_unix: self.mtime_unix,
        }
    }
}

impl CloudJob<Seq<char>> {
    /// True of a job that is still to be uploaded: queued, claimed, or parked for
    /// a retry.
    pub open spec fn pending(self) -> bool {
        match self.state {
            JobState::Queued | JobState::Uploading => true,
            JobState::Failed => self.next_retry_at is Some,
            JobState::Done => false,
        }
    }

    /// True of a job that the worker has given up on.
    pub open spec fn given_up(self) -> bool {
        self.state == JobState::Failed && self.next_retry_at is None
    }

    /// True of a job that can be claimed at `now`: queued, or parked for a retry
    /// that is due.
    pub open spec fn due(self, now: i64) -> bool {
        match self.state {
            JobState::Queued => true,
            JobState::Failed => self.next_retry_at is Some && self.next_retry_at->0 <= now,
            _ => false,
        }
    }

    /// The job once a worker has claimed it.
    pub open spec fn claimed(self) -> CloudJob<Seq<char>> {
        CloudJob { state: JobState::Uploading, next_retry_at: None, ..self }
    }

    /// The job once its remote copy is there.
    pub open spec fn finished(self) -> CloudJob<Seq<char>> {
        CloudJob { state: JobState::Done, next_retry_at: None, last_error: None, ..self }
    }

    /// The job after a failed attempt, to be tried again at `next` if that is
    /// given.
    pub open spec fn after_failure(self, error: Seq<char>, next: Option<i64>) -> CloudJob<
        Seq<char>,
    > {
        CloudJob {
            state: JobState::Failed,
            attempts: if self.attempts < u32::MAX {
                (self.attempts + 1) as u32
            } else {
                u32::MAX
            },
            last_error: Some(error),
            next_retry_at: next,
            ..self
        }
    }

    /// The job put back into the queue with a clean record.
    pub open spec fn requeued(self) -> CloudJob<Seq<char>> {
        CloudJob {
            state: JobState::Queued,
            attempts: 0,
            next_retry_at: None,
            last_error: None,
            ..self
        }
    }

    /// The job with its upload at `uploaded` bytes.
    pub open spec fn progressed(self, uploaded: u64, resume: ResumeState<Seq<char>>) -> CloudJob<
        Seq<char>,
    > {
        CloudJob { uploaded_bytes: uploaded, resume_state: Some(resume), ..self }
    }
}

/// The content of a ledger.
#[verifier::ext_equal]
pub struct LedgerModel {
    /// The imported files, oldest first.
    pub imports: Seq<ImportRow<Seq<char>>>,
    /// The queue, oldest job first.
    pub jobs: Seq<CloudJob<Seq<char>>>,
    /// The time with which new rows are stamped.
    pub clock: Seq<char>,
}

/// The views of a list of imported files.
pub open spec fn import_views(v: Seq<ImportRow>) -> Seq<ImportRow<Seq<char>>> {
    Seq::new(v.len(), |i: int| v[i]@)
}

/// The views of a list of jobs.
pub open spec fn job_views(v: Seq<CloudJob>) -> Seq<CloudJob<Seq<char>>> {
    Seq::new(v.len(), |i: int| v[i]@)
}

/// The largest id of a row, 0 without one.
pub open spec fn max_import_id(imports: Seq<ImportRow<Seq<char>>>) -> int
    decreases imports.len(),
{
    if imports.len() == 0 {
        0
    } else {
        let m = max_import_id(imports.drop_last());
        if imports.last().id > m {
            imports.last().id as int
        } else {
            m
        }
    }
}

/// The largest id of a job, 0 without one.
pub open spec fn max_job_id(jobs: Seq<CloudJob<Seq<char>>>) -> int
    decreases jobs.len(),
{
    if jobs.len() == 0 {
        0
    } else {
        let m = max_job_id(jobs.drop_last());
        if jobs.last().id > m {
            jobs.last().id as int
        } else {
            m
        }
    }
}

/// The rows that are not of the source file `key`.
pub open spec fn rows_but(imports: Seq<ImportRow<Seq<char>>>, key: FileKey) -> Seq<
    ImportRow<Seq<char>>,
>
    decreases imports.len(),
{
    if imports.len() == 0 {
        seq![]
    } else {
        let rest = rows_but(imports.drop_last(), key);
        if imports.last().key() == key {
            rest
        } else {
            rest.push(imports.last())
        }
    }
}

/// The jobs in the state `state`, or all of them for none.
pub open spec fn jobs_in(jobs: Seq<CloudJob<Seq<char>>>, state: Option<JobState>) -> Seq<
    CloudJob<Seq<char>>,
>
    decreases jobs.len(),
{
    if jobs.len() == 0 {
        seq![]
    } else {
        let rest = jobs_in(jobs.drop_last(), state);
        if state is None || state->0 == jobs.last().state {
            rest.push(jobs.last())
        } else {
            rest
        }
    }
}

/// The number of jobs that are still to be uploaded.
pub open spec fn pending_count(jobs: Seq<CloudJob<Seq<char>>>) -> nat
    decreases jobs.len(),
{
    if jobs.len() == 0 {
        0
    } else {
        pending_count(jobs.drop_last()) + if jobs.last().pending() { 1nat } else { 0nat }
    }
}

/// The number of jobs that the worker has given up on.
pub open spec fn given_up_count(jobs: Seq<CloudJob<Seq<char>>>) -> nat
    decreases jobs.len(),
{
    if jobs.len() == 0 {
        0
    } else {
        given_up_count(jobs.drop_last()) + if jobs.last().given_up() { 1nat } else { 0nat }
    }
}

/// The number of jobs that a worker has claimed.
pub open spec fn uploading_count(jobs: Seq<CloudJob<Seq<char>>>) -> nat
    decreases jobs.len(),
{
    if jobs.len() == 0 {
        0
    } else {
        uploading_count(jobs.drop_last()) + if jobs.last().state == JobState::Uploading {
            1nat
        } else {
            0nat
        }
    }
}

/// The first `limit` jobs that are due at `now`, as they are once claimed.
pub open spec fn claims(jobs: Seq<CloudJob<Seq<char>>>, now: i64, limit: nat) -> Seq<
    CloudJob<Seq<char>>,
>
    decreases jobs.len(),
{
    if jobs.len() == 0 {
        seq![]
    } else {
        let rest = claims(jobs.drop_last(), now, limit);
        if rest.len() < limit && jobs.last().due(now) {
            rest.push(jobs.last().claimed())
        } else {
            rest
        }
    }
}

/// The queue once the first `limit` jobs that are due at `now` are claimed.
pub open spec fn after_claims(jobs: Seq<CloudJob<Seq<char>>>, now: i64, limit: nat) -> Seq<
    CloudJob<Seq<char>>,
>
    decreases jobs.len(),
{
    if jobs.len() == 0 {
        seq![]
    } else {
        let head = jobs.drop_last();
        let last = if claims(head, now, limit).len() < limit && jobs.last().due(now) {
            jobs.last().claimed()
        } else {
            jobs.last()
        };
        after_claims(head, now, limit).push(last)
    }
}

impl LedgerModel {
    /// True if the source file is in the ledger.
    pub open spec fn has(self, key: FileKey) -> bool {
        exists|i: int| 0 <= i < self.imports.len() && (#[trigger] self.imports[i]).key() == key
    }

    /// The ids of rows and of jobs are positive and rise, and no source file has
    /// two rows.
    pub open spec fn well_formed(self) -> bool {
        &&& forall|i: int| 0 <= i < self.imports.len() ==> 0 < (#[trigger] self.imports[i]).id
        &&& forall|i: int, j: int|
            0 <= i < j < self.imports.len() ==> (#[trigger] self.imports[i]).id < (
            #[trigger] self.imports[j]).id && self.imports[i].key() != self.imports[j].key()
        &&& forall|i: int| 0 <= i < self.jobs.len() ==> 0 < (#[trigger] self.jobs[i]).id
        &&& forall|i: int, j: int|
            0 <= i < j < self.jobs.len() ==> (#[trigger] self.jobs[i]).id < (
            #[trigger] self.jobs[j]).id
    }

    /// The ledger with a row for the source file `key`, in place of an earlier one.
    pub open spec fn recorded(
        self,
        key: FileKey,
        dest_path: Seq<char>,
        hash: Option<Seq<char>>,
    ) -> LedgerModel {
        LedgerModel {
            imports: rows_but(self.imports, key).push(
                ImportRow {
                    id: (max_import_id(self.imports) + 1) as i64,
                    camera_serial: key.serial,
                    name: key.name,
                    size: key.size,
                    mtime_unix: key.mtime_unix,
                    dest_path,
                    hash,
                    copied_at: self.clock,
                    cloud_status: None,
                },
            ),
            ..self
        }
    }

    /// The ledger with one more queued job.
    pub open spec fn enqueued(
        self,
        imported_id: i64,
        destination_id: Seq<char>,
        local_path: Seq<char>,
        remote_path: Seq<char>,
        size: u64,
        card_src: Option<Seq<char>>,
    ) -> LedgerModel {
        LedgerModel {
            jobs: self.jobs.push(
                CloudJob {
                    id: (max_job_id(self.jobs) + 1) as i64,
                    imported_id,
                    destination_id,
                    local_path,
                    remote_path,
                    total_bytes: size,
                    uploaded_bytes: 0,
                    state: JobState::Queued,
                    attempts: 0,
                    next_retry_at: None,
                    last_error: None,
                    card_src,
                    resume_state: None,
                },
            ),
            ..self
        }
    }

    /// The ledger with the job `id` finished.
    pub open spec fn job_done(self, id: i64) -> LedgerModel {
        LedgerModel {
            jobs: Seq::new(
                self.jobs.len(),
                |i: int|
                    if self.jobs[i].id == id {
                        self.jobs[i].finished()
                    } else {
                        self.jobs[i]
                    },
            ),
            ..self
        }
    }

    /// The ledger with a failed attempt noted on the job `id`.
    pub open spec fn job_failed(self, id: i64, error: Seq<char>, next: Option<i64>) -> LedgerModel {
        LedgerModel {
            jobs: Seq::new(
                self.jobs.len(),
                |i: int|
                    if self.jobs[i].id == id {
                        self.jobs[i].after_failure(error, next)
                    } else {
                        self.jobs[i]
                    },
            ),
            ..self
        }
    }

    /// The ledger with the progress of the job `id` noted.
    pub open spec fn job_progressed(
        self,
        id: i64,
        uploaded: u64,
        resume: ResumeState<Seq<char>>,
    ) -> LedgerModel {
        LedgerModel {
            jobs: Seq::new(
                self.jobs.len(),
                |i: int|
                    if self.jobs[i].id == id {
                        self.jobs[i].progressed(uploaded, resume)
                    } else {
                        self.jobs[i]
                    },
            ),
            ..self
        }
    }

    /// The ledger with every job that was given up on back in the queue.
    pub open spec fn given_up_requeued(self) -> LedgerModel {
        LedgerModel {
            jobs: Seq::new(
                self.jobs.len(),
                |i: int|
                    if self.jobs[i].given_up() {
                        self.jobs[i].requeued()
                    } else {
                        self.jobs[i]
                    },
            ),
            ..self
        }
    }

    /// The ledger with every claimed job back in the queue.
    pub open spec fn uploading_reclaimed(self) -> LedgerModel {
        LedgerModel {
            jobs: Seq::new(
                self.jobs.len(),
                |i: int|
                    if self.jobs[i].state == JobState::Uploading {
                        CloudJob { state: JobState::Queued, ..self.jobs[i] }
                    } else {
                        self.jobs[i]
                    },
            ),
            ..self
        }
    }

    /// The ledger with the cloud status of the row `id` set.
    pub open spec fn status_set(self, id: i64, status: Seq<char>) -> LedgerModel {
        LedgerModel {
            imports: Seq::new(
                self.imports.len(),
                |i: int|
                    if self.imports[i].id == id {
                        ImportRow { cloud_status: Some(status), ..self.imports[i] }
                    } else {
                        self.imports[i]
                    },
            ),
            ..self
        }
    }

    /// The newest `limit` rows, newest first.
    pub open spec fn newest(self, limit: nat) -> Seq<ImportRow<Seq<char>>> {
        let n = self.imports.len();
        Seq::new(
            if n < limit {
                n
            } else {
                limit
            },
            |i: int| self.imports[n - 1 - i],
        )
    }
}

/// The imported files and the upload queue.
#[derive(Debug)]
pub struct Ledger {
    imports: Vec<ImportRow>,
    jobs: Vec<CloudJob>,
    clock: String,
}

impl View for Ledger {
    type V = LedgerModel;

    closed spec fn view(&self) -> LedgerModel {
        LedgerModel {
            imports: import_views(self.imports@),
            jobs: job_views(self.jobs@),
            clock: self.clock@,
        }
    }
}

impl Ledger {
    /// An empty ledger that stamps new rows with `clock`.
    pub fn new(clock: String) -> (r: Ledger)
        ensures
            r@ == (LedgerModel { imports: seq![], jobs: seq![], clock: clock@ }),
    {
        let r = Ledger { imports: Vec::new(), jobs: Vec::new(), clock };
        assert(r@ =~= (LedgerModel { imports: seq![], jobs: seq![], clock: clock@ }));
        r
    }

    /// A ledger with the given rows and jobs, each oldest first.
    pub fn from_rows(imports: Vec<ImportRow>, jobs: Vec<CloudJob>, clock: String) -> (r: Ledger)
        ensures
            r@ == (LedgerModel {
                imports: import_views(imports@),
                jobs: job_views(jobs@),
                clock: clock@,
            }),
    {
        Ledger { imports, jobs, clock }
    }

    /// The imported files, oldest first.
    pub fn imports(&self) -> (r: &Vec<ImportRow>)
        ensures
            import_views(r@) == self@.imports,
    {
        &self.imports
    }

    /// The queue, oldest job first.
    pub fn jobs(&self) -> (r: &Vec<CloudJob>)
        ensures
            job_views(r@) == self@.jobs,
    {
        &self.jobs
    }

    /// True if the source file is in the ledger. It is told by its name, its size
    /// and its time alone; nothing is hashed.
    pub fn is_imported(&self, serial: &str, name: &str, size: u64, mtime_unix: i64) -> (r: bool)
        ensures
            r == self@.has(FileKey { serial: serial@, name: name@, size, mtime_unix }),
    {
        let ghost key = FileKey { serial: serial@, name: name@, size, mtime_unix };
        let mut i: usize = 0;
        while i < self.imports.len()
            invariant
                i <= self.imports@.len(),
                key == (FileKey { serial: serial@, name: name@, size, mtime_unix }),
                forall|j: int| 0 <= j < i ==> (#[trigger] self@.imports[j]).key() != key,
            decreases self.imports.len() - i,
        {
            assert(self@.imports[i as int] == self.imports@[i as int]@);
            if row_is_of(&self.imports[i], serial, name, size, mtime_unix) {
                return true;
            }
            i += 1;
        }
        false
    }

    /// Records that the source file now stands at `dest_path`, in place of what
    /// was recorded of it before, and returns the id of the row.
    pub fn record(
        &mut self,
        serial: &str,
        name: &str,
        size: u64,
        mtime_unix: i64,
        dest_path: &str,
        hash: Option<&str>,
    ) -> (r: i64)
        requires
            max_import_id(old(self)@.imports) < i64::MAX,
        ensures
            r == max_import_id(old(self)@.imports) + 1,
            final(self)@ == old(self)@.recorded(
                FileKey { serial: serial@, name: name@, size, mtime_unix },
                dest_path@,
                opt_str_view(hash),
            ),
    {
        let ghost key = FileKey { serial: serial@, name: name@, size, mtime_unix };
        let ghost rows = self@.imports;
        let ghost jobs = self@.jobs;
        let mut top: i64 = 0;
        let mut i: usize = 0;
        let ghost mut k: int = 0;
        proof {
            assert(rows.take(0) =~= seq![]);
            assert(rows.skip(0) =~= rows);
            assert(rows_but(rows.take(0), key) + rows.skip(0) =~= rows);
        }
        while i < self.imports.len()
            invariant
                0 <= k <= rows.len(),
                i <= self.imports@.len(),
                i == rows_but(rows.take(k), key).len(),
                self@.imports == rows_but(rows.take(k), key) + rows.skip(k),
                self@.jobs == jobs,
                self@.clock == old(self)@.clock,
                top == max_import_id(rows.take(k)),
                key == (FileKey { serial: serial@, name: name@, size, mtime_unix }),
            decreases rows.len() - k,
        {
            proof {
                let kept = rows_but(rows.take(k), key);
                assert(self@.imports[i as int] == self.imports@[i as int]@);
                assert(self@.imports.len() == kept.len() + rows.len() - k);
                assert(self@.imports[i as int] == rows[k]);
                assert(rows.take(k + 1).drop_last() =~= rows.take(k));
                assert(rows.take(k + 1).last() == rows[k]);
            }
            if self.imports[i].id > top {
                top = self.imports[i].id;
            }
            if row_is_of(&self.imports[i], serial, name, size, mtime_unix) {
                let ghost before = self@.imports;
                let _gone = self.imports.remove(i);
                proof {
                    assert(self@.imports =~= before.remove(i as int));
                    assert(self@.imports =~= rows_but(rows.take(k + 1), key) + rows.skip(k + 1));
                    k = k + 1;
                }
            } else {
                proof {
                    assert(rows_but(rows.take(k + 1), key) + rows.skip(k + 1) =~= self@.imports);
                    k = k + 1;
                }
                i += 1;
            }
        }
        proof {
            assert(k == rows.len());
            assert(rows.take(k) =~= rows);
            assert(rows.skip(k).len() == 0);
            assert(self@.imports =~= rows_but(rows, key));
        }
        let id: i64 = top + 1;
        let row = ImportRow {
            id,
            camera_serial: serial.to_owned(),
            name: name.to_owned(),
            size,
            mtime_unix,
            dest_path: dest_path.to_owned(),
            hash: own_opt(hash),
            copied_at: self.clock.clone(),
            cloud_status: None,
        };
        let ghost before = self@.imports;
        self.imports.push(row);
        assert(self@.imports =~= before.push(row@));
        id
    }

    /// Queues an upload and returns the id of the job.
    pub fn enqueue_cloud_job(
        &mut self,
        imported_id: i64,
        destination_id: &str,
        local_path: &str,
        remote_path: &str,
        size: u64,
        card_src: Option<&str>,
    ) -> (r: i64)
        requires
            max_job_id(old(self)@.jobs) < i64::MAX,
        ensures
            r == max_job_id(old(self)@.jobs) + 1,
            final(self)@ == old(self)@.enqueued(
                imported_id,
                destination_id@,
                local_path@,
                remote_path@,
                size,
                opt_str_view(card_src),
            ),
    {
        let ghost queue = self@.jobs;
        let mut top: i64 = 0;
        let mut i: usize = 0;
        assert(queue.take(0) =~= seq![]);
        while i < self.jobs.len()
            invariant
                i <= self.jobs@.len(),
                self@.jobs == queue,
                top == max_job_id(queue.take(i as int)),
            decreases self.jobs.len() - i,
        {
            proof {
                assert(queue.take(i + 1).drop_last() =~= queue.take(i as int));
                assert(queue.take(i + 1).last() == self.jobs@[i as int]@);
            }
            if self.jobs[i].id > top {
                top = self.jobs[i].id;
            }
            i += 1;
        }
        assert(queue.take(i as int) =~= queue);
        let id: i64 = top + 1;
        let job = CloudJob {
            id,
            imported_id,
            destination_id: destination_id.to_owned(),
            local_path: local_path.to_owned(),
            remote_path: remote_path.to_owned(),
            total_bytes: size,
            uploaded_bytes: 0,
            state: JobState::Queued,
            attempts: 0,
            next_retry_at: None,
            last_error: None,
            card_src: own_opt(card_src),
            resume_state: None,
        };
        self.jobs.push(job);
        assert(self@.jobs =~= queue.push(job@));
        id
    }

    /// The jobs in the state `state`, or all of them for none, oldest first.
    pub fn list_cloud_jobs(&self, state: Option<JobState>) -> (r: Vec<CloudJob>)
        ensures
            job_views(r@) == jobs_in(self@.jobs, state),
    {
        let mut out: Vec<CloudJob> = Vec::new();
        let mut i: usize = 0;
        assert(self@.jobs.take(0) =~= seq![]);
        assert(job_views(out@) =~= seq![]);
        while i < self.jobs.len()
            invariant
                i <= self.jobs@.len(),
                job_views(out@) == jobs_in(self@.jobs.take(i as int), state),
            decreases self.jobs.len() - i,
        {
            proof {
                assert(self@.jobs.take(i + 1).drop_last() =~= self@.jobs.take(i as int));
                assert(self@.jobs.take(i + 1).last() == self.jobs@[i as int]@);
            }
            let wanted = match state {
                None => true,
                Some(s) => s == self.jobs[i].state,
            };
            if wanted {
                let ghost before = job_views(out@);
                let job = self.jobs[i].clone();
                out.push(job);
                assert(job_views(out@) =~= before.push(job@));
            }
            i += 1;
        }
        assert(self@.jobs.take(i as int) =~= self@.jobs);
        out
    }

    /// The number of jobs that are still to be uploaded.
    pub fn pending_cloud_count(&self) -> (r: usize)
        ensures
            r == pending_count(self@.jobs),
            r <= self@.jobs.len(),
    {
        let mut n: usize = 0;
        let mut i: usize = 0;
        assert(self@.jobs.take(0) =~= seq![]);
        while i < self.jobs.len()
            invariant
                i <= self.jobs@.len(),
                n <= i,
                n == pending_count(self@.jobs.take(i as int)),
            decreases self.jobs.len() - i,
        {
            proof {
                assert(self@.jobs.take(i + 1).drop_last() =~= self@.jobs.take(i as int));
                assert(self@.jobs.take(i + 1).last() == self.jobs@[i as int]@);
            }
            if is_pending(&self.jobs[i]) {
                n += 1;
            }
            i += 1;
        }
        assert(self@.jobs.take(i as int) =~= self@.jobs);
        n
    }

    /// The number of jobs that the worker has given up on.
    pub fn failed_cloud_count(&self) -> (r: usize)
        ensures
            r == given_up_count(self@.jobs),
            r <= self@.jobs.len(),
    {
        let mut n: usize = 0;
        let mut i: usize = 0;
        assert(self@.jobs.take(0) =~= seq![]);
        while i < self.jobs.len()
            invariant
                i <= self.jobs@.len(),
                n <= i,
                n == given_up_count(self@.jobs.take(i as int)),
            decreases self.jobs.len() - i,
        {
            proof {
                assert(self@.jobs.take(i + 1).drop_last() =~= self@.jobs.take(i as int));
                assert(self@.jobs.take(i + 1).last() == self.jobs@[i as int]@);
            }
            if is_given_up(&self.jobs[i]) {
                n += 1;
            }
            i += 1;
        }
        assert(self@.jobs.take(i as int) =~= self@.jobs);
        n
    }

    /// Claims up to `limit` jobs that are due at `now`, oldest first.
    pub fn claim_due_cloud_jobs(&mut self, now: i64, limit: usize) -> (r: Vec<CloudJob>)
        ensures
            job_views(r@) == claims(old(self)@.jobs, now, limit as nat),
            final(self)@ == (LedgerModel {
                jobs: after_claims(old(self)@.jobs, now, limit as nat),
                ..old(self)@
            }),
    {
        let ghost queue = self@.jobs;
        let mut out: Vec<CloudJob> = Vec::new();
        let mut i: usize = 0;
        proof {
            assert(queue.take(0) =~= seq![]);
            assert(job_views(out@) =~= seq![]);
            assert(after_claims(queue.take(0), now, limit as nat) + queue.skip(0) =~= queue);
        }
        while i < self.jobs.len()
            invariant
                i <= self.jobs@.len() == queue.len(),
                job_views(out@) == claims(queue.take(i as int), now, limit as nat),
                after_claims(queue.take(i as int), now, limit as nat).len() == i,
                self@.jobs == after_claims(queue.take(i as int), now, limit as nat) + queue.skip(
                    i as int,
                ),
                self@.imports == old(self)@.imports,
                self@.clock == old(self)@.clock,
            decreases self.jobs.len() - i,
        {
            let ghost head = queue.take(i as int);
            let ghost step = queue.take(i + 1);
            let ghost row = queue[i as int];
            proof {
                assert(step.drop_last() =~= head);
                assert(step.last() == row);
                assert(self@.jobs[i as int] == row);
                assert(self.jobs@[i as int]@ == row);
                assert(job_views(out@).len() == out@.len());
            }
            let take = out.len() < limit && is_due(&self.jobs[i], now);
            let ghost jobs_before = self@.jobs;
            if take {
                let mut job = self.jobs[i].clone();
                job.state = JobState::Uploading;
                job.next_retry_at = None;
                let ghost before = job_views(out@);
                let copy = job.clone();
                assert(job@ == row.claimed());
                self.jobs.set(i, job);
                out.push(copy);
                proof {
                    assert(job_views(out@) =~= before.push(row.claimed()));
                    assert(self@.jobs =~= jobs_before.update(i as int, row.claimed()));
                }
            }
            proof {
                assert(self@.jobs =~= after_claims(step, now, limit as nat) + queue.skip(i + 1));
            }
            i += 1;
        }
        proof {
            assert(queue.take(i as int) =~= queue);
            assert(self@.jobs =~= after_claims(queue, now, limit as nat));
        }
        out
    }

    /// Notes that the remote copy of the job `id` is there.
    pub fn mark_job_done(&mut self, id: i64)
        ensures
            final(self)@ == old(self)@.job_done(id),
    {
        let ghost queue = self@.jobs;
        let mut i: usize = 0;
        while i < self.jobs.len()
            invariant
                i <= self.jobs@.len() == queue.len(),
                self@.imports == old(self)@.imports,
                self@.clock == old(self)@.clock,
                forall|k: int|
                    0 <= k < i ==> #[trigger] self@.jobs[k] == (if queue[k].id == id {
                        queue[k].finished()
                    } else {
                        queue[k]
                    }),
                forall|k: int| i <= k < queue.len() ==> #[trigger] self@.jobs[k] == queue[k],
            decreases self.jobs.len() - i,
        {
            assert(self@.jobs[i as int] == self.jobs@[i as int]@);
            let ghost before = self@.jobs;
            if self.jobs[i].id == id {
                let mut job = self.jobs[i].clone();
                job.state = JobState::Done;
                job.next_retry_at = None;
                job.last_error = None;
                self.jobs.set(i, job);
                assert(self@.jobs =~= before.update(i as int, job@));
            }
            i += 1;
        }
        assert(self@ =~= old(self)@.job_done(id));
    }

    /// Notes a failed attempt on the job `id`, to be repeated at `next` if that is
    /// given.
    pub fn mark_job_failed(&mut self, id: i64, error: &str, next: Option<i64>)
        ensures
            final(self)@ == old(self)@.job_failed(id, error@, next),
    {
        let ghost queue = self@.jobs;
        let mut i: usize = 0;
        while i < self.jobs.len()
            invariant
                i <= self.jobs@.len() == queue.len(),
                self@.imports == old(self)@.imports,
                self@.clock == old(self)@.clock,
                forall|k: int|
                    0 <= k < i ==> #[trigger] self@.jobs[k] == (if queue[k].id == id {
                        queue[k].after_failure(error@, next)
                    } else {
                        queue[k]
                    }),
                forall|k: int| i <= k < queue.len() ==> #[trigger] self@.jobs[k] == queue[k],
            decreases self.jobs.len() - i,
        {
            assert(self@.jobs[i as int] == self.jobs@[i as int]@);
            let ghost before = self@.jobs;
            if self.jobs[i].id == id {
                let mut job = self.jobs[i].clone();
                job.state = JobState::Failed;
                job.attempts = job.attempts.saturating_add(1);
                job.last_error = Some(error.to_owned());
                job.next_retry_at = next;
                self.jobs.set(i, job);
                assert(self@.jobs =~= before.update(i as int, job@));
            }
            i += 1;
        }
        assert(self@ =~= old(self)@.job_failed(id, error@, next));
    }

    /// Notes that `uploaded` bytes of the job `id` are on the server.
    pub fn save_job_progress(&mut self, id: i64, uploaded: u64, resume: &ResumeState)
        ensures
            final(self)@ == old(self)@.job_progressed(id, uploaded, resume@),
    {
        let ghost queue = self@.jobs;
        let mut i: usize = 0;
        while i < self.jobs.len()
            invariant
                i <= self.jobs@.len() == queue.len(),
                self@.imports == old(self)@.imports,
                self@.clock == old(self)@.clock,
                forall|k: int|
                    0 <= k < i ==> #[trigger] self@.jobs[k] == (if queue[k].id == id {
                        queue[k].progressed(uploaded, resume@)
                    } else {
                        queue[k]
                    }),
                forall|k: int| i <= k < queue.len() ==> #[trigger] self@.jobs[k] == queue[k],
            decreases self.jobs.len() - i,
        {
            assert(self@.jobs[i as int] == self.jobs@[i as int]@);
            let ghost before = self@.jobs;
            if self.jobs[i].id == id {
                let mut job = self.jobs[i].clone();
                job.uploaded_bytes = uploaded;
                job.resume_state = Some(resume.clone());
                self.jobs.set(i, job);
                assert(self@.jobs =~= before.update(i as int, job@));
            }
            i += 1;
        }
        assert(self@ =~= old(self)@.job_progressed(id, uploaded, resume@));
    }

    /// Puts every job that the worker has given up on back into the queue, with a
    /// clean record, and returns how many there were.
    pub fn requeue_failed_cloud_jobs(&mut self) -> (r: usize)
        ensures
            r == given_up_count(old(self)@.jobs),
            final(self)@ == old(self)@.given_up_requeued(),
    {
        let ghost queue = self@.jobs;
        let mut n: usize = 0;
        let mut i: usize = 0;
        assert(queue.take(0) =~= seq![]);
        while i < self.jobs.len()
            invariant
                i <= self.jobs@.len() == queue.len(),
                self@.imports == old(self)@.imports,
                self@.clock == old(self)@.clock,
                n <= i,
                n == given_up_count(queue.take(i as int)),
                forall|k: int|
                    0 <= k < i ==> #[trigger] self@.jobs[k] == (if queue[k].given_up() {
                        queue[k].requeued()
                    } else {
                        queue[k]
                    }),
                forall|k: int| i <= k < queue.len() ==> #[trigger] self@.jobs[k] == queue[k],
            decreases self.jobs.len() - i,
        {
            assert(self@.jobs[i as int] == self.jobs@[i as int]@);
            proof {
                assert(queue.take(i + 1).drop_last() =~= queue.take(i as int));
                assert(queue.take(i + 1).last() == queue[i as int]);
            }
            let ghost before = self@.jobs;
            if is_given_up(&self.jobs[i]) {
                let mut job = self.jobs[i].clone();
                job.state = JobState::Queued;
                job.attempts = 0;
                job.next_retry_at = None;
                job.last_error = None;
                self.jobs.set(i, job);
                n += 1;
                assert(self@.jobs =~= before.update(i as int, job@));
            }
            i += 1;
        }
        assert(queue.take(i as int) =~= queue);
        assert(self@ =~= old(self)@.given_up_requeued());
        n
    }

    /// Puts every claimed job back into the queue, and returns how many there
    /// were. For the start of a worker, when no other can have claimed one.
    pub fn reclaim_orphaned_uploading(&mut self) -> (r: usize)
        ensures
            r == uploading_count(old(self)@.jobs),
            final(self)@ == old(self)@.uploading_reclaimed(),
    {
        let ghost queue = self@.jobs;
        let mut n: usize = 0;
        let mut i: usize = 0;
        assert(queue.take(0) =~= seq![]);
        while i < self.jobs.len()
            invariant
                i <= self.jobs@.len() == queue.len(),
                self@.imports == old(self)@.imports,
                self@.clock == old(self)@.clock,
                n <= i,
                n == uploading_count(queue.take(i as int)),
                forall|k: int|
                    0 <= k < i ==> #[trigger] self@.jobs[k] == (if queue[k].state == JobState::Uploading {
                        (CloudJob { state: JobState::Queued, ..queue[k] })
                    } else {
                        queue[k]
                    }),
                forall|k: int| i <= k < queue.len() ==> #[trigger] self@.jobs[k] == queue[k],
            decreases self.jobs.len() - i,
        {
            assert(self@.jobs[i as int] == self.jobs@[i as int]@);
            proof {
                assert(queue.take(i + 1).drop_last() =~= queue.take(i as int));
                assert(queue.take(i + 1).last() == queue[i as int]);
            }
            let ghost before = self@.jobs;
            if self.jobs[i].state == JobState::Uploading {
                let mut job = self.jobs[i].clone();
                job.state = JobState::Queued;
                self.jobs.set(i, job);
                n += 1;
                assert(self@.jobs =~= before.update(i as int, job@));
            }
            i += 1;
        }
        assert(queue.take(i as int) =~= queue);
        assert(self@ =~= old(self)@.uploading_reclaimed());
        n
    }

    /// Sets the cloud status of the row `id`.
    pub fn set_cloud_status(&mut self, id: i64, status: &str)
        ensures
            final(self)@ == old(self)@.status_set(id, status@),
    {
        let ghost rows = self@.imports;
        let mut i: usize = 0;
        while i < self.imports.len()
            invariant
                i <= self.imports@.len() == rows.len(),
                self@.jobs == old(self)@.jobs,
                self@.clock == old(self)@.clock,
                forall|k: int|
                    0 <= k < i ==> #[trigger] self@.imports[k] == (if rows[k].id == id {
                        (ImportRow { cloud_status: Some(status@), ..rows[k] })
                    } else {
                        rows[k]
                    }),
                forall|k: int| i <= k < rows.len() ==> #[trigger] self@.imports[k] == rows[k],
            decreases self.imports.len() - i,
        {
            assert(self@.imports[i as int] == self.imports@[i as int]@);
            let ghost before = self@.imports;
            if self.imports[i].id == id {
                let mut row = self.imports[i].clone();
                row.cloud_status = Some(status.to_owned());
                self.imports.set(i, row);
                assert(self@.imports =~= before.update(i as int, row@));
            }
            i += 1;
        }
        assert(self@ =~= old(self)@.status_set(id, status@));
    }

    /// The newest `limit` rows, newest first.
    pub fn recent_imports(&self, limit: usize) -> (r: Vec<ImportRow>)
        ensures
            import_views(r@) == self@.newest(limit as nat),
    {
        let n: usize = self.imports.len();
        let mut out: Vec<ImportRow> = Vec::new();
        let mut i: usize = 0;
        while i < n && i < limit
            invariant
                i <= n,
                i <= limit,
                n == self.imports@.len(),
                out@.len() == i,
                forall|k: int| 0 <= k < i ==> (#[trigger] out@[k])@ == self@.imports[n - 1 - k],
            decreases n - i,
        {
            let row = self.imports[n - 1 - i].clone();
            assert(row@ == self@.imports[n - 1 - i]);
            out.push(row);
            i += 1;
        }
        assert(import_views(out@) =~= self@.newest(limit as nat));
        out
    }
}

/// A copy of an optional string slice.
pub fn own_opt(o: Option<&str>) -> (r: Option<String>)
    ensures
        opt_view(r) == opt_str_view(o),
{
    match o {
        Some(s) => Some(s.to_owned()),
        None => None,
    }
}

/// True if the row is of the source file.
fn row_is_of(row: &ImportRow, serial: &str, name: &str, size: u64, mtime_unix: i64) -> (r: bool)
    ensures
        r == (row@.key() == (FileKey { serial: serial@, name: name@, size, mtime_unix })),
{
    row.size == size && row.mtime_unix == mtime_unix && same_text(row.name.as_str(), name)
        && same_text(row.camera_serial.as_str(), serial)
}

/// True of a job that is still to be uploaded.
pub fn is_pending(job: &CloudJob) -> (r: bool)
    ensures
        r == job@.pending(),
{
    match job.state {
        JobState::Queued | JobState::Uploading => true,
        JobState::Failed => job.next_retry_at.is_some(),
        JobState::Done => false,
    }
}

/// True of a job that the worker has given up on.
pub fn is_given_up(job: &CloudJob) -> (r: bool)
    ensures
        r == job@.given_up(),
{
    job.state == JobState::Failed && job.next_retry_at.is_none()
}

/// True of a job that can be claimed at `now`.
pub fn is_due(job: &CloudJob, now: i64) -> (r: bool)
    ensures
        r == job@.due(now),
{
    match job.state {
        JobState::Queued => true,
        JobState::Failed => match job.next_retry_at {
            Some(t) => t <= now,
            None => false,
        },
        JobState::Uploading | JobState::Done => false,
    }
}

} // verus!
