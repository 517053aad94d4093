//! What the windows show: the state of the application, and how each event
//! changes it.

use crate::cloud::CloudEvent;
use crate::config::clone_opt;
use crate::orchestrator::RunEvent;
use crate::text::{decimal, opt_view, push_u64};
use vstd::prelude::*;

verus! {

/// The status that the tray icon follows.
#[derive(Debug, Clone, Copy, PartialEq, Eq, Structural)]
pub enum Status {
    Idle,
    Working,
    Error,
}

/// How far the run in progress has come.
#[derive(Debug, PartialEq, Eq)]
pub struct RunProgress<S = String> {
    pub model: Option<S>,
    pub serial: Option<S>,
    pub files_done: usize,
    pub files_total: usize,
    pub bytes_done: u64,
    pub bytes_total: u64,
    pub current_file: Option<S>,
    pub started_at_unix: i64,
    /// The bytes of the files that are done; `bytes_done` counts what was copied
    /// of the current one besides.
    pub completed_bytes: u64,
}

/// An upload in progress.
#[derive(Debug, PartialEq, Eq)]
pub struct UploadProgress<S = String> {
    pub file: S,
    pub uploaded: u64,
    pub total: u64,
}

/// The state of the cloud mirror.
#[derive(Debug, PartialEq, Eq)]
pub struct CloudState<S = String> {
    pub configured: bool,
    pub pending: usize,
    pub failed: usize,
    pub paused: bool,
    pub uploading: Option<UploadProgress<S>>,
}

/// What the last run came to.
#[derive(Debug, Clone, Copy, PartialEq, Eq, Structural)]
pub struct RunSummaryView {
    pub copied: usize,
    pub skipped: usize,
    pub failed: usize,
    pub bytes: u64,
}

/// The whole state.
#[derive(Debug, PartialEq, Eq)]
pub struct AppState<S = String> {
    pub status: Status,
    pub run: Option<RunProgress<S>>,
    pub last_run: Option<RunSummaryView>,
    pub cloud: CloudState<S>,
    pub message: Option<S>,
    /// Grows with each state that is handed out, so that one that was overtaken
    /// on its way can be told.
    pub seq: u64,
}

// ---- views ------------------------------------------------------------------

impl View for RunProgress<String> {
    type V = RunProgress<Seq<char>>;

    open spec fn view(&self) -> RunProgress<Seq<char>> {
        RunProgress {
            model: opt_view(self.model),
            serial: opt_view(self.serial),
            files_done: self.files_done,
            files_total: self.files_total,
            bytes_done: self.bytes_done,
            bytes_total: self.bytes_total,
            current_file: opt_view(self.current_file),
            started_at_unix: self.started_at_unix,
            completed_bytes: self.completed_bytes,
        }
    }
}

impl View for UploadProgress<String> {
    type V = UploadProgress<Seq<char>>;

    open spec fn view(&self) -> UploadProgress<Seq<char>> {
        UploadProgress { file: self.file@, uploaded: self.uploaded, total: self.total }
    }
}

/// The view of an optional run.
pub open spec fn run_view(o: Option<RunProgress>) -> Option<RunProgress<Seq<char>>> {
    match o {
        Some(r) => Some(r@),
        None => None,
    }
}

/// The view of an optional upload.
pub open spec fn upload_view(o: Option<UploadProgress>) -> Option<UploadProgress<Seq<char>>> {
    match o {
        Some(u) => Some(u@),
        None => None,
    }
}

impl View for CloudState<String> {
    type V = CloudState<Seq<char>>;

    open spec fn view(&self) -> CloudState<Seq<char>> {
        CloudState {
            configured: self.configured,
            pending: self.pending,
            failed: self.failed,
            paused: self.paused,
            uploading: upload_view(self.uploading),
        }
    }
}

impl View for AppState<String> {
    type V = AppState<Seq<char>>;

    open spec fn view(&self) -> AppState<Seq<char>> {
        AppState {
            status: self.status,
            run: run_view(self.run),
            last_run: self.last_run,
            cloud: self.cloud@,
            message: opt_view(self.message),
            seq: self.seq,
        }
    }
}

impl Clone for RunProgress<String> {
    fn clone(&self) -> (r: Self)
        ensures
            r@ == self@,
    {
        RunProgress {
            model: clone_opt(&self.model),
            serial: clone_opt(&self.serial),
            files_done: self.files_done,
            files_total: self.files_total,
            bytes_done: self.bytes_done,
            bytes_total: self.bytes_total,
            current_file: clone_opt(&self.current_file),
            started_at_unix: self.started_at_unix,
            completed_bytes: self.completed_bytes,
        }
    }
}

impl Clone for UploadProgress<String> {
    fn clone(&self) -> (r: Self)
        ensures
            r@ == self@,
    {
        UploadProgress { file: self.file.clone(), uploaded: self.uploaded, total: self.total }
    }
}

impl Clone for CloudState<String> {
    fn clone(&self) -> (r: Self)
        ensures
            r@ == self@,
    {
        CloudState {
            configured: self.configured,
            pending: self.pending,
            failed: self.failed,
            paused: self.paused,
            uploading: match &self.uploading {
                Some(u) => Some(u.clone()),
                None => None,
            },
        }
    }
}

impl Clone for AppState<String> {
    fn clone(&self) -> (r: Self)
        ensures
            r@ == self@,
    {
        AppState {
            status: self.status,
            run: match &self.run {
                Some(r) => Some(r.clone()),
                None => None,
            },
            last_run: self.last_run,
            cloud: self.cloud.clone(),
            message: clone_opt(&self.message),
            seq: self.seq,
        }
    }
}

impl Default for CloudState<String> {
    fn default() -> (r: Self)
        ensures
            r@ == (CloudState::<Seq<char>> {
                configured: false,
                pending: 0,
                failed: 0,
                paused: false,
                uploading: None,
            }),
    {
        CloudState { configured: false, pending: 0, failed: 0, paused: false, uploading: None }
    }
}

/// The state at the start: idle, with nothing to show.
pub open spec fn initial_state() -> AppState<Seq<char>> {
    AppState {
        status: Status::Idle,
        run: None,
        last_run: None,
        cloud: CloudState {
            configured: false,
            pending: 0,
            failed: 0,
            paused: false,
            uploading: None,
        },
        message: None,
        seq: 0,
    }
}

impl Default for AppState<String> {
    fn default() -> (r: Self)
        ensures
            r@ == initial_state(),
    {
        AppState {
            status: Status::Idle,
            run: None,
            last_run: None,
            cloud: CloudState {
                configured: false,
                pending: 0,
                failed: 0,
                paused: false,
                uploading: None,
            },
            message: None,
            seq: 0,
        }
    }
}

// ---- the run in progress ----------------------------------------------------

/// A run that begins at the given time, of which nothing is known yet.
pub open spec fn started_at(now_unix: i64) -> RunProgress<Seq<char>> {
    RunProgress {
        model: None,
        serial: None,
        files_done: 0,
        files_total: 0,
        bytes_done: 0,
        bytes_total: 0,
        current_file: None,
        started_at_unix: now_unix,
        completed_bytes: 0,
    }
}

/// The quotient of two numbers, rounded up.
pub open spec fn ceil_div(a: nat, b: nat) -> nat
    recommends
        b > 0,
{
    ((a + b - 1) / (b as int)) as nat
}

impl RunProgress<Seq<char>> {
    /// The seconds that are left if the rest goes as fast as what was done, at
    /// most what the result can hold. There is no estimate before the first byte,
    /// before time has passed, and when nothing is left.
    pub open spec fn eta(self, now_unix: i64) -> Option<u64> {
        let elapsed = now_unix - self.started_at_unix;
        if self.bytes_done == 0 || elapsed <= 0 || self.bytes_done >= self.bytes_total {
            None
        } else {
            let left = ceil_div(
                ((self.bytes_total - self.bytes_done) * elapsed) as nat,
                self.bytes_done as nat,
            );
            Some(if left <= u64::MAX {
                left as u64
            } else {
                u64::MAX
            })
        }
    }
}

impl RunProgress<String> {
    /// A run that begins at the given time, of which nothing is known yet.
    pub fn started(now_unix: i64) -> (r: Self)
        ensures
            r@ == started_at(now_unix),
    {
        RunProgress {
            model: None,
            serial: None,
            files_done: 0,
            files_total: 0,
            bytes_done: 0,
            bytes_total: 0,
            current_file: None,
            started_at_unix: now_unix,
            completed_bytes: 0,
        }
    }

    /// The seconds that are left if the rest goes as fast as what was done.
    pub fn eta_secs(&self, now_unix: i64) -> (r: Option<u64>)
        ensures
            r == self@.eta(now_unix),
    {
        let elapsed: i128 = now_unix as i128 - self.started_at_unix as i128;
        if self.bytes_done == 0 || elapsed <= 0 || self.bytes_done >= self.bytes_total {
            return None;
        }
        let remaining: u128 = (self.bytes_total - self.bytes_done) as u128;
        let spent: u128 = elapsed as u128;
        let done: u128 = self.bytes_done as u128;
        assert(remaining * spent + done <= u128::MAX) by (nonlinear_arith)
            requires
                remaining <= 0xffff_ffff_ffff_ffff,
                spent <= 0xffff_ffff_ffff_ffff,
                done <= 0xffff_ffff_ffff_ffff,
        ;
        assert(remaining * spent >= 0) by (nonlinear_arith);
        let left: u128 = (remaining * spent + (done - 1)) / done;
        if left <= u64::MAX as u128 {
            Some(left as u64)
        } else {
            Some(u64::MAX)
        }
    }
}

/// The estimate is the least number of seconds in which the rest is copied at the
/// rate so far, where it can be held.
pub proof fn estimate_is_the_least(run: RunProgress<Seq<char>>, now_unix: i64)
    requires
        run.eta(now_unix) is Some,
        run.eta(now_unix)->0 < u64::MAX,
    ensures
        run.eta(now_unix)->0 > 0,
        run.eta(now_unix)->0 * run.bytes_done >= (run.bytes_total - run.bytes_done) * (now_unix
            - run.started_at_unix),
        (run.eta(now_unix)->0 - 1) * run.bytes_done < (run.bytes_total - run.bytes_done) * (now_unix
            - run.started_at_unix),
{
    let elapsed = now_unix - run.started_at_unix;
    let rest = run.bytes_total - run.bytes_done;
    let b = run.bytes_done as int;
    let a = rest * elapsed;
    assert(a > 0) by (nonlinear_arith)
        requires
            rest > 0,
            elapsed > 0,
            a == rest * elapsed,
    ;
    let q = (a + b - 1) / b;
    assert(q > 0 && q * b >= a && (q - 1) * b < a) by (nonlinear_arith)
        requires
            a > 0,
            b > 0,
            q == (a + b - 1) / b,
    ;
}

// ---- how events change the state --------------------------------------------

/// The number, less one, but not below zero.
pub open spec fn less_one(n: usize) -> usize {
    if n > 0 {
        (n - 1) as usize
    } else {
        0
    }
}

/// The sum, or the greatest number that can be held.
pub open spec fn sum_clamped(a: u64, b: u64) -> u64 {
    if a + b <= u64::MAX {
        (a + b) as u64
    } else {
        u64::MAX
    }
}

impl AppState<Seq<char>> {
    /// The run in progress, or one that begins now.
    pub open spec fn run_or_new(self, now_unix: i64) -> RunProgress<Seq<char>> {
        match self.run {
            Some(r) => r,
            None => started_at(now_unix),
        }
    }

    /// The state in error, for the given reason.
    pub open spec fn in_error(self, message: Seq<char>) -> AppState<Seq<char>> {
        AppState { status: Status::Error, message: Some(message), ..self }
    }

    /// The state after an event of an offload run.
    pub open spec fn after_run_event(
        self,
        ev: RunEvent<Seq<char>>,
        now_unix: i64,
    ) -> AppState<Seq<char>> {
        match ev {
            RunEvent::Scanned { new_files, total_bytes } => AppState {
                status: Status::Working,
                message: None,
                run: Some(
                    RunProgress {
                        model: self.run_or_new(now_unix).model,
                        serial: self.run_or_new(now_unix).serial,
                        files_total: new_files,
                        bytes_total: total_bytes,
                        ..started_at(now_unix)
                    },
                ),
                ..self
            },
            RunEvent::CardDetected { model, serial } => AppState {
                run: Some(RunProgress { model, serial, ..self.run_or_new(now_unix) }),
                ..self
            },
            RunEvent::Copying { file, index, .. } => AppState {
                status: Status::Working,
                run: Some(
                    RunProgress {
                        current_file: Some(file),
                        files_done: less_one(index),
                        bytes_done: self.run_or_new(now_unix).completed_bytes,
                        ..self.run_or_new(now_unix)
                    },
                ),
                ..self
            },
            RunEvent::Progress { copied, .. } => match self.run {
                Some(r) => AppState {
                    run: Some(
                        RunProgress { bytes_done: sum_clamped(r.completed_bytes, copied), ..r },
                    ),
                    ..self
                },
                None => self,
            },
            RunEvent::Verified { .. } => match self.run {
                Some(r) => AppState {
                    run: Some(
                        RunProgress {
                            files_done: if r.files_done < r.files_total {
                                (r.files_done + 1) as usize
                            } else {
                                r.files_total
                            },
                            completed_bytes: r.bytes_done,
                            ..r
                        },
                    ),
                    ..self
                },
                None => self,
            },
            RunEvent::Failed { file, error } => self.in_error(file + ": "@ + error),
            RunEvent::InsufficientSpace { need, have } => self.in_error(
                "insufficient space: need "@ + decimal(need as nat) + " bytes, have "@ + decimal(
                    have as nat,
                ),
            ),
            RunEvent::RunComplete { copied, skipped, failed, bytes } => AppState {
                last_run: Some(RunSummaryView { copied, skipped, failed, bytes }),
                run: None,
                status: if failed > 0 {
                    Status::Error
                } else {
                    Status::Idle
                },
                ..self
            },
            RunEvent::CloudQueued { .. } => AppState {
                cloud: CloudState {
                    pending: (self.cloud.pending + 1) as usize,
                    configured: true,
                    ..self.cloud
                },
                ..self
            },
            RunEvent::CardDeleteFailed { file, error } => AppState {
                message: Some("card delete-after-verify failed for "@ + file + ": "@ + error),
                ..self
            },
            RunEvent::NotGoPro(_) => self,
            RunEvent::Skipped { .. } => self,
            RunEvent::CardFileDeleted { .. } => self,
            RunEvent::Ejected { .. } => self,
        }
    }

    /// The state after an event of the cloud worker.
    pub open spec fn after_cloud_event(self, ev: CloudEvent<Seq<char>>) -> AppState<Seq<char>> {
        match ev {
            CloudEvent::Uploading { file, uploaded, total } => AppState {
                cloud: CloudState {
                    uploading: Some(UploadProgress { file, uploaded, total }),
                    ..self.cloud
                },
                ..self
            },
            CloudEvent::Mirrored { .. } => AppState {
                cloud: CloudState {
                    uploading: None,
                    pending: less_one(self.cloud.pending),
                    ..self.cloud
                },
                ..self
            },
            CloudEvent::CloudFailed { file, error } => AppState {
                cloud: CloudState {
                    uploading: None,
                    failed: (self.cloud.failed + 1) as usize,
                    pending: less_one(self.cloud.pending),
                    ..self.cloud
                },
                ..self.in_error(file + ": "@ + error)
            },
            CloudEvent::Deleted { file } => AppState {
                message: Some("freed card space: "@ + file),
                ..self
            },
            CloudEvent::DeleteFailed { file, error } => AppState {
                message: Some("card delete-after-verify failed for "@ + file + ": "@ + error),
                ..self
            },
        }
    }

    /// The state after a run that could not be finished.
    pub open spec fn after_run_error(self, message: Seq<char>) -> AppState<Seq<char>> {
        AppState { run: None, ..self.in_error(message) }
    }
}

/// `file: error`.
fn about(file: &str, error: &str) -> (r: String)
    ensures
        r@ == file@ + ": "@ + error@,
{
    let mut s = file.to_owned();
    s.append(": ");
    s.append(error);
    s
}

/// The message where a file could not be deleted from the card.
pub fn delete_warning(file: &str, error: &str) -> (r: String)
    ensures
        r@ == "card delete-after-verify failed for "@ + file@ + ": "@ + error@,
{
    let mut s = "card delete-after-verify failed for ".to_owned();
    s.append(file);
    s.append(": ");
    s.append(error);
    s
}

impl AppState<String> {
    /// The run in progress, or one that begins now. It leaves the state.
    fn take_run(&mut self, now_unix: i64) -> (r: RunProgress)
        ensures
            r@ == old(self)@.run_or_new(now_unix),
            final(self)@ == (AppState { run: None, ..old(self)@ }),
    {
        match self.run.take() {
            Some(r) => r,
            None => RunProgress::started(now_unix),
        }
    }

    /// Takes in an event of an offload run.
    pub fn apply_run_event(&mut self, ev: &RunEvent, now_unix: i64)
        requires
            ev is CloudQueued ==> old(self).cloud.pending < usize::MAX,
        ensures
            final(self)@ == old(self)@.after_run_event(ev@, now_unix),
    {
        match ev {
            RunEvent::Scanned { new_files, total_bytes } => {
                let known = self.take_run(now_unix);
                let mut run = RunProgress::started(now_unix);
                run.model = known.model;
                run.serial = known.serial;
                run.files_total = *new_files;
                run.bytes_total = *total_bytes;
                self.run = Some(run);
                self.status = Status::Working;
                self.message = None;
            },
            RunEvent::CardDetected { model, serial } => {
                let mut run = self.take_run(now_unix);
                run.model = clone_opt(model);
                run.serial = clone_opt(serial);
                self.run = Some(run);
            },
            RunEvent::Copying { file, index, .. } => {
                let mut run = self.take_run(now_unix);
                run.current_file = Some(file.clone());
                run.files_done = if *index > 0 {
                    *index - 1
                } else {
                    0
                };
                run.bytes_done = run.completed_bytes;
                self.run = Some(run);
                self.status = Status::Working;
            },
            RunEvent::Progress { copied, .. } => {
                if let Some(mut run) = self.run.take() {
                    run.bytes_done = run.completed_bytes.saturating_add(*copied);
                    self.run = Some(run);
                }
            },
            RunEvent::Verified { .. } => {
                if let Some(mut run) = self.run.take() {
                    run.files_done = if run.files_done < run.files_total {
                        run.files_done + 1
                    } else {
                        run.files_total
                    };
                    run.completed_bytes = run.bytes_done;
                    self.run = Some(run);
                }
            },
            RunEvent::Failed { file, error } => {
                self.status = Status::Error;
                self.message = Some(about(file.as_str(), error.as_str()));
            },
            RunEvent::InsufficientSpace { need, have } => {
                let mut s = "insufficient space: need ".to_owned();
                push_u64(&mut s, *need);
                s.append(" bytes, have ");
                push_u64(&mut s, *have);
                self.status = Status::Error;
                self.message = Some(s);
            },
            RunEvent::RunComplete { copied, skipped, failed, bytes } => {
                self.last_run = Some(
                    RunSummaryView {
                        copied: *copied,
                        skipped: *skipped,
                        failed: *failed,
                        bytes: *bytes,
                    },
                );
                self.run = None;
                self.status = if *failed > 0 {
                    Status::Error
                } else {
                    Status::Idle
                };
            },
            RunEvent::CloudQueued { .. } => {
                self.cloud.pending = self.cloud.pending + 1;
                self.cloud.configured = true;
            },
            RunEvent::CardDeleteFailed { file, error } => {
                self.message = Some(delete_warning(file.as_str(), error.as_str()));
            },
            RunEvent::NotGoPro(_) => {},
            RunEvent::Skipped { .. } => {},
            RunEvent::CardFileDeleted { .. } => {},
            RunEvent::Ejected { .. } => {},
        }
    }

    /// Takes in an event of the cloud worker.
    pub fn apply_cloud_event(&mut self, ev: &CloudEvent)
        requires
            ev is CloudFailed ==> old(self).cloud.failed < usize::MAX,
        ensures
            final(self)@ == old(self)@.after_cloud_event(ev@),
    {
        match ev {
            CloudEvent::Uploading { file, uploaded, total } => {
                self.cloud.uploading = Some(
                    UploadProgress { file: file.clone(), uploaded: *uploaded, total: *total },
                );
            },
            CloudEvent::Mirrored { .. } => {
                self.cloud.uploading = None;
                self.cloud.pending = self.cloud.pending.saturating_sub(1);
            },
            CloudEvent::CloudFailed { file, error } => {
                self.cloud.uploading = None;
                self.cloud.failed = self.cloud.failed + 1;
                self.cloud.pending = self.cloud.pending.saturating_sub(1);
                self.status = Status::Error;
                self.message = Some(about(file.as_str(), error.as_str()));
            },
            CloudEvent::Deleted { file } => {
                let mut s = "freed card space: ".to_owned();
                s.append(file.as_str());
                self.message = Some(s);
            },
            CloudEvent::DeleteFailed { file, error } => {
                self.message = Some(delete_warning(file.as_str(), error.as_str()));
            },
        }
    }

    /// Takes in that a run could not be finished.
    pub fn apply_run_error(&mut self, message: &str)
        ensures
            final(self)@ == old(self)@.after_run_error(message@),
    {
        self.run = None;
        self.status = Status::Error;
        self.message = Some(message.to_owned());
    }

    /// Numbers the state that is handed out next.
    pub fn bump_seq(&mut self)
        requires
            old(self).seq < u64::MAX,
        ensures
            final(self)@ == (AppState { seq: (old(self).seq + 1) as u64, ..old(self)@ }),
    {
        self.seq = self.seq + 1;
    }
}

// ---- laws -------------------------------------------------------------------

/// True if no counter of the run passes its total, nor what is complete what is
/// done.
pub open spec fn in_bounds(s: AppState<Seq<char>>) -> bool {
    s.run matches Some(r) ==> r.files_done <= r.files_total && r.completed_bytes <= r.bytes_done
        && r.bytes_done <= r.bytes_total
}

/// Progress that stays within the totals keeps the state within them: whatever the
/// event, if it names a file within the count and bytes within the sum, no counter
/// passes its total, and what is complete never passes what is done.
pub proof fn counters_stay_in_bounds(
    s: AppState<Seq<char>>,
    ev: RunEvent<Seq<char>>,
    now_unix: i64,
)
    requires
        in_bounds(s),
        s.run is None ==> !(ev is Copying),
        ev matches RunEvent::Copying { index, .. } ==> index <= s.run->0.files_total,
        ev matches RunEvent::Progress { copied, .. } ==> s.run is Some
            ==> s.run->0.completed_bytes + copied <= s.run->0.bytes_total,
    ensures
        in_bounds(s.after_run_event(ev, now_unix)),
{
}

/// Progress is cumulative: of two reports on a file only the later one counts.
pub proof fn the_latest_progress_counts(
    s: AppState<Seq<char>>,
    file: Seq<char>,
    earlier: u64,
    later: u64,
    total: u64,
    now_unix: i64,
)
    ensures
        s.after_run_event(
            RunEvent::Progress { file, copied: earlier, total },
            now_unix,
        ).after_run_event(RunEvent::Progress { file, copied: later, total }, now_unix)
            == s.after_run_event(RunEvent::Progress { file, copied: later, total }, now_unix),
{
}

/// A file that failed counts for nothing: the next file starts from the bytes of
/// the files that are done.
pub proof fn a_failed_file_adds_no_bytes(
    s: AppState<Seq<char>>,
    file: Seq<char>,
    copied: u64,
    size: u64,
    error: Seq<char>,
    next: Seq<char>,
    index: usize,
    total: usize,
    now_unix: i64,
)
    requires
        s.run is Some,
    ensures
        s.after_run_event(
            RunEvent::Progress { file, copied, total: size },
            now_unix,
        ).after_run_event(RunEvent::Failed { file, error }, now_unix).after_run_event(
            RunEvent::Copying { file: next, index, total },
            now_unix,
        ).run->0.bytes_done == s.run->0.completed_bytes,
{
}

/// A verified file stays counted: the next file starts from the bytes that were
/// done when it was verified.
pub proof fn a_verified_file_stays_counted(
    s: AppState<Seq<char>>,
    file: Seq<char>,
    next: Seq<char>,
    index: usize,
    total: usize,
    now_unix: i64,
)
    requires
        s.run is Some,
    ensures
        s.after_run_event(RunEvent::Verified { file }, now_unix).after_run_event(
            RunEvent::Copying { file: next, index, total },
            now_unix,
        ).run->0.bytes_done == s.run->0.bytes_done,
{
}

/// Whatever came before, a completed run leaves no run in progress, and the state
/// is in error exactly if a file failed.
pub proof fn a_completed_run_is_over(
    s: AppState<Seq<char>>,
    copied: usize,
    skipped: usize,
    failed: usize,
    bytes: u64,
    now_unix: i64,
)
    ensures
        ({
            let t = s.after_run_event(
                RunEvent::RunComplete { copied, skipped, failed, bytes },
                now_unix,
            );
            &&& t.run is None
            &&& t.status == Status::Error <==> failed > 0
            &&& t.status == Status::Idle <==> failed == 0
            &&& t.last_run == Some(RunSummaryView { copied, skipped, failed, bytes })
        }),
{
}

/// The events of a run touch nothing of the cloud mirror, but that a queued file
/// is counted; those of the worker touch nothing of the run.
pub proof fn run_and_cloud_keep_apart(
    s: AppState<Seq<char>>,
    run_event: RunEvent<Seq<char>>,
    cloud_event: CloudEvent<Seq<char>>,
    now_unix: i64,
)
    ensures
        !(run_event is CloudQueued) ==> s.after_run_event(run_event, now_unix).cloud == s.cloud,
        s.after_cloud_event(cloud_event).run == s.run,
        s.after_cloud_event(cloud_event).last_run == s.last_run,
        s.after_run_event(run_event, now_unix).seq == s.seq,
        s.after_cloud_event(cloud_event).seq == s.seq,
{
}

/// A file that is queued and then mirrored leaves the number of pending files as
/// it was.
pub proof fn mirroring_settles_a_queued_file(
    s: AppState<Seq<char>>,
    queued: Seq<char>,
    mirrored: Seq<char>,
    now_unix: i64,
)
    requires
        s.cloud.pending < usize::MAX,
    ensures
        s.after_run_event(RunEvent::CloudQueued { file: queued }, now_unix).after_cloud_event(
            CloudEvent::Mirrored { file: mirrored },
        ).cloud.pending == s.cloud.pending,
{
}

} // verus!
