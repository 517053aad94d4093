//! One offload run over USB: the plan, the events, and what comes next.

use crate::capture::{local_capture, Captured};
use crate::config::{mirror_of, Config, MirrorMode};
use crate::gopro::{classify, kind_of};
use crate::ledger::{max_import_id, max_job_id, FileKey, Ledger, LedgerModel};
use crate::ledger_laws::recording_forgets_nothing;
use crate::naming::{
    first_free_is_unique, free_path, free_path_is_first_free, render_name, rendered,
    resolve_collision, taken, untried_paths_do_not_matter,
};
use crate::orchestrator::{
    deletes_inline, event_views, push_event, should_delete_card, RunEvent, RunSummary,
};
use crate::paths::{part_of, part_path};
use crate::progress::{percent_of, ProgressThrottle};
use crate::scanner::{captured_views, is_wanted, wanted};
use crate::text::{decimal, opt_str_view, push_u64, views};
use crate::transfer::{commit_imported, committed};
use crate::wired::client::{media_views, CameraInfo, RemoteMedia};
use vstd::prelude::*;

verus! {

// ---- the plan ---------------------------------------------------------------

/// A file that is to be downloaded.
#[derive(Debug)]
pub struct PlannedWired<S = String> {
    pub media: RemoteMedia<S>,
    pub dest_name: S,
    pub dest_path: S,
}

impl View for PlannedWired<String> {
    type V = PlannedWired<Seq<char>>;

    open spec fn view(&self) -> PlannedWired<Seq<char>> {
        PlannedWired {
            media: self.media@,
            dest_name: self.dest_name@,
            dest_path: self.dest_path@,
        }
    }
}

/// The views of a plan.
pub open spec fn wired_views(v: Seq<PlannedWired>) -> Seq<PlannedWired<Seq<char>>> {
    Seq::new(v.len(), |i: int| v[i]@)
}

/// The destinations of a plan.
pub open spec fn wired_paths(plan: Seq<PlannedWired<Seq<char>>>) -> Seq<Seq<char>> {
    Seq::new(plan.len(), |i: int| plan[i].dest_path)
}

/// What a plan depends on besides the files.
pub struct WiredContext {
    pub cfg: Config<Seq<char>>,
    pub ledger: LedgerModel,
    pub serial: Seq<char>,
    pub model: Option<Seq<char>>,
    /// The paths below the destination that exist.
    pub existing: Seq<Seq<char>>,
}

impl WiredContext {
    /// The name under which the ledger knows a file of this camera.
    pub open spec fn key(self, m: RemoteMedia<Seq<char>>) -> FileKey {
        FileKey {
            serial: self.serial,
            name: m.name,
            size: m.size,
            mtime_unix: m.captured_unix,
        }
    }

    /// True of a file that is left out: its kind is not wanted, or the ledger
    /// knows it.
    pub open spec fn skips(self, m: RemoteMedia<Seq<char>>) -> bool {
        ||| !wanted(kind_of(m.name), self.cfg.include_proxies, self.cfg.include_thumbnails)
        ||| self.ledger.has(self.key(m))
    }

    /// The download that is planned of a file, with the destinations that are
    /// planned already.
    pub open spec fn download_of(
        self,
        m: RemoteMedia<Seq<char>>,
        cap: Captured<Seq<char>>,
        reserved: Seq<Seq<char>>,
    ) -> PlannedWired<Seq<char>> {
        let name = rendered(
            self.cfg.filename_template,
            m.name,
            cap,
            Some(self.serial),
            self.model,
        );
        PlannedWired {
            media: m,
            dest_name: name,
            dest_path: free_path(self.cfg.dest_root, name, self.existing, reserved),
        }
    }

    /// The plan for files with their capture times: each file that is not left
    /// out, in order.
    pub open spec fn planned(
        self,
        media: Seq<RemoteMedia<Seq<char>>>,
        caps: Seq<Captured<Seq<char>>>,
    ) -> Seq<PlannedWired<Seq<char>>>
        decreases media.len(),
    {
        if media.len() == 0 {
            seq![]
        } else {
            let rest = self.planned(media.drop_last(), caps);
            let i = media.len() - 1;
            if self.skips(media[i]) {
                rest
            } else {
                rest.push(self.download_of(media[i], caps[i], wired_paths(rest)))
            }
        }
    }

    /// How many files are left out.
    pub open spec fn skipped(self, media: Seq<RemoteMedia<Seq<char>>>) -> nat
        decreases media.len(),
    {
        if media.len() == 0 {
            0
        } else {
            self.skipped(media.drop_last()) + if self.skips(media.last()) {
                1nat
            } else {
                0nat
            }
        }
    }
}

/// True of the local times of some files.
pub open spec fn local_times(
    media: Seq<RemoteMedia<Seq<char>>>,
    caps: Seq<Captured<Seq<char>>>,
) -> bool {
    &&& caps.len() == media.len()
    &&& forall|i: int|
        0 <= i < media.len() ==> local_capture((#[trigger] media[i]).captured_unix, caps[i])
}

/// The plan for files whose local times are known, and how many files were left
/// out.
pub fn plan_downloads(
    media: &Vec<RemoteMedia>,
    caps: &Vec<Captured>,
    cfg: &Config,
    ledger: &Ledger,
    serial: &str,
    model: Option<&str>,
    existing: &Vec<String>,
) -> (r: (Vec<PlannedWired>, usize))
    requires
        caps@.len() == media@.len(),
        existing@.len() + media@.len() < u32::MAX,
    ensures
        ({
            let cx = WiredContext {
                cfg: cfg@,
                ledger: ledger@,
                serial: serial@,
                model: opt_str_view(model),
                existing: views(existing@),
            };
            &&& wired_views(r.0@) == cx.planned(media_views(media@), captured_views(caps@))
            &&& r.1 == cx.skipped(media_views(media@))
            &&& r.0@.len() + r.1 == media@.len()
        }),
{
    let ghost cx = WiredContext {
        cfg: cfg@,
        ledger: ledger@,
        serial: serial@,
        model: opt_str_view(model),
        existing: views(existing@),
    };
    let ghost ms = media_views(media@);
    let ghost cs = captured_views(caps@);
    let mut plan: Vec<PlannedWired> = Vec::new();
    let mut reserved: Vec<String> = Vec::new();
    let mut skipped: usize = 0;
    let mut i: usize = 0;
    assert(ms.take(0) =~= seq![]);
    assert(wired_views(plan@) =~= seq![]);
    assert(views(reserved@) =~= wired_paths(seq![]));
    while i < media.len()
        invariant
            caps@.len() == media@.len(),
            existing@.len() + media@.len() < u32::MAX,
            i <= media@.len(),
            ms == media_views(media@),
            cs == captured_views(caps@),
            cx == (WiredContext {
                cfg: cfg@,
                ledger: ledger@,
                serial: serial@,
                model: opt_str_view(model),
                existing: views(existing@),
            }),
            wired_views(plan@) == cx.planned(ms.take(i as int), cs),
            views(reserved@) == wired_paths(wired_views(plan@)),
            reserved@.len() <= i,
            skipped == cx.skipped(ms.take(i as int)),
            plan@.len() + skipped == i,
        decreases media.len() - i,
    {
        let m = &media[i];
        proof {
            assert(ms.take(i + 1).drop_last() =~= ms.take(i as int));
            assert(ms.take(i + 1).last() == m@);
            assert(ms.take(i + 1)[i as int] == m@);
            assert(cs[i as int] == caps@[i as int]@);
        }
        let kind = classify(m.name.as_str());
        if !is_wanted(kind, cfg) || ledger.is_imported(
            serial,
            m.name.as_str(),
            m.size,
            m.captured_unix,
        ) {
            skipped += 1;
        } else {
            let name = render_name(
                cfg.filename_template.as_str(),
                m.name.as_str(),
                &caps[i],
                Some(serial),
                model,
            );
            let path = resolve_collision(cfg.dest_root.as_str(), name.as_str(), existing, &reserved);
            proof {
                free_path_is_first_free(cx.cfg.dest_root, name@, cx.existing, views(reserved@));
                first_free_is_unique(
                    cx.cfg.dest_root,
                    name@,
                    cx.existing,
                    views(reserved@),
                    path@,
                    free_path(cx.cfg.dest_root, name@, cx.existing, views(reserved@)),
                );
            }
            let ghost plan_before = wired_views(plan@);
            let ghost reserved_before = views(reserved@);
            let item = PlannedWired {
                media: m.clone(),
                dest_name: name,
                dest_path: path.clone(),
            };
            let ghost iv = item@;
            reserved.push(path);
            plan.push(item);
            proof {
                assert(wired_views(plan@) =~= plan_before.push(iv));
                assert(views(reserved@) =~= reserved_before.push(path@));
                assert(wired_paths(wired_views(plan@)) =~= wired_paths(plan_before).push(path@));
            }
        }
        i += 1;
    }
    assert(ms.take(i as int) =~= ms);
    (plan, skipped)
}

/// The local times of some files.
pub fn times_of(media: &Vec<RemoteMedia>) -> (r: Vec<Captured>)
    ensures
        local_times(media_views(media@), captured_views(r@)),
        r@.len() == media@.len(),
{
    let mut out: Vec<Captured> = Vec::new();
    let mut i: usize = 0;
    while i < media.len()
        invariant
            i <= media@.len(),
            out@.len() == i,
            forall|k: int|
                0 <= k < i ==> local_capture((#[trigger] media@[k])@.captured_unix, out@[k]@),
        decreases media.len() - i,
    {
        out.push(Captured::from_unix(media[i].captured_unix));
        i += 1;
    }
    proof {
        let ms = media_views(media@);
        let cs = captured_views(out@);
        assert forall|k: int| 0 <= k < ms.len() implies local_capture(
            (#[trigger] ms[k]).captured_unix,
            cs[k],
        ) by {
            assert(ms[k] == media@[k]@);
        }
    }
    out
}

/// Plans the downloads of the files of a camera: those whose kind is wanted and
/// that the ledger does not know, each to a free destination. Counts those that
/// are left out.
pub fn plan_wired(
    media: &Vec<RemoteMedia>,
    cfg: &Config,
    ledger: &Ledger,
    serial: &str,
    model: Option<&str>,
    existing: &Vec<String>,
) -> (r: (Vec<PlannedWired>, usize))
    requires
        existing@.len() + media@.len() < u32::MAX,
    ensures
        ({
            let cx = WiredContext {
                cfg: cfg@,
                ledger: ledger@,
                serial: serial@,
                model: opt_str_view(model),
                existing: views(existing@),
            };
            &&& exists|caps: Seq<Captured<Seq<char>>>| #[trigger]
                local_times(media_views(media@), caps) && wired_views(r.0@) == cx.planned(
                    media_views(media@),
                    caps,
                )
            &&& r.1 == cx.skipped(media_views(media@))
            &&& r.0@.len() + r.1 == media@.len()
        }),
{
    let caps = times_of(media);
    plan_downloads(media, &caps, cfg, ledger, serial, model, existing)
}

/// No two planned downloads share a destination, and no destination exists.
pub proof fn wired_plan_never_overwrites(
    cx: WiredContext,
    media: Seq<RemoteMedia<Seq<char>>>,
    caps: Seq<Captured<Seq<char>>>,
)
    ensures
        ({
            let plan = cx.planned(media, caps);
            &&& forall|j: int|
                0 <= j < plan.len() ==> !cx.existing.contains((#[trigger] plan[j]).dest_path)
            &&& forall|j: int, k: int|
                0 <= j < k < plan.len() ==> (#[trigger] plan[j]).dest_path != (
                #[trigger] plan[k]).dest_path
            &&& forall|j: int| 0 <= j < plan.len() ==> !cx.skips((#[trigger] plan[j]).media)
        }),
    decreases media.len(),
{
    if media.len() > 0 {
        let head = media.drop_last();
        wired_plan_never_overwrites(cx, head, caps);
        let rest = cx.planned(head, caps);
        let plan = cx.planned(media, caps);
        let i = media.len() - 1;
        let name = rendered(
            cx.cfg.filename_template,
            media[i].name,
            caps[i],
            Some(cx.serial),
            cx.model,
        );
        free_path_is_first_free(cx.cfg.dest_root, name, cx.existing, wired_paths(rest));
        assert forall|j: int, k: int| 0 <= j < k < plan.len() implies (#[trigger] plan[j]).dest_path
            != (#[trigger] plan[k]).dest_path by {
            assert(plan[j] == rest[j]);
            if k < rest.len() {
                assert(plan[k] == rest[k]);
            } else {
                assert(wired_paths(rest)[j] == plan[j].dest_path);
                assert(!taken(plan[k].dest_path, cx.existing, wired_paths(rest)));
            }
        }
    }
}

// ---- the run ----------------------------------------------------------------

/// The serial number and the model of a camera: a missing serial number is
/// `unknown`, a missing model none.
pub fn camera_identity(info: &CameraInfo) -> (r: (String, Option<String>))
    ensures
        r.0@ == (if info.serial@.len() == 0 {
            "unknown"@
        } else {
            info.serial@
        }),
        crate::text::opt_view(r.1) == (if info.model@.len() == 0 {
            None
        } else {
            Some(info.model@)
        }),
{
    let serial = if info.serial.as_str().is_empty() {
        "unknown".to_owned()
    } else {
        info.serial.clone()
    };
    let model = if info.model.as_str().is_empty() {
        None
    } else {
        Some(info.model.clone())
    };
    (serial, model)
}

/// What a run does next.
#[derive(Debug, PartialEq, Eq)]
pub enum WiredAction<S = String> {
    /// Download the item of this index into the partial file.
    Download { index: usize, part: S },
    /// Rename the partial file to the destination and, if `verify` is set, read
    /// it back and compare it with the hash.
    Place { part: S, dest: S, hash: S, verify: bool },
    /// Delete the item of this index from the camera.
    Delete { index: usize },
    /// The run is over.
    Done,
}

impl View for WiredAction<String> {
    type V = WiredAction<Seq<char>>;

    open spec fn view(&self) -> WiredAction<Seq<char>> {
        match *self {
            WiredAction::Download { index, part } => WiredAction::Download { index, part: part@ },
            WiredAction::Place { part, dest, hash, verify } => WiredAction::Place {
                part: part@,
                dest: dest@,
                hash: hash@,
                verify,
            },
            WiredAction::Delete { index } => WiredAction::Delete { index },
            WiredAction::Done => WiredAction::Done,
        }
    }
}

/// An offload run over USB.
#[derive(Debug)]
pub struct WiredRun {
    plan: Vec<PlannedWired>,
    serial: String,
    at: usize,
    skipped: usize,
    copied: usize,
    failed: usize,
    queued: usize,
    bytes: u64,
    /// The hash of the file that was downloaded last.
    hash: String,
    throttle: ProgressThrottle,
}

/// Where a run over USB stands.
#[verifier::ext_equal]
pub struct WiredModel {
    pub plan: Seq<PlannedWired<Seq<char>>>,
    pub serial: Seq<char>,
    pub at: int,
    pub skipped: int,
    pub copied: int,
    pub failed: int,
    pub queued: int,
    pub bytes: int,
    pub hash: Seq<char>,
    /// The size of the file that is downloaded, and the percent that was let
    /// through last.
    pub expected: nat,
    pub last_pct: int,
}

impl View for WiredRun {
    type V = WiredModel;

    closed spec fn view(&self) -> WiredModel {
        WiredModel {
            plan: wired_views(self.plan@),
            serial: self.serial@,
            at: self.at as int,
            skipped: self.skipped as int,
            copied: self.copied as int,
            failed: self.failed as int,
            queued: self.queued as int,
            bytes: self.bytes as int,
            hash: self.hash@,
            expected: self.throttle.total(),
            last_pct: self.throttle.last_pct(),
        }
    }
}

/// What a step of a run comes to: the run, the events and the action.
pub struct WiredStep {
    pub run: WiredModel,
    pub events: Seq<RunEvent<Seq<char>>>,
    pub action: WiredAction<Seq<char>>,
}

/// The failure of a file that did not come whole.
pub open spec fn size_mismatch(got: u64, expected: u64) -> Seq<char> {
    "size mismatch: got "@ + decimal(got as nat) + ", expected "@ + decimal(expected as nat)
}

impl WiredModel {
    /// A run over a plan that has not begun.
    pub open spec fn fresh(
        plan: Seq<PlannedWired<Seq<char>>>,
        skipped: int,
        serial: Seq<char>,
    ) -> WiredModel {
        WiredModel {
            plan,
            serial,
            at: 0,
            skipped,
            copied: 0,
            failed: 0,
            queued: 0,
            bytes: 0,
            hash: seq![],
            expected: 0,
            last_pct: -1,
        }
    }

    /// Each item before the one that the run is at was copied or failed.
    pub open spec fn well_formed(self) -> bool {
        &&& 0 <= self.at <= self.plan.len() <= usize::MAX
        &&& 0 <= self.failed
        &&& 0 <= self.queued <= self.copied
        &&& self.copied + self.failed == self.at
        &&& 0 <= self.skipped <= usize::MAX
    }

    /// True while the item that the run is at is counted as copied and is still
    /// to be deleted from the camera.
    pub open spec fn deleting(self) -> bool {
        &&& 0 <= self.at < self.plan.len() <= usize::MAX
        &&& 0 <= self.failed
        &&& 0 <= self.queued <= self.copied
        &&& self.copied + self.failed == self.at + 1
        &&& 0 <= self.skipped <= usize::MAX
    }

    /// What the run came to.
    pub open spec fn summary(self) -> RunSummary {
        RunSummary {
            copied: self.copied as usize,
            skipped: self.skipped as usize,
            failed: self.failed as usize,
            bytes: self.bytes as u64,
            queued: self.queued as usize,
        }
    }

    /// The name under which the ledger knows an item.
    pub open spec fn key(self, i: int) -> FileKey {
        let m = self.plan[i].media;
        FileKey { serial: self.serial, name: m.name, size: m.size, mtime_unix: m.captured_unix }
    }

    /// The run when it comes to an item, or behind the last one.
    pub open spec fn enter(self, i: int, events: Seq<RunEvent<Seq<char>>>) -> WiredStep {
        let run = WiredModel { at: i, ..self };
        if i < self.plan.len() {
            let item = self.plan[i];
            WiredStep {
                run: WiredModel { expected: item.media.size as nat, last_pct: -1, ..run },
                events: events.push(
                    RunEvent::Copying {
                        file: item.media.name,
                        index: (i + 1) as usize,
                        total: self.plan.len() as usize,
                    },
                ),
                action: WiredAction::Download { index: i as usize, part: part_of(item.dest_path) },
            }
        } else {
            let s = run.summary();
            WiredStep {
                run,
                events: events.push(
                    RunEvent::RunComplete {
                        copied: s.copied,
                        skipped: s.skipped,
                        failed: s.failed,
                        bytes: s.bytes,
                    },
                ),
                action: WiredAction::Done,
            }
        }
    }

    /// The run after the item that it is at has failed.
    pub open spec fn fail(self, error: Seq<char>) -> WiredStep {
        (WiredModel { failed: self.failed + 1, ..self }).enter(
            self.at + 1,
            seq![RunEvent::Failed { file: self.plan[self.at].media.name, error }],
        )
    }

    /// What the run does with the outcome of a download: the count and the hash of
    /// the bytes on disk, or the text of the failure.
    pub open spec fn downloaded(
        self,
        verify: bool,
        outcome: std::result::Result<(u64, Seq<char>), Seq<char>>,
    ) -> WiredStep {
        let item = self.plan[self.at];
        match outcome {
            Ok((n, hash)) => {
                if n != item.media.size {
                    self.fail(size_mismatch(n, item.media.size))
                } else {
                    WiredStep {
                        run: WiredModel { hash, ..self },
                        events: seq![],
                        action: WiredAction::Place {
                            part: part_of(item.dest_path),
                            dest: item.dest_path,
                            hash,
                            verify,
                        },
                    }
                }
            },
            Err(error) => self.fail(error),
        }
    }

    /// What the run does once the file stands at its destination, or could not be
    /// verified there, and the ledger afterwards.
    pub open spec fn placed(
        self,
        ledger: LedgerModel,
        cfg: Config<Seq<char>>,
        failure: Option<Seq<char>>,
    ) -> (WiredStep, LedgerModel) {
        let item = self.plan[self.at];
        let name = item.media.name;
        match failure {
            Some(error) => (self.fail(error), ledger),
            None => {
                let queues = mirror_of(cfg.cloud).queues();
                let n = item.media.size;
                let after = committed(
                    ledger,
                    cfg,
                    self.key(self.at),
                    item.dest_path,
                    item.dest_name,
                    Some(self.hash),
                    None,
                );
                let run = WiredModel {
                    bytes: self.bytes + n,
                    copied: self.copied + 1,
                    queued: self.queued + if queues {
                        1int
                    } else {
                        0int
                    },
                    ..self
                };
                let done = seq![
                    RunEvent::Progress { file: name, copied: n, total: n },
                    RunEvent::Verified { file: name },
                ];
                let events = if queues {
                    done.push(RunEvent::CloudQueued { file: name })
                } else {
                    done
                };
                if cfg.delete_after_verify && deletes_inline(true, mirror_of(cfg.cloud)) {
                    (
                        WiredStep {
                            run,
                            events,
                            action: WiredAction::Delete { index: self.at as usize },
                        },
                        after,
                    )
                } else {
                    (run.enter(self.at + 1, events), after)
                }
            },
        }
    }

    /// What the run does once the item was deleted from the camera, or could not
    /// be.
    pub open spec fn deleted(self, failure: Option<Seq<char>>) -> WiredStep {
        let name = self.plan[self.at].media.name;
        let event = match failure {
            None => RunEvent::CardFileDeleted { file: name },
            Some(e) => RunEvent::CardDeleteFailed { file: name, error: e },
        };
        self.enter(self.at + 1, seq![event])
    }
}

/// The bytes of a plan.
pub open spec fn wired_bytes(plan: Seq<PlannedWired<Seq<char>>>) -> int
    decreases plan.len(),
{
    if plan.len() == 0 {
        0
    } else {
        wired_bytes(plan.drop_last()) + plan.last().media.size
    }
}

proof fn lemma_wired_bytes(plan: Seq<PlannedWired<Seq<char>>>, k: int)
    requires
        0 <= k <= plan.len(),
    ensures
        0 <= wired_bytes(plan.take(k)) <= wired_bytes(plan),
    decreases plan.len() - k,
{
    lemma_wired_bytes_positive(plan.take(k));
    if k < plan.len() {
        lemma_wired_bytes(plan, k + 1);
        assert(plan.take(k + 1).drop_last() =~= plan.take(k));
    } else {
        assert(plan.take(k) =~= plan);
    }
}

proof fn lemma_wired_bytes_positive(plan: Seq<PlannedWired<Seq<char>>>)
    ensures
        0 <= wired_bytes(plan),
    decreases plan.len(),
{
    if plan.len() > 0 {
        lemma_wired_bytes_positive(plan.drop_last());
    }
}

/// The bytes of a plan.
pub fn sum_wired(plan: &Vec<PlannedWired>) -> (r: u64)
    requires
        wired_bytes(wired_views(plan@)) <= u64::MAX,
    ensures
        r == wired_bytes(wired_views(plan@)),
{
    let ghost p = wired_views(plan@);
    let mut total: u64 = 0;
    let mut i: usize = 0;
    assert(p.take(0) =~= seq![]);
    while i < plan.len()
        invariant
            i <= plan@.len(),
            p == wired_views(plan@),
            wired_bytes(p) <= u64::MAX,
            total == wired_bytes(p.take(i as int)),
        decreases plan.len() - i,
    {
        proof {
            lemma_wired_bytes(p, i + 1);
            assert(p.take(i + 1).drop_last() =~= p.take(i as int));
            assert(p.take(i + 1).last() == plan@[i as int]@);
        }
        total = total + plan[i].media.size;
        i += 1;
    }
    assert(p.take(i as int) =~= p);
    total
}

impl WiredRun {
    /// True between the items of a run.
    pub open spec fn well_formed(self) -> bool {
        self@.well_formed()
    }

    /// True while an item is to be deleted from the camera.
    pub open spec fn deleting(self) -> bool {
        self@.deleting()
    }

    /// Begins a run over a plan. `skipped` is the number of files left out of it.
    pub fn begin(plan: Vec<PlannedWired>, skipped: usize, serial: &str) -> (r: (
        WiredRun,
        Vec<RunEvent>,
        WiredAction,
    ))
        ensures
            ({
                let m = WiredModel::fresh(wired_views(plan@), skipped as int, serial@);
                let s = m.enter(0, seq![]);
                &&& r.0@ == s.run
                &&& event_views(r.1@) == s.events
                &&& r.2@ == s.action
            }),
            r.0.well_formed(),
    {
        let count: usize = plan.len();
        assert(wired_views(plan@).len() == count);
        let mut run = WiredRun {
            plan,
            serial: serial.to_owned(),
            at: 0,
            skipped,
            copied: 0,
            failed: 0,
            queued: 0,
            bytes: 0,
            hash: String::new(),
            throttle: ProgressThrottle::new(0),
        };
        let mut events: Vec<RunEvent> = Vec::new();
        assert(event_views(events@) =~= seq![]);
        assert(run.hash@ =~= seq![]);
        let action = run.enter(0, &mut events);
        (run, events, action)
    }

    /// Comes to an item, or behind the last one.
    fn enter(&mut self, i: usize, events: &mut Vec<RunEvent>) -> (action: WiredAction)
        requires
            i <= old(self)@.plan.len(),
            (WiredModel { at: i as int, ..old(self)@ }).well_formed(),
        ensures
            ({
                let s = old(self)@.enter(i as int, event_views(old(events)@));
                &&& final(self)@ == s.run
                &&& event_views(final(events)@) == s.events
                &&& action@ == s.action
            }),
            final(self)@.well_formed(),
    {
        assert(wired_views(self.plan@).len() == self.plan@.len());
        self.at = i;
        let total: usize = self.plan.len();
        if i < total {
            assert(wired_views(self.plan@)[i as int] == self.plan@[i as int]@);
            let item = &self.plan[i];
            push_event(
                events,
                RunEvent::Copying { file: item.media.name.clone(), index: i + 1, total },
            );
            let part = part_path(item.dest_path.as_str());
            self.throttle = ProgressThrottle::new(item.media.size);
            WiredAction::Download { index: i, part }
        } else {
            push_event(
                events,
                RunEvent::RunComplete {
                    copied: self.copied,
                    skipped: self.skipped,
                    failed: self.failed,
                    bytes: self.bytes,
                },
            );
            WiredAction::Done
        }
    }

    /// The item of an index.
    pub fn item(&self, index: usize) -> (r: &PlannedWired)
        requires
            index < self@.plan.len(),
        ensures
            r@ == self@.plan[index as int],
    {
        assert(wired_views(self.plan@)[index as int] == self.plan@[index as int]@);
        &self.plan[index]
    }

    /// What the run came to so far.
    pub fn summary(&self) -> (r: RunSummary)
        ensures
            r == self@.summary(),
    {
        RunSummary {
            copied: self.copied,
            skipped: self.skipped,
            failed: self.failed,
            bytes: self.bytes,
            queued: self.queued,
        }
    }

    /// Takes the count of bytes of the current file that lie on disk, and returns
    /// the event if one is due.
    pub fn progressed(&mut self, copied: u64) -> (r: Option<RunEvent>)
        requires
            old(self).well_formed(),
            old(self)@.at < old(self)@.plan.len(),
        ensures
            final(self)@ == (WiredModel {
                last_pct: percent_of(old(self)@.expected, copied as nat),
                ..old(self)@
            }),
            final(self).well_formed(),
            match r {
                Some(e) => {
                    &&& percent_of(old(self)@.expected, copied as nat) != old(self)@.last_pct
                    &&& e@ == (RunEvent::Progress {
                        file: old(self)@.plan[old(self)@.at].media.name,
                        copied,
                        total: old(self)@.plan[old(self)@.at].media.size,
                    })
                },
                None => percent_of(old(self)@.expected, copied as nat) == old(self)@.last_pct,
            },
    {
        assert(wired_views(self.plan@)[self.at as int] == self.plan@[self.at as int]@);
        if self.throttle.should_emit(copied) {
            let m = &self.plan[self.at].media;
            Some(RunEvent::Progress { file: m.name.clone(), copied, total: m.size })
        } else {
            None
        }
    }

    /// Counts the item that the run is at as failed, and goes on.
    fn fail(&mut self, error: String) -> (r: (Vec<RunEvent>, WiredAction))
        requires
            old(self)@.well_formed(),
            old(self)@.at < old(self)@.plan.len(),
        ensures
            ({
                let s = old(self)@.fail(error@);
                &&& final(self)@ == s.run
                &&& event_views(r.0@) == s.events
                &&& r.1@ == s.action
            }),
            final(self)@.well_formed(),
    {
        let mut events: Vec<RunEvent> = Vec::new();
        let i: usize = self.at;
        let total: usize = self.plan.len();
        assert(wired_views(self.plan@).len() == total);
        assert(wired_views(self.plan@)[i as int] == self.plan@[i as int]@);
        let file = self.plan[i].media.name.clone();
        let ghost name = file@;
        let ghost text = error@;
        push_event(&mut events, RunEvent::Failed { file, error });
        assert(event_views(events@) =~= seq![RunEvent::Failed { file: name, error: text }]);
        self.failed = self.failed + 1;
        let action = self.enter(i + 1, &mut events);
        (events, action)
    }

    /// Takes the outcome of a download: the count and the hash of the bytes on
    /// disk, or the text of the failure.
    pub fn downloaded(
        &mut self,
        verify: bool,
        outcome: std::result::Result<(u64, String), String>,
    ) -> (r: (Vec<RunEvent>, WiredAction))
        requires
            old(self).well_formed(),
            old(self)@.at < old(self)@.plan.len(),
        ensures
            ({
                let s = old(self)@.downloaded(
                    verify,
                    match outcome {
                        Ok((n, hash)) => Ok((n, hash@)),
                        Err(e) => Err(e@),
                    },
                );
                &&& final(self)@ == s.run
                &&& event_views(r.0@) == s.events
                &&& r.1@ == s.action
            }),
            final(self).well_formed(),
    {
        let i: usize = self.at;
        assert(wired_views(self.plan@)[i as int] == self.plan@[i as int]@);
        match outcome {
            Ok((n, hash)) => {
                let size: u64 = self.plan[i].media.size;
                if n != size {
                    let mut error = "size mismatch: got ".to_owned();
                    push_u64(&mut error, n);
                    error.append(", expected ");
                    push_u64(&mut error, size);
                    self.fail(error)
                } else {
                    let dest = self.plan[i].dest_path.clone();
                    let part = part_path(dest.as_str());
                    self.hash = hash.clone();
                    let events: Vec<RunEvent> = Vec::new();
                    assert(event_views(events@) =~= seq![]);
                    (events, WiredAction::Place { part, dest, hash, verify })
                }
            },
            Err(error) => self.fail(error),
        }
    }

    /// Takes the outcome of placing the file: `None` if it stands at its
    /// destination and was verified where that was asked for, or the text of the
    /// failure to verify it.
    pub fn placed(&mut self, ledger: &mut Ledger, cfg: &Config, failure: Option<String>) -> (r: (
        Vec<RunEvent>,
        WiredAction,
    ))
        requires
            old(self).well_formed(),
            old(self)@.at < old(self)@.plan.len(),
            max_import_id(old(ledger)@.imports) < i64::MAX,
            max_job_id(old(ledger)@.jobs) < i64::MAX,
            old(self)@.bytes + old(self)@.plan[old(self)@.at].media.size <= u64::MAX,
        ensures
            ({
                let (s, after) = old(self)@.placed(
                    old(ledger)@,
                    cfg@,
                    crate::text::opt_view(failure),
                );
                &&& final(self)@ == s.run
                &&& final(ledger)@ == after
                &&& event_views(r.0@) == s.events
                &&& r.1@ == s.action
            }),
            if r.1@ is Delete {
                final(self).deleting()
            } else {
                final(self).well_formed()
            },
    {
        let i: usize = self.at;
        let count: usize = self.plan.len();
        assert(wired_views(self.plan@).len() == count);
        assert(wired_views(self.plan@)[i as int] == self.plan@[i as int]@);
        match failure {
            Some(error) => self.fail(error),
            None => {
                let mut events: Vec<RunEvent> = Vec::new();
                assert(event_views(events@) =~= seq![]);
                let item = &self.plan[i];
                let n: u64 = item.media.size;
                push_event(
                    &mut events,
                    RunEvent::Progress { file: item.media.name.clone(), copied: n, total: n },
                );
                push_event(&mut events, RunEvent::Verified { file: item.media.name.clone() });
                assert(event_views(events@) =~= seq![
                    RunEvent::Progress { file: item@.media.name, copied: n, total: n },
                    RunEvent::Verified { file: item@.media.name },
                ]);
                let _id: i64 = commit_imported(
                    ledger,
                    cfg,
                    self.serial.as_str(),
                    item.media.name.as_str(),
                    n,
                    item.media.captured_unix,
                    item.dest_path.as_str(),
                    item.dest_name.as_str(),
                    Some(self.hash.as_str()),
                    None,
                );
                let mirror = cfg.mirror();
                let queues = mirror.is_queueing();
                if queues {
                    push_event(&mut events, RunEvent::CloudQueued { file: item.media.name.clone() });
                }
                self.bytes = self.bytes + n;
                self.copied = self.copied + 1;
                if queues {
                    self.queued = self.queued + 1;
                }
                if cfg.delete_after_verify && should_delete_card(true, mirror) {
                    (events, WiredAction::Delete { index: i })
                } else {
                    let action = self.enter(i + 1, &mut events);
                    (events, action)
                }
            },
        }
    }

    /// Takes the outcome of a deletion: `None`, or the text of its failure.
    pub fn deleted(&mut self, failure: Option<&str>) -> (r: (Vec<RunEvent>, WiredAction))
        requires
            old(self).deleting(),
        ensures
            ({
                let s = old(self)@.deleted(opt_str_view(failure));
                &&& final(self)@ == s.run
                &&& event_views(r.0@) == s.events
                &&& r.1@ == s.action
            }),
            final(self).well_formed(),
    {
        let mut events: Vec<RunEvent> = Vec::new();
        assert(event_views(events@) =~= seq![]);
        let i: usize = self.at;
        let count: usize = self.plan.len();
        assert(wired_views(self.plan@).len() == count);
        assert(wired_views(self.plan@)[i as int] == self.plan@[i as int]@);
        let file = self.plan[i].media.name.clone();
        let ghost name = file@;
        match failure {
            None => {
                push_event(&mut events, RunEvent::CardFileDeleted { file });
                assert(event_views(events@) =~= seq![RunEvent::CardFileDeleted { file: name }]);
            },
            Some(e) => {
                let error = e.to_owned();
                let ghost text = error@;
                push_event(&mut events, RunEvent::CardDeleteFailed { file, error });
                assert(event_views(events@) =~= seq![
                    RunEvent::CardDeleteFailed { file: name, error: text },
                ]);
            },
        }
        let action = self.enter(i + 1, &mut events);
        (events, action)
    }
}

// ---- laws -------------------------------------------------------------------

/// A file is deleted from the camera only after it was placed and verified, only
/// where that was asked for, and never in the automatic mode, in which the cloud
/// has yet to confirm it.
pub proof fn camera_files_are_deleted_only_when_safe(
    m: WiredModel,
    ledger: LedgerModel,
    cfg: Config<Seq<char>>,
    verify: bool,
    outcome: std::result::Result<(u64, Seq<char>), Seq<char>>,
    failure: Option<Seq<char>>,
)
    ensures
        !(m.downloaded(verify, outcome).action is Delete),
        m.placed(ledger, cfg, failure).0.action is Delete ==> failure is None
            && cfg.delete_after_verify && mirror_of(cfg.cloud) != MirrorMode::Auto,
        !(m.deleted(failure).action is Delete),
{
}

/// A file reaches the ledger only once it is placed and verified: a download that
/// does not come whole is not placed, and one that cannot be verified leaves the
/// ledger as it was.
pub proof fn only_placed_files_reach_the_ledger(
    m: WiredModel,
    ledger: LedgerModel,
    cfg: Config<Seq<char>>,
    verify: bool,
    outcome: std::result::Result<(u64, Seq<char>), Seq<char>>,
    error: Seq<char>,
)
    requires
        0 <= m.at < m.plan.len(),
    ensures
        m.downloaded(verify, outcome).action is Place ==> (outcome matches Ok(o) && o.0
            == m.plan[m.at].media.size),
        m.placed(ledger, cfg, Some(error)).1 == ledger,
        m.placed(ledger, cfg, None).1.has(m.key(m.at)),
{
    let after = m.placed(ledger, cfg, None).1;
    recording_forgets_nothing(
        ledger,
        after,
        m.key(m.at),
        m.plan[m.at].dest_path,
        Some(m.hash),
    );
}

impl WiredModel {
    /// True if a run that began with one ledger and is now at another has
    /// forgotten nothing, and has the first `upto` files on record unless a file
    /// failed.
    pub open spec fn has_on_record(
        self,
        before: LedgerModel,
        now: LedgerModel,
        upto: int,
    ) -> bool {
        &&& forall|k: FileKey| #[trigger] before.has(k) ==> now.has(k)
        &&& self.failed == 0 ==> forall|i: int| 0 <= i < upto ==> now.has(#[trigger] self.key(i))
    }
}

/// Every step of a run forgets nothing that was on record, and puts the file that
/// it is at on record before it goes on, unless that failed.
pub proof fn every_wired_step_keeps_the_record(
    m: WiredModel,
    before: LedgerModel,
    ledger: LedgerModel,
    cfg: Config<Seq<char>>,
    verify: bool,
    outcome: std::result::Result<(u64, Seq<char>), Seq<char>>,
    failure: Option<Seq<char>>,
)
    requires
        0 <= m.at < m.plan.len(),
        0 <= m.failed,
    ensures
        m.has_on_record(before, ledger, m.at) ==> {
            let s = m.downloaded(verify, outcome);
            s.run.has_on_record(before, ledger, s.run.at)
        },
        m.has_on_record(before, ledger, m.at) ==> {
            let (s, after) = m.placed(ledger, cfg, failure);
            if s.action is Delete {
                s.run.has_on_record(before, after, s.run.at + 1)
            } else {
                s.run.has_on_record(before, after, s.run.at)
            }
        },
        m.has_on_record(before, ledger, m.at + 1) ==> {
            let s = m.deleted(failure);
            s.run.has_on_record(before, ledger, s.run.at)
        },
{
    if m.has_on_record(before, ledger, m.at) {
        let d = m.downloaded(verify, outcome).run;
        assert forall|i: int| 0 <= i < d.at && d.failed == 0 implies ledger.has(
            #[trigger] d.key(i),
        ) by {
            assert(d.key(i) == m.key(i));
        }
        let (s, after) = m.placed(ledger, cfg, failure);
        if failure is None {
            recording_forgets_nothing(
                ledger,
                after,
                m.key(m.at),
                m.plan[m.at].dest_path,
                Some(m.hash),
            );
            assert forall|i: int| 0 <= i <= m.at && s.run.failed == 0 implies after.has(
                #[trigger] s.run.key(i),
            ) by {
                assert(s.run.key(i) == m.key(i));
            }
        }
    }
    if m.has_on_record(before, ledger, m.at + 1) {
        let d = m.deleted(failure).run;
        assert forall|i: int| 0 <= i < d.at && d.failed == 0 implies ledger.has(
            #[trigger] d.key(i),
        ) by {
            assert(d.key(i) == m.key(i));
        }
    }
}

/// A plan that was made knowing some of the paths that exist, and none of whose
/// destinations exists, is the plan that comes of knowing all of them.
pub proof fn a_looked_up_wired_plan_is_right(
    cx: WiredContext,
    media: Seq<RemoteMedia<Seq<char>>>,
    caps: Seq<Captured<Seq<char>>>,
    all: Seq<Seq<char>>,
)
    requires
        forall|p: Seq<char>| #[trigger] cx.existing.contains(p) ==> all.contains(p),
        forall|j: int|
            0 <= j < cx.planned(media, caps).len() ==> !all.contains(
                (#[trigger] cx.planned(media, caps)[j]).dest_path,
            ),
    ensures
        (WiredContext { existing: all, ..cx }).planned(media, caps) == cx.planned(media, caps),
    decreases media.len(),
{
    if media.len() > 0 {
        let head = media.drop_last();
        let rest = cx.planned(head, caps);
        let plan = cx.planned(media, caps);
        let i = media.len() - 1;
        assert forall|j: int| 0 <= j < rest.len() implies !all.contains(
            (#[trigger] rest[j]).dest_path,
        ) by {
            if !cx.skips(media[i]) {
                assert(plan[j] == rest[j]);
            }
        }
        a_looked_up_wired_plan_is_right(cx, head, caps, all);
        let full = WiredContext { existing: all, ..cx };
        assert(full.skips(media[i]) == cx.skips(media[i]));
        if !cx.skips(media[i]) {
            let name = rendered(
                cx.cfg.filename_template,
                media[i].name,
                caps[i],
                Some(cx.serial),
                cx.model,
            );
            let dir = cx.cfg.dest_root;
            assert(plan[plan.len() - 1].dest_path == free_path(
                dir,
                name,
                cx.existing,
                wired_paths(rest),
            ));
            untried_paths_do_not_matter(dir, name, cx.existing, all, wired_paths(rest));
        }
    }
}

/// Every listed file is planned or left out.
pub proof fn every_media_is_planned_or_skipped(
    cx: WiredContext,
    media: Seq<RemoteMedia<Seq<char>>>,
    caps: Seq<Captured<Seq<char>>>,
)
    ensures
        cx.planned(media, caps).len() + cx.skipped(media) == media.len(),
    decreases media.len(),
{
    if media.len() > 0 {
        every_media_is_planned_or_skipped(cx, media.drop_last(), caps);
    }
}

/// A file that is not left out is planned.
pub proof fn wanted_files_are_planned(
    cx: WiredContext,
    media: Seq<RemoteMedia<Seq<char>>>,
    caps: Seq<Captured<Seq<char>>>,
    i: int,
)
    requires
        0 <= i < media.len(),
        !cx.skips(media[i]),
    ensures
        exists|j: int|
            0 <= j < cx.planned(media, caps).len() && (#[trigger] cx.planned(media, caps)[j]).media
                == media[i],
    decreases media.len(),
{
    let head = media.drop_last();
    let rest = cx.planned(head, caps);
    let plan = cx.planned(media, caps);
    if i < head.len() {
        assert(head[i] == media[i]);
        wanted_files_are_planned(cx, head, caps, i);
        let j = choose|j: int| 0 <= j < rest.len() && (#[trigger] rest[j]).media == media[i];
        assert(plan[j] == rest[j]);
    } else {
        assert(plan[plan.len() - 1].media == media[i]);
    }
}

proof fn lemma_nothing_planned(
    cx: WiredContext,
    media: Seq<RemoteMedia<Seq<char>>>,
    caps: Seq<Captured<Seq<char>>>,
)
    requires
        forall|i: int| 0 <= i < media.len() ==> cx.skips(#[trigger] media[i]),
    ensures
        cx.planned(media, caps).len() == 0,
        cx.skipped(media) == media.len(),
    decreases media.len(),
{
    if media.len() > 0 {
        let head = media.drop_last();
        assert forall|i: int| 0 <= i < head.len() implies cx.skips(#[trigger] head[i]) by {
            assert(head[i] == media[i]);
        }
        lemma_nothing_planned(cx, head, caps);
        assert(cx.skips(media[media.len() - 1]));
    }
}

/// Offloading over USB is idempotent: after a complete run in which no file
/// failed, the same listing plans nothing, and every file is left out.
pub proof fn a_second_wired_run_downloads_nothing(
    cx: WiredContext,
    media: Seq<RemoteMedia<Seq<char>>>,
    caps: Seq<Captured<Seq<char>>>,
    run: WiredModel,
    ledger: LedgerModel,
    later_caps: Seq<Captured<Seq<char>>>,
    existing: Seq<Seq<char>>,
)
    requires
        run.plan == cx.planned(media, caps),
        run.serial == cx.serial,
        run.at == run.plan.len(),
        run.failed == 0,
        run.has_on_record(cx.ledger, ledger, run.at),
    ensures
        ({
            let next = WiredContext { ledger, existing, ..cx };
            &&& next.planned(media, later_caps).len() == 0
            &&& next.skipped(media) == media.len()
        }),
{
    let next = WiredContext { ledger, existing, ..cx };
    assert forall|i: int| 0 <= i < media.len() implies next.skips(#[trigger] media[i]) by {
        assert(next.key(media[i]) == cx.key(media[i]));
        if !cx.skips(media[i]) {
            wanted_files_are_planned(cx, media, caps, i);
            let j = choose|j: int| 0 <= j < run.plan.len() && (#[trigger] run.plan[j]).media
                == media[i];
            assert(run.key(j) == cx.key(media[i]));
            assert(ledger.has(run.key(j)));
        }
    }
    lemma_nothing_planned(next, media, later_caps);
}

} // verus!
