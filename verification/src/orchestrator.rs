//! One offload run: the events that it reports, and what it does next.

use crate::capture::Captured;
use crate::config::{clone_opt, mirror_of, Config, MirrorMode};
use crate::copy::CopyOutcome;
use crate::diskguard::{has_room, needed_space, space_needed};
use crate::error::{CoreError, Result};
use crate::ledger::{max_import_id, max_job_id, FileKey, Ledger, LedgerModel};
use crate::ledger_laws::recording_forgets_nothing;
use crate::progress::{percent_of, ProgressThrottle};
use crate::scanner::{
    a_known_card_plans_nothing, new_files_are_planned, plan_views, planned_files_are_new, CardFile,
    PlanContext, PlannedCopy,
};
use crate::text::{
    opt_view, or_text, trim_end, trim_start, trimmed_end, trimmed_start, CharSet,
};
use crate::transfer::{commit_imported, committed};
use vstd::prelude::*;

verus! {

/// The remote path of a file: its name below the root of the destination.
pub open spec fn remote_path_of(remote_root: Seq<char>, dest_name: Seq<char>) -> Seq<char> {
    let root = trimmed_end(remote_root, CharSet::Only('/'));
    let name = trimmed_start(dest_name, CharSet::Only('/'));
    if root.len() == 0 {
        name
    } else {
        root + "/"@ + name
    }
}

/// The remote path of a file: its name below the root of the destination, with
/// one separator between them whatever the system.
pub fn remote_path_for(remote_root: &str, dest_name: &str) -> (r: String)
    ensures
        r@ == remote_path_of(remote_root@, dest_name@),
{
    let root = trim_end(remote_root, CharSet::Only('/'));
    let name = trim_start(dest_name, CharSet::Only('/'));
    if root.as_str().is_empty() {
        name
    } else {
        let mut s = root;
        s.append("/");
        s.append(name.as_str());
        s
    }
}

/// True if the file on the card is deleted right after it was verified locally.
/// In the automatic mode that waits for the upload.
pub open spec fn deletes_inline(local_verified: bool, mirror: MirrorMode) -> bool {
    local_verified && mirror != MirrorMode::Auto
}

/// True if the file on the card is deleted right after it was verified locally.
pub fn should_delete_card(local_verified: bool, mirror: MirrorMode) -> (r: bool)
    ensures
        r == deletes_inline(local_verified, mirror),
{
    local_verified && mirror != MirrorMode::Auto
}

/// True if the card is ejected after a run. Where the worker has yet to delete
/// files from the card, it stays.
pub open spec fn ejects(auto_eject: bool, delete_after_verify: bool, mirror: MirrorMode) -> bool {
    auto_eject && !(delete_after_verify && mirror == MirrorMode::Auto)
}

/// True if the card is ejected after a run.
pub fn should_auto_eject(auto_eject: bool, delete_after_verify: bool, mirror: MirrorMode) -> (r:
    bool)
    ensures
        r == ejects(auto_eject, delete_after_verify, mirror),
{
    auto_eject && !(delete_after_verify && mirror == MirrorMode::Auto)
}

// ---- events -----------------------------------------------------------------

/// What a run reports.
#[derive(Debug, Clone, PartialEq, Eq)]
pub enum RunEvent<S = String> {
    /// The volume is no GoPro card.
    NotGoPro(S),
    CardDetected { model: Option<S>, serial: Option<S> },
    Scanned { new_files: usize, total_bytes: u64 },
    InsufficientSpace { need: u64, have: u64 },
    /// A file begins; files are counted from one.
    Copying { file: S, index: usize, total: usize },
    /// `copied` is what was copied of this file so far, `total` its size.
    Progress { file: S, copied: u64, total: u64 },
    Verified { file: S },
    /// The file stood at its destination already and was recorded.
    Skipped { file: S },
    Failed { file: S, error: S },
    CloudQueued { file: S },
    CardFileDeleted { file: S },
    /// The file was copied, but its source could not be deleted. This is no
    /// failed file.
    CardDeleteFailed { file: S, error: S },
    Ejected { mount: S },
    RunComplete { copied: usize, skipped: usize, failed: usize, bytes: u64 },
}

impl View for RunEvent<String> {
    type V = RunEvent<Seq<char>>;

    open spec fn view(&self) -> RunEvent<Seq<char>> {
        match *self {
            RunEvent::NotGoPro(p) => RunEvent::NotGoPro(p@),
            RunEvent::CardDetected { model, serial } => RunEvent::CardDetected {
                model: opt_view(model),
                serial: opt_view(serial),
            },
            RunEvent::Scanned { new_files, total_bytes } => RunEvent::Scanned {
                new_files,
                total_bytes,
            },
            RunEvent::InsufficientSpace { need, have } => RunEvent::InsufficientSpace { need, have },
            RunEvent::Copying { file, index, total } => RunEvent::Copying {
                file: file@,
                index,
                total,
            },
            RunEvent::Progress { file, copied, total } => RunEvent::Progress {
                file: file@,
                copied,
                total,
            },
            RunEvent::Verified { file } => RunEvent::Verified { file: file@ },
            RunEvent::Skipped { file } => RunEvent::Skipped { file: file@ },
            RunEvent::Failed { file, error } => RunEvent::Failed { file: file@, error: error@ },
            RunEvent::CloudQueued { file } => RunEvent::CloudQueued { file: file@ },
            RunEvent::CardFileDeleted { file } => RunEvent::CardFileDeleted { file: file@ },
            RunEvent::CardDeleteFailed { file, error } => RunEvent::CardDeleteFailed {
                file: file@,
                error: error@,
            },
            RunEvent::Ejected { mount } => RunEvent::Ejected { mount: mount@ },
            RunEvent::RunComplete { copied, skipped, failed, bytes } => RunEvent::RunComplete {
                copied,
                skipped,
                failed,
                bytes,
            },
        }
    }
}

/// The views of a list of events.
pub open spec fn event_views(v: Seq<RunEvent>) -> Seq<RunEvent<Seq<char>>> {
    Seq::new(v.len(), |i: int| v[i]@)
}

/// Appends an event.
pub fn push_event(events: &mut Vec<RunEvent>, e: RunEvent)
    ensures
        event_views(final(events)@) == event_views(old(events)@).push(e@),
{
    events.push(e);
    assert(event_views(events@) =~= event_views(old(events)@).push(e@));
}

/// What a run came to.
#[derive(Debug, Clone, Copy, PartialEq, Eq, Structural)]
pub struct RunSummary {
    pub copied: usize,
    pub skipped: usize,
    pub failed: usize,
    pub bytes: u64,
    pub queued: usize,
}

/// What a volume that is no GoPro card comes to.
pub fn empty_summary() -> (r: RunSummary)
    ensures
        r == (RunSummary { copied: 0, skipped: 0, failed: 0, bytes: 0, queued: 0 }),
{
    RunSummary { copied: 0, skipped: 0, failed: 0, bytes: 0, queued: 0 }
}

/// The first event of a run: the card that was detected, or that the volume is
/// none.
pub fn detection_event(
    card_root: &str,
    is_card: bool,
    model: &Option<String>,
    serial: &Option<String>,
) -> (r: RunEvent)
    ensures
        r@ == (if is_card {
            RunEvent::CardDetected { model: opt_view(*model), serial: opt_view(*serial) }
        } else {
            RunEvent::NotGoPro(card_root@)
        }),
{
    if is_card {
        RunEvent::CardDetected { model: clone_opt(model), serial: clone_opt(serial) }
    } else {
        RunEvent::NotGoPro(card_root.to_owned())
    }
}

// ---- the run ----------------------------------------------------------------

/// What a run does next.
#[derive(Debug, PartialEq, Eq)]
pub enum OffloadAction<S = String> {
    /// Look for a file at `path`.
    Probe { path: S },
    /// Copy the file at `position` of the scan to `dest`.
    Copy { position: usize, dest: S },
    /// Delete the file at `position` of the scan from the card.
    Delete { position: usize },
    /// Eject the card.
    Eject,
    /// The run is over.
    Done,
}

impl View for OffloadAction<String> {
    type V = OffloadAction<Seq<char>>;

    open spec fn view(&self) -> OffloadAction<Seq<char>> {
        match *self {
            OffloadAction::Probe { path } => OffloadAction::Probe { path: path@ },
            OffloadAction::Copy { position, dest } => OffloadAction::Copy { position, dest: dest@ },
            OffloadAction::Delete { position } => OffloadAction::Delete { position },
            OffloadAction::Eject => OffloadAction::Eject,
            OffloadAction::Done => OffloadAction::Done,
        }
    }
}

/// An offload run.
#[derive(Debug)]
pub struct Offload {
    plan: Vec<PlannedCopy>,
    serial_key: String,
    mount: String,
    /// The index of the item that the run is at.
    at: usize,
    /// The files that the ledger knew before the run.
    known: usize,
    recovered: usize,
    copied: usize,
    failed: usize,
    queued: usize,
    bytes: u64,
    throttle: ProgressThrottle,
}

/// Where an offload run stands.
#[verifier::ext_equal]
pub struct OffloadModel {
    pub plan: Seq<PlannedCopy<Seq<char>>>,
    pub serial_key: Seq<char>,
    pub mount: Seq<char>,
    pub at: int,
    pub known: int,
    pub recovered: int,
    pub copied: int,
    pub failed: int,
    pub queued: int,
    pub bytes: int,
    /// The size of the file that is copied, and the percent that was let through
    /// last.
    pub expected: nat,
    pub last_pct: int,
}

impl View for Offload {
    type V = OffloadModel;

    closed spec fn view(&self) -> OffloadModel {
        OffloadModel {
            plan: plan_views(self.plan@),
            serial_key: self.serial_key@,
            mount: self.mount@,
            at: self.at as int,
            known: self.known as int,
            recovered: self.recovered as int,
            copied: self.copied as int,
            failed: self.failed as int,
            queued: self.queued as int,
            bytes: self.bytes as int,
            expected: self.throttle.total(),
            last_pct: self.throttle.last_pct(),
        }
    }
}

/// The bytes of a plan.
pub open spec fn plan_bytes(plan: Seq<PlannedCopy<Seq<char>>>) -> int
    decreases plan.len(),
{
    if plan.len() == 0 {
        0
    } else {
        plan_bytes(plan.drop_last()) + plan.last().size
    }
}

/// What a step of a run comes to: the run, the ledger, the events and the action.
pub struct OffloadStep {
    pub run: OffloadModel,
    pub ledger: LedgerModel,
    pub events: Seq<RunEvent<Seq<char>>>,
    pub action: OffloadAction<Seq<char>>,
}

impl OffloadModel {
    /// A run over a plan that has not begun.
    pub open spec fn fresh(
        plan: Seq<PlannedCopy<Seq<char>>>,
        known: int,
        serial_key: Seq<char>,
        mount: Seq<char>,
    ) -> OffloadModel {
        OffloadModel {
            plan,
            serial_key,
            mount,
            at: 0,
            known,
            recovered: 0,
            copied: 0,
            failed: 0,
            queued: 0,
            bytes: 0,
            expected: 0,
            last_pct: -1,
        }
    }

    /// Each item before the one that the run is at was copied, recovered or
    /// failed, and the counts fit.
    pub open spec fn well_formed(self) -> bool {
        &&& 0 <= self.at <= self.plan.len()
        &&& 0 <= self.recovered
        &&& 0 <= self.failed
        &&& 0 <= self.queued <= self.copied
        &&& self.copied + self.recovered + self.failed == self.at
        &&& 0 <= self.known
        &&& self.known + self.plan.len() <= usize::MAX
    }

    /// True while the file that the run is at is counted as copied and its source
    /// is still to be deleted.
    pub open spec fn deleting(self) -> bool {
        &&& 0 <= self.at < self.plan.len()
        &&& 0 <= self.recovered
        &&& 0 <= self.failed
        &&& 0 <= self.queued <= self.copied
        &&& self.copied + self.recovered + self.failed == self.at + 1
        &&& 0 <= self.known
        &&& self.known + self.plan.len() <= usize::MAX
    }

    /// The name under which the ledger knows an item.
    pub open spec fn key(self, i: int) -> FileKey {
        FileKey {
            serial: self.serial_key,
            name: self.plan[i].name,
            size: self.plan[i].size,
            mtime_unix: self.plan[i].mtime_unix,
        }
    }

    /// What the run came to.
    pub open spec fn summary(self) -> RunSummary {
        RunSummary {
            copied: self.copied as usize,
            skipped: (self.known + self.recovered) as usize,
            failed: self.failed as usize,
            bytes: self.bytes as u64,
            queued: self.queued as usize,
        }
    }

    /// The run when it copies the item that it is at.
    pub open spec fn copying(
        self,
        ledger: LedgerModel,
        events: Seq<RunEvent<Seq<char>>>,
    ) -> OffloadStep {
        let item = self.plan[self.at];
        OffloadStep {
            run: OffloadModel { expected: item.size as nat, last_pct: -1, ..self },
            ledger,
            events: events.push(
                RunEvent::Copying {
                    file: item.name,
                    index: (self.at + 1) as usize,
                    total: self.plan.len() as usize,
                },
            ),
            action: OffloadAction::Copy { position: item.position, dest: item.dest_path },
        }
    }

    /// The run when it comes to an item: it looks for a file that an earlier run
    /// left at the destination, unless the ledger knows the item. Behind the last
    /// item the run is complete, and the card is ejected where that is asked for.
    pub open spec fn enter(
        self,
        i: int,
        ledger: LedgerModel,
        cfg: Config<Seq<char>>,
        events: Seq<RunEvent<Seq<char>>>,
    ) -> OffloadStep {
        let run = OffloadModel { at: i, ..self };
        if i < self.plan.len() {
            if ledger.has(self.key(i)) {
                run.copying(ledger, events)
            } else {
                OffloadStep {
                    run,
                    ledger,
                    events,
                    action: OffloadAction::Probe { path: self.plan[i].canonical_dest_path },
                }
            }
        } else {
            let s = run.summary();
            OffloadStep {
                run,
                ledger,
                events: events.push(
                    RunEvent::RunComplete {
                        copied: s.copied,
                        skipped: s.skipped,
                        failed: s.failed,
                        bytes: s.bytes,
                    },
                ),
                action: if ejects(cfg.auto_eject, cfg.delete_after_verify, mirror_of(cfg.cloud)) {
                    OffloadAction::Eject
                } else {
                    OffloadAction::Done
                },
            }
        }
    }

    /// What the run does once it knows the size of the file at the destination,
    /// if one is there: a file of the right size is recorded, and otherwise the
    /// item is copied.
    pub open spec fn probed(
        self,
        ledger: LedgerModel,
        cfg: Config<Seq<char>>,
        found: Option<u64>,
    ) -> OffloadStep {
        let item = self.plan[self.at];
        if found == Some(item.size) {
            (OffloadModel { recovered: self.recovered + 1, ..self }).enter(
                self.at + 1,
                ledger.recorded(self.key(self.at), item.canonical_dest_path, None),
                cfg,
                seq![RunEvent::Skipped { file: item.name }],
            )
        } else {
            self.copying(ledger, seq![])
        }
    }

    /// What the run does with the outcome of a copy.
    pub open spec fn copied(
        self,
        ledger: LedgerModel,
        cfg: Config<Seq<char>>,
        outcome: std::result::Result<CopyOutcome<Seq<char>>, Seq<char>>,
    ) -> OffloadStep {
        let item = self.plan[self.at];
        match outcome {
            Ok(out) => {
                let queues = mirror_of(cfg.cloud).queues();
                let after = committed(
                    ledger,
                    cfg,
                    self.key(self.at),
                    item.dest_path,
                    item.dest_name,
                    out.hash,
                    Some(item.src),
                );
                let run = OffloadModel {
                    bytes: self.bytes + out.bytes,
                    copied: self.copied + 1,
                    queued: self.queued + if queues {
                        1int
                    } else {
                        0int
                    },
                    ..self
                };
                let done = seq![
                    RunEvent::Progress { file: item.name, copied: out.bytes, total: out.bytes },
                    RunEvent::Verified { file: item.name },
                ];
                let events = if queues {
                    done.push(RunEvent::CloudQueued { file: item.name })
                } else {
                    done
                };
                if cfg.delete_after_verify && deletes_inline(true, mirror_of(cfg.cloud)) {
                    OffloadStep {
                        run,
                        ledger: after,
                        events,
                        action: OffloadAction::Delete { position: item.position },
                    }
                } else {
                    run.enter(self.at + 1, after, cfg, events)
                }
            },
            Err(error) => (OffloadModel { failed: self.failed + 1, ..self }).enter(
                self.at + 1,
                ledger,
                cfg,
                seq![RunEvent::Failed { file: item.name, error }],
            ),
        }
    }

    /// What the run does once the source was deleted, or could not be.
    pub open spec fn deleted(
        self,
        ledger: LedgerModel,
        cfg: Config<Seq<char>>,
        failure: Option<Seq<char>>,
    ) -> OffloadStep {
        let item = self.plan[self.at];
        let event = match failure {
            None => RunEvent::CardFileDeleted { file: item.name },
            Some(e) => RunEvent::CardDeleteFailed { file: item.name, error: e },
        };
        self.enter(self.at + 1, ledger, cfg, seq![event])
    }
}

/// The start of a run: the event of the scan, and the refusal if the destination
/// is too full.
pub open spec fn guarded(new_files: usize, total_bytes: u64, headroom: u64, available: u64) -> (
    Seq<RunEvent<Seq<char>>>,
    Option<CoreError<Seq<char>>>,
) {
    let need = space_needed(total_bytes as nat, headroom as nat) as u64;
    let scanned = seq![RunEvent::Scanned { new_files, total_bytes }];
    if available >= need {
        (scanned, None)
    } else {
        (
            scanned.push(RunEvent::InsufficientSpace { need, have: available }),
            Some(CoreError::InsufficientSpace { need, have: available }),
        )
    }
}

/// The bytes of a plan.
pub fn sum_sizes(plan: &Vec<PlannedCopy>) -> (r: u64)
    requires
        plan_bytes(plan_views(plan@)) <= u64::MAX,
    ensures
        r == plan_bytes(plan_views(plan@)),
{
    let ghost p = plan_views(plan@);
    let mut total: u64 = 0;
    let mut i: usize = 0;
    assert(p.take(0) =~= seq![]);
    while i < plan.len()
        invariant
            i <= plan@.len(),
            p == plan_views(plan@),
            plan_bytes(p) <= u64::MAX,
            total == plan_bytes(p.take(i as int)),
        decreases plan.len() - i,
    {
        proof {
            lemma_plan_bytes(p, i + 1);
            assert(p.take(i + 1).drop_last() =~= p.take(i as int));
            assert(p.take(i + 1).last() == plan@[i as int]@);
        }
        total = total + plan[i].size;
        i += 1;
    }
    assert(p.take(i as int) =~= p);
    total
}

proof fn lemma_plan_bytes(plan: Seq<PlannedCopy<Seq<char>>>, k: int)
    requires
        0 <= k <= plan.len(),
    ensures
        0 <= plan_bytes(plan.take(k)) <= plan_bytes(plan),
    decreases plan.len() - k,
{
    if k < plan.len() {
        lemma_plan_bytes(plan, k + 1);
        assert(plan.take(k + 1).drop_last() =~= plan.take(k));
        lemma_plan_bytes_positive(plan.take(k));
    } else {
        assert(plan.take(k) =~= plan);
        lemma_plan_bytes_positive(plan);
    }
}

proof fn lemma_plan_bytes_positive(plan: Seq<PlannedCopy<Seq<char>>>)
    ensures
        0 <= plan_bytes(plan),
    decreases plan.len(),
{
    if plan.len() > 0 {
        lemma_plan_bytes_positive(plan.drop_last());
    }
}

/// Reports a scan and checks that the destination has room for it.
pub fn guard_space(new_files: usize, total_bytes: u64, headroom: u64, available: u64) -> (r: (
    Vec<RunEvent>,
    Option<CoreError>,
))
    ensures
        event_views(r.0@) == guarded(new_files, total_bytes, headroom, available).0,
        match r.1 {
            Some(e) => guarded(new_files, total_bytes, headroom, available).1 == Some(e@),
            None => guarded(new_files, total_bytes, headroom, available).1 is None,
        },
{
    let mut events: Vec<RunEvent> = Vec::new();
    assert(event_views(events@) =~= seq![]);
    push_event(&mut events, RunEvent::Scanned { new_files, total_bytes });
    assert(event_views(events@) =~= seq![RunEvent::Scanned { new_files, total_bytes }]);
    if has_room(available, total_bytes, headroom) {
        (events, None)
    } else {
        let need: u64 = needed_space(total_bytes, headroom);
        push_event(&mut events, RunEvent::InsufficientSpace { need, have: available });
        (events, Some(CoreError::InsufficientSpace { need, have: available }))
    }
}

impl Offload {
    /// True between the items of a run.
    pub open spec fn well_formed(self) -> bool {
        self@.well_formed()
    }

    /// True while a source is to be deleted.
    pub open spec fn deleting(self) -> bool {
        self@.deleting()
    }

    /// Begins a run over a plan. `known` is the number of files that the ledger
    /// knew; `serial` is the card's.
    pub fn begin(
        plan: Vec<PlannedCopy>,
        known: usize,
        serial: Option<&str>,
        mount: &str,
        ledger: &Ledger,
        cfg: &Config,
    ) -> (r: (Offload, Vec<RunEvent>, OffloadAction))
        requires
            known + plan@.len() <= usize::MAX,
        ensures
            ({
                let m = OffloadModel::fresh(
                    plan_views(plan@),
                    known as int,
                    or_text(crate::text::opt_str_view(serial), "unknown"@),
                    mount@,
                );
                let s = m.enter(0, ledger@, cfg@, seq![]);
                &&& r.0@ == s.run
                &&& event_views(r.1@) == s.events
                &&& r.2@ == s.action
            }),
            r.0.well_formed(),
    {
        let serial_key: &str = match serial {
            Some(s) => s,
            None => "unknown",
        };
        let mut run = Offload {
            plan,
            serial_key: serial_key.to_owned(),
            mount: mount.to_owned(),
            at: 0,
            known,
            recovered: 0,
            copied: 0,
            failed: 0,
            queued: 0,
            bytes: 0,
            throttle: ProgressThrottle::new(0),
        };
        let mut events: Vec<RunEvent> = Vec::new();
        assert(event_views(events@) =~= seq![]);
        let action = run.enter(0, ledger, cfg, &mut events);
        (run, events, action)
    }

    /// Copies the item that the run is at.
    fn copying(&mut self, ledger: &Ledger, events: &mut Vec<RunEvent>) -> (action: OffloadAction)
        requires
            old(self)@.at < old(self)@.plan.len(),
            old(self)@.well_formed(),
        ensures
            ({
                let s = old(self)@.copying(ledger@, event_views(old(events)@));
                &&& final(self)@ == s.run
                &&& event_views(final(events)@) == s.events
                &&& action@ == s.action
            }),
            final(self)@.well_formed(),
    {
        let i: usize = self.at;
        let total: usize = self.plan.len();
        assert(plan_views(self.plan@)[i as int] == self.plan@[i as int]@);
        let item = &self.plan[i];
        push_event(events, RunEvent::Copying { file: item.name.clone(), index: i + 1, total });
        let action = OffloadAction::Copy { position: item.position, dest: item.dest_path.clone() };
        self.throttle = ProgressThrottle::new(item.size);
        action
    }

    /// Comes to an item.
    fn enter(&mut self, i: usize, ledger: &Ledger, cfg: &Config, events: &mut Vec<RunEvent>) -> (
        action: OffloadAction)
        requires
            i <= old(self)@.plan.len(),
            (OffloadModel { at: i as int, ..old(self)@ }).well_formed(),
        ensures
            ({
                let s = old(self)@.enter(i as int, ledger@, cfg@, event_views(old(events)@));
                &&& final(self)@ == s.run
                &&& event_views(final(events)@) == s.events
                &&& action@ == s.action
            }),
            final(self)@.well_formed(),
    {
        assert(plan_views(self.plan@).len() == self.plan@.len());
        self.at = i;
        if i < self.plan.len() {
            assert(plan_views(self.plan@)[i as int] == self.plan@[i as int]@);
            let item = &self.plan[i];
            if ledger.is_imported(
                self.serial_key.as_str(),
                item.name.as_str(),
                item.size,
                item.mtime_unix,
            ) {
                self.copying(ledger, events)
            } else {
                OffloadAction::Probe { path: item.canonical_dest_path.clone() }
            }
        } else {
            let s = self.summary();
            push_event(
                events,
                RunEvent::RunComplete {
                    copied: s.copied,
                    skipped: s.skipped,
                    failed: s.failed,
                    bytes: s.bytes,
                },
            );
            if should_auto_eject(cfg.auto_eject, cfg.delete_after_verify, cfg.mirror()) {
                OffloadAction::Eject
            } else {
                OffloadAction::Done
            }
        }
    }

    /// What the run came to so far.
    pub fn summary(&self) -> (r: RunSummary)
        requires
            self.well_formed() || self.deleting(),
        ensures
            r == self@.summary(),
    {
        RunSummary {
            copied: self.copied,
            skipped: self.known + self.recovered,
            failed: self.failed,
            bytes: self.bytes,
            queued: self.queued,
        }
    }

    /// Takes the size of the file at the path that was looked at; `None` if no
    /// file is there.
    pub fn probed(&mut self, ledger: &mut Ledger, cfg: &Config, found: Option<u64>) -> (r: (
        Vec<RunEvent>,
        OffloadAction,
    ))
        requires
            old(self).well_formed(),
            old(self)@.at < old(self)@.plan.len(),
            max_import_id(old(ledger)@.imports) < i64::MAX,
        ensures
            ({
                let s = old(self)@.probed(old(ledger)@, cfg@, found);
                &&& final(self)@ == s.run
                &&& final(ledger)@ == s.ledger
                &&& event_views(r.0@) == s.events
                &&& r.1@ == s.action
            }),
            final(self).well_formed(),
    {
        let mut events: Vec<RunEvent> = Vec::new();
        assert(event_views(events@) =~= seq![]);
        let i: usize = self.at;
        assert(plan_views(self.plan@)[i as int] == self.plan@[i as int]@);
        let item = &self.plan[i];
        let there = match found {
            Some(len) => len == item.size,
            None => false,
        };
        if there {
            let _id: i64 = ledger.record(
                self.serial_key.as_str(),
                item.name.as_str(),
                item.size,
                item.mtime_unix,
                item.canonical_dest_path.as_str(),
                None,
            );
            push_event(&mut events, RunEvent::Skipped { file: item.name.clone() });
            assert(event_views(events@) =~= seq![RunEvent::Skipped { file: item@.name }]);
            self.recovered = self.recovered + 1;
            let action = self.enter(i + 1, ledger, cfg, &mut events);
            (events, action)
        } else {
            let action = self.copying(ledger, &mut events);
            (events, action)
        }
    }

    /// Takes the count of bytes that were copied of the current file, and returns
    /// the event if one is due.
    pub fn progressed(&mut self, copied: u64) -> (r: Option<RunEvent>)
        requires
            old(self).well_formed(),
            old(self)@.at < old(self)@.plan.len(),
        ensures
            final(self)@ == (OffloadModel {
                last_pct: percent_of(old(self)@.expected, copied as nat),
                ..old(self)@
            }),
            final(self).well_formed(),
            match r {
                Some(e) => {
                    &&& percent_of(old(self)@.expected, copied as nat) != old(self)@.last_pct
                    &&& e@ == (RunEvent::Progress {
                        file: old(self)@.plan[old(self)@.at].name,
                        copied,
                        total: old(self)@.plan[old(self)@.at].size,
                    })
                },
                None => percent_of(old(self)@.expected, copied as nat) == old(self)@.last_pct,
            },
    {
        assert(plan_views(self.plan@)[self.at as int] == self.plan@[self.at as int]@);
        if self.throttle.should_emit(copied) {
            let item = &self.plan[self.at];
            Some(RunEvent::Progress { file: item.name.clone(), copied, total: item.size })
        } else {
            None
        }
    }

    /// Takes the outcome of a copy, or the text of its failure.
    pub fn copied(
        &mut self,
        ledger: &mut Ledger,
        cfg: &Config,
        outcome: std::result::Result<CopyOutcome, String>,
    ) -> (r: (Vec<RunEvent>, OffloadAction))
        requires
            old(self).well_formed(),
            old(self)@.at < old(self)@.plan.len(),
            max_import_id(old(ledger)@.imports) < i64::MAX,
            max_job_id(old(ledger)@.jobs) < i64::MAX,
            outcome matches Ok(out) ==> old(self)@.bytes + out.bytes <= u64::MAX,
        ensures
            ({
                let s = old(self)@.copied(
                    old(ledger)@,
                    cfg@,
                    match outcome {
                        Ok(out) => Ok(out@),
                        Err(e) => Err(e@),
                    },
                );
                &&& final(self)@ == s.run
                &&& final(ledger)@ == s.ledger
                &&& event_views(r.0@) == s.events
                &&& r.1@ == s.action
            }),
            if r.1@ is Delete {
                final(self).deleting()
            } else {
                final(self).well_formed()
            },
    {
        let mut events: Vec<RunEvent> = Vec::new();
        assert(event_views(events@) =~= seq![]);
        let i: usize = self.at;
        assert(plan_views(self.plan@)[i as int] == self.plan@[i as int]@);
        let item = &self.plan[i];
        match outcome {
            Ok(out) => {
                let n: u64 = out.bytes;
                let hash: Option<&str> = match &out.hash {
                    Some(h) => Some(h.as_str()),
                    None => None,
                };
                let _id: i64 = commit_imported(
                    ledger,
                    cfg,
                    self.serial_key.as_str(),
                    item.name.as_str(),
                    item.size,
                    item.mtime_unix,
                    item.dest_path.as_str(),
                    item.dest_name.as_str(),
                    hash,
                    Some(item.src.as_str()),
                );
                push_event(
                    &mut events,
                    RunEvent::Progress { file: item.name.clone(), copied: n, total: n },
                );
                push_event(&mut events, RunEvent::Verified { file: item.name.clone() });
                assert(event_views(events@) =~= seq![
                    RunEvent::Progress { file: item@.name, copied: n, total: n },
                    RunEvent::Verified { file: item@.name },
                ]);
                let mirror = cfg.mirror();
                let queues = mirror.is_queueing();
                if queues {
                    push_event(&mut events, RunEvent::CloudQueued { file: item.name.clone() });
                }
                let position: usize = item.position;
                self.bytes = self.bytes + n;
                self.copied = self.copied + 1;
                if queues {
                    self.queued = self.queued + 1;
                }
                if cfg.delete_after_verify && should_delete_card(true, mirror) {
                    (events, OffloadAction::Delete { position })
                } else {
                    let action = self.enter(i + 1, ledger, cfg, &mut events);
                    (events, action)
                }
            },
            Err(error) => {
                let ghost text = error@;
                push_event(&mut events, RunEvent::Failed { file: item.name.clone(), error });
                assert(event_views(events@) =~= seq![
                    RunEvent::Failed { file: item@.name, error: text },
                ]);
                self.failed = self.failed + 1;
                let action = self.enter(i + 1, ledger, cfg, &mut events);
                (events, action)
            },
        }
    }

    /// Takes the outcome of a deletion: `None`, or the text of its failure.
    pub fn deleted(&mut self, ledger: &Ledger, cfg: &Config, failure: Option<&str>) -> (r: (
        Vec<RunEvent>,
        OffloadAction,
    ))
        requires
            old(self).deleting(),
        ensures
            ({
                let s = old(self)@.deleted(ledger@, cfg@, crate::text::opt_str_view(failure));
                &&& final(self)@ == s.run
                &&& event_views(r.0@) == s.events
                &&& r.1@ == s.action
            }),
            final(self).well_formed(),
    {
        let mut events: Vec<RunEvent> = Vec::new();
        assert(event_views(events@) =~= seq![]);
        let i: usize = self.at;
        assert(plan_views(self.plan@)[i as int] == self.plan@[i as int]@);
        let file = self.plan[i].name.clone();
        let ghost name = file@;
        match failure {
            None => {
                push_event(&mut events, RunEvent::CardFileDeleted { file });
                assert(event_views(events@) =~= seq![RunEvent::CardFileDeleted { file: name }]);
            },
            Some(e) => {
                let error = e.to_owned();
                let ghost text = error@;
                push_event(&mut events, RunEvent::CardDeleteFailed { file, error });
                assert(event_views(events@) =~= seq![
                    RunEvent::CardDeleteFailed { file: name, error: text },
                ]);
            },
        }
        let action = self.enter(i + 1, ledger, cfg, &mut events);
        (events, action)
    }

    /// The event that says how the ejection of the card went: `None`, or the text
    /// of its failure.
    pub fn ejected(&self, failure: Option<&str>) -> (r: RunEvent)
        ensures
            r@ == (match failure {
                None => RunEvent::Ejected { mount: self@.mount },
                Some(e) => RunEvent::Failed {
                    file: self@.mount,
                    error: "auto-eject failed: "@ + e@,
                },
            }),
    {
        match failure {
            None => RunEvent::Ejected { mount: self.mount.clone() },
            Some(e) => {
                let mut error = "auto-eject failed: ".to_owned();
                error.append(e);
                RunEvent::Failed { file: self.mount.clone(), error }
            },
        }
    }
}

// ---- laws -------------------------------------------------------------------

/// A run that takes in a file puts it on record, so that the next run leaves it
/// out; a file that failed leaves the ledger as it was, so that the next run tries
/// it again.
pub proof fn the_ledger_knows_what_was_copied(
    m: OffloadModel,
    ledger: LedgerModel,
    cfg: Config<Seq<char>>,
    out: CopyOutcome<Seq<char>>,
    error: Seq<char>,
)
    requires
        0 <= m.at < m.plan.len(),
    ensures
        m.copied(ledger, cfg, Ok(out)).ledger.has(m.key(m.at)),
        m.copied(ledger, cfg, Err(error)).ledger == ledger,
        m.probed(ledger, cfg, Some(m.plan[m.at].size)).ledger.has(m.key(m.at)),
{
    let item = m.plan[m.at];
    let key = m.key(m.at);
    let after = m.copied(ledger, cfg, Ok(out)).ledger;
    recording_forgets_nothing(ledger, after, key, item.dest_path, out.hash);
    let found = m.probed(ledger, cfg, Some(item.size)).ledger;
    recording_forgets_nothing(ledger, found, key, item.canonical_dest_path, None);
}

impl OffloadModel {
    /// True if a run that began with one ledger and is now at another has
    /// forgotten nothing, and has the first `upto` files on record unless a file
    /// failed.
    pub open spec fn has_on_record(
        self,
        before: LedgerModel,
        now: LedgerModel,
        upto: int,
    ) -> bool {
        &&& forall|k: FileKey| #[trigger] before.has(k) ==> now.has(k)
        &&& self.failed == 0 ==> forall|i: int| 0 <= i < upto ==> now.has(#[trigger] self.key(i))
    }
}

/// Every step of a run forgets nothing that was on record, and puts the file that
/// it is at on record before it goes on, unless that failed.
pub proof fn every_step_keeps_the_record(
    m: OffloadModel,
    before: LedgerModel,
    ledger: LedgerModel,
    cfg: Config<Seq<char>>,
    found: Option<u64>,
    outcome: std::result::Result<CopyOutcome<Seq<char>>, Seq<char>>,
    failure: Option<Seq<char>>,
)
    requires
        0 <= m.at < m.plan.len(),
        0 <= m.failed,
    ensures
        m.has_on_record(before, ledger, m.at) ==> {
            let s = m.probed(ledger, cfg, found);
            s.run.has_on_record(before, s.ledger, s.run.at)
        },
        m.has_on_record(before, ledger, m.at) ==> {
            let s = m.copied(ledger, cfg, outcome);
            if s.action is Delete {
                s.run.has_on_record(before, s.ledger, s.run.at + 1)
            } else {
                s.run.has_on_record(before, s.ledger, s.run.at)
            }
        },
        m.has_on_record(before, ledger, m.at + 1) ==> {
            let s = m.deleted(ledger, cfg, failure);
            s.run.has_on_record(before, s.ledger, s.run.at)
        },
{
    let item = m.plan[m.at];
    let key = m.key(m.at);
    if m.has_on_record(before, ledger, m.at) {
        let p = m.probed(ledger, cfg, found);
        if found == Some(item.size) {
            recording_forgets_nothing(ledger, p.ledger, key, item.canonical_dest_path, None);
        }
        assert forall|i: int| 0 <= i < p.run.at && p.run.failed == 0 implies p.ledger.has(
            #[trigger] p.run.key(i),
        ) by {
            assert(p.run.key(i) == m.key(i));
        }
        let c = m.copied(ledger, cfg, outcome);
        if let Ok(out) = outcome {
            recording_forgets_nothing(ledger, c.ledger, key, item.dest_path, out.hash);
            assert forall|i: int| 0 <= i <= m.at && c.run.failed == 0 implies c.ledger.has(
                #[trigger] c.run.key(i),
            ) by {
                assert(c.run.key(i) == m.key(i));
            }
        }
    }
    if m.has_on_record(before, ledger, m.at + 1) {
        let d = m.deleted(ledger, cfg, failure);
        assert forall|i: int| 0 <= i < d.run.at && d.run.failed == 0 implies d.ledger.has(
            #[trigger] d.run.key(i),
        ) by {
            assert(d.run.key(i) == m.key(i));
        }
    }
}

/// Offloading is idempotent: after a complete run in which no file failed, a scan
/// of the same card plans nothing, and every file is known, whatever else has
/// come to stand at the destination.
pub proof fn a_second_run_copies_nothing(
    cx: PlanContext,
    files: Seq<CardFile<Seq<char>>>,
    caps: Seq<Captured<Seq<char>>>,
    run: OffloadModel,
    ledger: LedgerModel,
    later_caps: Seq<Captured<Seq<char>>>,
    existing: Seq<Seq<char>>,
)
    requires
        files.len() <= usize::MAX,
        run.plan == cx.planned(files, caps),
        run.serial_key == or_text(cx.serial, "unknown"@),
        run.at == run.plan.len(),
        run.failed == 0,
        run.has_on_record(cx.ledger, ledger, run.at),
    ensures
        ({
            let next = PlanContext { ledger, existing, ..cx };
            &&& next.planned(files, later_caps).len() == 0
            &&& next.known(files) == files.len()
        }),
{
    let next = PlanContext { ledger, existing, ..cx };
    assert forall|i: int| 0 <= i < files.len() implies next.ledger.has(
        next.key(#[trigger] files[i]),
    ) by {
        assert(next.key(files[i]) == cx.key(files[i]));
        if !cx.ledger.has(cx.key(files[i])) {
            planned_files_are_new(cx, files, caps);
            new_files_are_planned(cx, files, caps, i);
            let j = choose|j: int|
                0 <= j < run.plan.len() && (#[trigger] run.plan[j]).position == i;
            assert(run.key(j) == cx.key(files[i]));
            assert(ledger.has(run.key(j)));
        }
    }
    a_known_card_plans_nothing(next, files, later_caps);
}

/// A source is deleted from the card only after its copy succeeded, only where
/// that was asked for, and never before an upload that is still to come.
pub proof fn sources_are_deleted_only_when_safe(
    m: OffloadModel,
    ledger: LedgerModel,
    cfg: Config<Seq<char>>,
    outcome: std::result::Result<CopyOutcome<Seq<char>>, Seq<char>>,
    found: Option<u64>,
    failure: Option<Seq<char>>,
)
    ensures
        m.copied(ledger, cfg, outcome).action is Delete ==> outcome is Ok && cfg.delete_after_verify
            && mirror_of(cfg.cloud) != MirrorMode::Auto,
        !(m.probed(ledger, cfg, found).action is Delete),
        !(m.deleted(ledger, cfg, failure).action is Delete),
{
}

/// The card is ejected only behind the last file, only where that was asked for,
/// and never while the worker has yet to delete files from it.
pub proof fn the_card_is_ejected_last(
    m: OffloadModel,
    i: int,
    ledger: LedgerModel,
    cfg: Config<Seq<char>>,
    events: Seq<RunEvent<Seq<char>>>,
)
    ensures
        ({
            let s = m.enter(i, ledger, cfg, events);
            s.action is Eject ==> {
                &&& i >= m.plan.len()
                &&& cfg.auto_eject
                &&& !(cfg.delete_after_verify && mirror_of(cfg.cloud) == MirrorMode::Auto)
                &&& s.events.last() is RunComplete
            }
        }),
{
}

} // verus!
