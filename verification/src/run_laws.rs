//! What holds of a whole offload run, whatever comes of each of its actions.

use crate::capture::Captured;
use crate::config::{mirror_of, Config};
use crate::copy::CopyOutcome;
use crate::ledger::LedgerModel;
use crate::orchestrator::{
    a_second_run_copies_nothing, every_step_keeps_the_record, guarded, plan_bytes, OffloadAction,
    OffloadModel, OffloadStep, RunEvent, RunSummary,
};
use crate::progress::percent_of;
use crate::scanner::{every_file_is_planned_or_known, CardFile, PlanContext, PlannedCopy};
use crate::text::or_text;
use crate::wired::client::RemoteMedia;
use crate::wired::offload::{
    a_second_wired_run_downloads_nothing, every_media_is_planned_or_skipped,
    every_wired_step_keeps_the_record, PlannedWired, WiredAction, WiredContext, WiredModel,
    WiredStep,
};
use vstd::prelude::*;

verus! {

// ---- from a card ------------------------------------------------------------

/// What comes of an action of a run.
pub enum OffloadAnswer {
    /// The size of the file at the path that was looked at.
    Probed(Option<u64>),
    /// So many bytes of the file are copied.
    Progressed(u64),
    /// The copy, or why it failed.
    Copied(std::result::Result<CopyOutcome<Seq<char>>, Seq<char>>),
    /// The source was deleted, or why it could not be.
    Deleted(Option<Seq<char>>),
}

impl OffloadStep {
    /// True if the run is over but for the ejection of the card.
    pub open spec fn is_over(self) -> bool {
        self.action is Eject || self.action is Done
    }

    /// The next step of the run, given what came of the action. An answer that does
    /// not go with the action changes nothing.
    pub open spec fn answered(self, cfg: Config<Seq<char>>, answer: OffloadAnswer) -> OffloadStep {
        match (self.action, answer) {
            (OffloadAction::Probe { .. }, OffloadAnswer::Probed(found)) => self.run.probed(
                self.ledger,
                cfg,
                found,
            ),
            (OffloadAction::Copy { .. }, OffloadAnswer::Progressed(copied)) => {
                let pct = percent_of(self.run.expected, copied as nat);
                let item = self.run.plan[self.run.at];
                OffloadStep {
                    run: OffloadModel { last_pct: pct, ..self.run },
                    events: if pct != self.run.last_pct {
                        seq![RunEvent::Progress { file: item.name, copied, total: item.size }]
                    } else {
                        seq![]
                    },
                    ..self
                }
            },
            (OffloadAction::Copy { .. }, OffloadAnswer::Copied(outcome)) => self.run.copied(
                self.ledger,
                cfg,
                outcome,
            ),
            (OffloadAction::Delete { .. }, OffloadAnswer::Deleted(failure)) => self.run.deleted(
                self.ledger,
                cfg,
                failure,
            ),
            _ => self,
        }
    }

    /// Where the run is after all of the answers, in their order.
    pub open spec fn after(self, cfg: Config<Seq<char>>, answers: Seq<OffloadAnswer>) -> OffloadStep
        decreases answers.len(),
    {
        if answers.len() == 0 {
            self
        } else {
            self.after(cfg, answers.drop_last()).answered(cfg, answers.last())
        }
    }
}

/// The first step of a run over a plan.
pub open spec fn offload_begun(
    plan: Seq<PlannedCopy<Seq<char>>>,
    known: int,
    serial: Option<Seq<char>>,
    mount: Seq<char>,
    ledger: LedgerModel,
    cfg: Config<Seq<char>>,
) -> OffloadStep {
    OffloadModel::fresh(plan, known, or_text(serial, "unknown"@), mount).enter(
        0,
        ledger,
        cfg,
        seq![],
    )
}

/// What holds of every step of a run that began with the given plan and ledger.
pub open spec fn on_course(
    s: OffloadStep,
    start: OffloadModel,
    before: LedgerModel,
    cfg: Config<Seq<char>>,
) -> bool {
    &&& s.run.plan == start.plan
    &&& s.run.serial_key == start.serial_key
    &&& s.run.known == start.known
    &&& s.run.queued == if mirror_of(cfg.cloud).queues() {
        s.run.copied
    } else {
        0
    }
    &&& if s.action is Delete {
        s.run.deleting() && s.run.has_on_record(before, s.ledger, s.run.at + 1)
    } else {
        s.run.well_formed() && s.run.has_on_record(before, s.ledger, s.run.at)
    }
    &&& s.is_over() <==> s.run.at == s.run.plan.len()
}

proof fn lemma_answered(
    s: OffloadStep,
    start: OffloadModel,
    before: LedgerModel,
    cfg: Config<Seq<char>>,
    answer: OffloadAnswer,
)
    requires
        on_course(s, start, before, cfg),
    ensures
        on_course(s.answered(cfg, answer), start, before, cfg),
{
    let m = s.run;
    match (s.action, answer) {
        (OffloadAction::Probe { .. }, OffloadAnswer::Probed(found)) => {
            every_step_keeps_the_record(m, before, s.ledger, cfg, found, Err(seq![]), None);
        },
        (OffloadAction::Copy { .. }, OffloadAnswer::Progressed(copied)) => {
            let n = s.answered(cfg, answer).run;
            assert forall|i: int| 0 <= i < n.at && n.failed == 0 implies s.ledger.has(
                #[trigger] n.key(i),
            ) by {
                assert(n.key(i) == m.key(i));
            }
        },
        (OffloadAction::Copy { .. }, OffloadAnswer::Copied(outcome)) => {
            every_step_keeps_the_record(m, before, s.ledger, cfg, None, outcome, None);
        },
        (OffloadAction::Delete { .. }, OffloadAnswer::Deleted(failure)) => {
            every_step_keeps_the_record(m, before, s.ledger, cfg, None, Err(seq![]), failure);
        },
        _ => {},
    }
}

/// Whatever comes of its actions, a run stays on course: its counts fit, it has on
/// record what it took in, and every file that it copied is queued exactly if the
/// mode queues.
pub proof fn a_run_stays_on_course(
    plan: Seq<PlannedCopy<Seq<char>>>,
    known: int,
    serial: Option<Seq<char>>,
    mount: Seq<char>,
    ledger: LedgerModel,
    cfg: Config<Seq<char>>,
    answers: Seq<OffloadAnswer>,
)
    requires
        0 <= known,
        known + plan.len() <= usize::MAX,
    ensures
        on_course(
            offload_begun(plan, known, serial, mount, ledger, cfg).after(cfg, answers),
            OffloadModel::fresh(plan, known, or_text(serial, "unknown"@), mount),
            ledger,
            cfg,
        ),
    decreases answers.len(),
{
    let start = OffloadModel::fresh(plan, known, or_text(serial, "unknown"@), mount);
    let begun = offload_begun(plan, known, serial, mount, ledger, cfg);
    if answers.len() > 0 {
        a_run_stays_on_course(plan, known, serial, mount, ledger, cfg, answers.drop_last());
        lemma_answered(
            begun.after(cfg, answers.drop_last()),
            start,
            ledger,
            cfg,
            answers.last(),
        );
    }
}

/// A whole run accounts for every file: each was copied, was there already, or
/// failed; and as many were queued as were copied, or none where the mode does not
/// queue.
pub proof fn a_whole_run_accounts_for_every_file(
    plan: Seq<PlannedCopy<Seq<char>>>,
    known: int,
    serial: Option<Seq<char>>,
    mount: Seq<char>,
    ledger: LedgerModel,
    cfg: Config<Seq<char>>,
    answers: Seq<OffloadAnswer>,
)
    requires
        0 <= known,
        known + plan.len() <= usize::MAX,
        offload_begun(plan, known, serial, mount, ledger, cfg).after(cfg, answers).is_over(),
    ensures
        ({
            let end = offload_begun(plan, known, serial, mount, ledger, cfg).after(cfg, answers);
            let s = end.run.summary();
            &&& s.copied + s.skipped + s.failed == known + plan.len()
            &&& s.queued == if mirror_of(cfg.cloud).queues() {
                s.copied
            } else {
                0
            }
        }),
{
    a_run_stays_on_course(plan, known, serial, mount, ledger, cfg, answers);
}

/// Offloading twice copies once: after a whole run in which no file failed, a second
/// run over the same card is over at once. It looks at no file, copies none, deletes
/// none and changes nothing in the ledger; all files count as skipped. As long as the
/// headroom is free it is not refused for want of space.
pub proof fn offloading_again_copies_nothing(
    cx: PlanContext,
    files: Seq<CardFile<Seq<char>>>,
    caps: Seq<Captured<Seq<char>>>,
    mount: Seq<char>,
    cfg: Config<Seq<char>>,
    answers: Seq<OffloadAnswer>,
    later_caps: Seq<Captured<Seq<char>>>,
    existing: Seq<Seq<char>>,
    later_answers: Seq<OffloadAnswer>,
    available: u64,
)
    requires
        files.len() <= usize::MAX,
        ({
            let end = offload_begun(
                cx.planned(files, caps),
                cx.known(files) as int,
                cx.serial,
                mount,
                cx.ledger,
                cfg,
            ).after(cfg, answers);
            end.is_over() && end.run.failed == 0
        }),
        available >= cfg.space_headroom,
    ensures
        ({
            let end = offload_begun(
                cx.planned(files, caps),
                cx.known(files) as int,
                cx.serial,
                mount,
                cx.ledger,
                cfg,
            ).after(cfg, answers);
            let first = end.run.summary();
            let next = PlanContext { ledger: end.ledger, existing, ..cx };
            let plan = next.planned(files, later_caps);
            let again = offload_begun(
                plan,
                next.known(files) as int,
                cx.serial,
                mount,
                end.ledger,
                cfg,
            );
            &&& plan.len() == 0
            &&& guarded(0, plan_bytes(plan) as u64, cfg.space_headroom, available).1 is None
            &&& again.is_over()
            &&& again.after(cfg, later_answers) == again
            &&& again.ledger == end.ledger
            &&& again.run.summary() == (RunSummary {
                copied: 0,
                skipped: (first.copied + first.skipped) as usize,
                failed: 0,
                bytes: 0,
                queued: 0,
            })
        }),
{
    let plan = cx.planned(files, caps);
    let known = cx.known(files) as int;
    let end = offload_begun(plan, known, cx.serial, mount, cx.ledger, cfg).after(cfg, answers);
    every_file_is_planned_or_known(cx, files, caps);
    a_run_stays_on_course(plan, known, cx.serial, mount, cx.ledger, cfg, answers);
    a_second_run_copies_nothing(cx, files, caps, end.run, end.ledger, later_caps, existing);
    let next = PlanContext { ledger: end.ledger, existing, ..cx };
    let again = offload_begun(
        next.planned(files, later_caps),
        next.known(files) as int,
        cx.serial,
        mount,
        end.ledger,
        cfg,
    );
    lemma_over_stays(again, cfg, later_answers);
}

proof fn lemma_over_stays(s: OffloadStep, cfg: Config<Seq<char>>, answers: Seq<OffloadAnswer>)
    requires
        s.is_over(),
    ensures
        s.after(cfg, answers) == s,
    decreases answers.len(),
{
    if answers.len() > 0 {
        lemma_over_stays(s, cfg, answers.drop_last());
    }
}

// ---- over USB ---------------------------------------------------------------

/// What comes of an action of a run over USB.
pub enum WiredAnswer {
    /// The count and the hash of the bytes on disk, or why the download failed.
    Downloaded(std::result::Result<(u64, Seq<char>), Seq<char>>),
    /// So many bytes of the file are on disk.
    Progressed(u64),
    /// The file stands at its destination, or why it does not.
    Placed(Option<Seq<char>>),
    /// The file was deleted from the camera, or why it could not be.
    Deleted(Option<Seq<char>>),
}

/// Where a run over USB stands, with the ledger.
pub struct WiredCourse {
    pub step: WiredStep,
    pub ledger: LedgerModel,
}

impl WiredCourse {
    /// The next step of the run, given what came of the action. An answer that does
    /// not go with the action changes nothing.
    pub open spec fn answered(self, cfg: Config<Seq<char>>, answer: WiredAnswer) -> WiredCourse {
        let run = self.step.run;
        match (self.step.action, answer) {
            (WiredAction::Download { .. }, WiredAnswer::Downloaded(outcome)) => WiredCourse {
                step: run.downloaded(cfg.verify, outcome),
                ..self
            },
            (WiredAction::Download { .. }, WiredAnswer::Progressed(done)) => {
                let pct = percent_of(run.expected, done as nat);
                let media = run.plan[run.at].media;
                WiredCourse {
                    step: WiredStep {
                        run: WiredModel { last_pct: pct, ..run },
                        events: if pct != run.last_pct {
                            seq![
                                RunEvent::Progress {
                                    file: media.name,
                                    copied: done,
                                    total: media.size,
                                },
                            ]
                        } else {
                            seq![]
                        },
                        action: self.step.action,
                    },
                    ..self
                }
            },
            (WiredAction::Place { .. }, WiredAnswer::Placed(failure)) => {
                let (step, ledger) = run.placed(self.ledger, cfg, failure);
                WiredCourse { step, ledger }
            },
            (WiredAction::Delete { .. }, WiredAnswer::Deleted(failure)) => WiredCourse {
                step: run.deleted(failure),
                ..self
            },
            _ => self,
        }
    }

    /// Where the run is after all of the answers, in their order.
    pub open spec fn after(self, cfg: Config<Seq<char>>, answers: Seq<WiredAnswer>) -> WiredCourse
        decreases answers.len(),
    {
        if answers.len() == 0 {
            self
        } else {
            self.after(cfg, answers.drop_last()).answered(cfg, answers.last())
        }
    }
}

/// The first step of a run over a plan.
pub open spec fn wired_begun(
    plan: Seq<PlannedWired<Seq<char>>>,
    skipped: int,
    serial: Seq<char>,
    ledger: LedgerModel,
) -> WiredCourse {
    WiredCourse { step: WiredModel::fresh(plan, skipped, serial).enter(0, seq![]), ledger }
}

/// What holds of every step of a run over USB that began with the given plan and
/// ledger.
pub open spec fn wired_on_course(
    c: WiredCourse,
    start: WiredModel,
    before: LedgerModel,
    cfg: Config<Seq<char>>,
) -> bool {
    let run = c.step.run;
    &&& run.plan == start.plan
    &&& run.serial == start.serial
    &&& run.skipped == start.skipped
    &&& run.queued == if mirror_of(cfg.cloud).queues() {
        run.copied
    } else {
        0
    }
    &&& if c.step.action is Delete {
        run.deleting() && run.has_on_record(before, c.ledger, run.at + 1)
    } else {
        run.well_formed() && run.has_on_record(before, c.ledger, run.at)
    }
    &&& c.step.action is Done <==> run.at == run.plan.len()
}

proof fn lemma_wired_answered(
    c: WiredCourse,
    start: WiredModel,
    before: LedgerModel,
    cfg: Config<Seq<char>>,
    answer: WiredAnswer,
)
    requires
        wired_on_course(c, start, before, cfg),
    ensures
        wired_on_course(c.answered(cfg, answer), start, before, cfg),
{
    let m = c.step.run;
    match (c.step.action, answer) {
        (WiredAction::Download { .. }, WiredAnswer::Downloaded(outcome)) => {
            every_wired_step_keeps_the_record(m, before, c.ledger, cfg, cfg.verify, outcome, None);
        },
        (WiredAction::Download { .. }, WiredAnswer::Progressed(done)) => {
            let n = c.answered(cfg, answer).step.run;
            assert forall|i: int| 0 <= i < n.at && n.failed == 0 implies c.ledger.has(
                #[trigger] n.key(i),
            ) by {
                assert(n.key(i) == m.key(i));
            }
        },
        (WiredAction::Place { .. }, WiredAnswer::Placed(failure)) => {
            every_wired_step_keeps_the_record(
                m,
                before,
                c.ledger,
                cfg,
                cfg.verify,
                Err(seq![]),
                failure,
            );
        },
        (WiredAction::Delete { .. }, WiredAnswer::Deleted(failure)) => {
            every_wired_step_keeps_the_record(
                m,
                before,
                c.ledger,
                cfg,
                cfg.verify,
                Err(seq![]),
                failure,
            );
        },
        _ => {},
    }
}

/// Whatever comes of its actions, a run over USB stays on course: its counts fit, it
/// has on record what it took in, and every file that it copied is queued exactly if
/// the mode queues.
pub proof fn a_wired_run_stays_on_course(
    plan: Seq<PlannedWired<Seq<char>>>,
    skipped: int,
    serial: Seq<char>,
    ledger: LedgerModel,
    cfg: Config<Seq<char>>,
    answers: Seq<WiredAnswer>,
)
    requires
        0 <= skipped <= usize::MAX,
        plan.len() <= usize::MAX,
    ensures
        wired_on_course(
            wired_begun(plan, skipped, serial, ledger).after(cfg, answers),
            WiredModel::fresh(plan, skipped, serial),
            ledger,
            cfg,
        ),
    decreases answers.len(),
{
    if answers.len() > 0 {
        a_wired_run_stays_on_course(plan, skipped, serial, ledger, cfg, answers.drop_last());
        lemma_wired_answered(
            wired_begun(plan, skipped, serial, ledger).after(cfg, answers.drop_last()),
            WiredModel::fresh(plan, skipped, serial),
            ledger,
            cfg,
            answers.last(),
        );
    }
}

/// A whole run over USB accounts for every planned file: each was copied or failed;
/// and as many were queued as were copied, or none where the mode does not queue.
pub proof fn a_whole_wired_run_accounts_for_every_file(
    plan: Seq<PlannedWired<Seq<char>>>,
    skipped: int,
    serial: Seq<char>,
    ledger: LedgerModel,
    cfg: Config<Seq<char>>,
    answers: Seq<WiredAnswer>,
)
    requires
        0 <= skipped <= usize::MAX,
        plan.len() <= usize::MAX,
        wired_begun(plan, skipped, serial, ledger).after(cfg, answers).step.action is Done,
    ensures
        ({
            let end = wired_begun(plan, skipped, serial, ledger).after(cfg, answers);
            let s = end.step.run.summary();
            &&& s.copied + s.failed == plan.len()
            &&& s.skipped == skipped
            &&& s.queued == if mirror_of(cfg.cloud).queues() {
                s.copied
            } else {
                0
            }
        }),
{
    a_wired_run_stays_on_course(plan, skipped, serial, ledger, cfg, answers);
}

/// Offloading twice over USB downloads once: after a whole run in which no file
/// failed, a second run over the same listing is over at once. It downloads nothing,
/// deletes nothing and changes nothing in the ledger; all files count as skipped.
pub proof fn offloading_again_downloads_nothing(
    cx: WiredContext,
    media: Seq<RemoteMedia<Seq<char>>>,
    caps: Seq<Captured<Seq<char>>>,
    answers: Seq<WiredAnswer>,
    later_caps: Seq<Captured<Seq<char>>>,
    existing: Seq<Seq<char>>,
    later_answers: Seq<WiredAnswer>,
)
    requires
        media.len() <= usize::MAX,
        ({
            let end = wired_begun(
                cx.planned(media, caps),
                cx.skipped(media) as int,
                cx.serial,
                cx.ledger,
            ).after(cx.cfg, answers);
            end.step.action is Done && end.step.run.failed == 0
        }),
    ensures
        ({
            let end = wired_begun(
                cx.planned(media, caps),
                cx.skipped(media) as int,
                cx.serial,
                cx.ledger,
            ).after(cx.cfg, answers);
            let first = end.step.run.summary();
            let next = WiredContext { ledger: end.ledger, existing, ..cx };
            let plan = next.planned(media, later_caps);
            let again = wired_begun(plan, next.skipped(media) as int, cx.serial, end.ledger);
            &&& plan.len() == 0
            &&& again.step.action is Done
            &&& again.after(cx.cfg, later_answers) == again
            &&& again.ledger == end.ledger
            &&& again.step.run.summary() == (RunSummary {
                copied: 0,
                skipped: (first.copied + first.skipped) as usize,
                failed: 0,
                bytes: 0,
                queued: 0,
            })
        }),
{
    let plan = cx.planned(media, caps);
    let skipped = cx.skipped(media) as int;
    let end = wired_begun(plan, skipped, cx.serial, cx.ledger).after(cx.cfg, answers);
    every_media_is_planned_or_skipped(cx, media, caps);
    a_wired_run_stays_on_course(plan, skipped, cx.serial, cx.ledger, cx.cfg, answers);
    a_second_wired_run_downloads_nothing(
        cx,
        media,
        caps,
        end.step.run,
        end.ledger,
        later_caps,
        existing,
    );
    let next = WiredContext { ledger: end.ledger, existing, ..cx };
    let again = wired_begun(
        next.planned(media, later_caps),
        next.skipped(media) as int,
        cx.serial,
        end.ledger,
    );
    lemma_wired_over_stays(again, cx.cfg, later_answers);
}

proof fn lemma_wired_over_stays(
    c: WiredCourse,
    cfg: Config<Seq<char>>,
    answers: Seq<WiredAnswer>,
)
    requires
        c.step.action is Done,
    ensures
        c.after(cfg, answers) == c,
    decreases answers.len(),
{
    if answers.len() > 0 {
        lemma_wired_over_stays(c, cfg, answers.drop_last());
    }
}

} // verus!
