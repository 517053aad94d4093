//! Laws of the steps of an offload run: what each outcome does to the run, to the ledger
//! and to the events.

use crate::config::{Config, MirrorMode};
use crate::copy::CopyOutcome;
use crate::error::CoreError;
use crate::ledger::{max_import_id, JobState, LedgerModel};
use crate::orchestrator::{
    deletes_inline, ejects, guarded, plan_bytes, remote_path_of, OffloadAction, OffloadModel,
    RunEvent,
};
use crate::scanner::PlannedCopy;
use crate::text::{lemma_trimmed_end_is, lemma_trimmed_start_is, CharSet};
use vstd::prelude::*;

verus! {

/// A file at the destination stands for the item only if it has exactly its size: with
/// another size, or with no file there, the item is copied to its destination, and neither
/// the ledger nor a count changes.
pub proof fn only_a_file_of_the_right_size_is_adopted(
    m: OffloadModel,
    ledger: LedgerModel,
    cfg: Config<Seq<char>>,
    found: Option<u64>,
)
    requires
        0 <= m.at < m.plan.len() <= usize::MAX,
        found is None || found->0 != m.plan[m.at].size,
    ensures
        ({
            let item = m.plan[m.at];
            let s = m.probed(ledger, cfg, found);
            &&& s.action == (OffloadAction::Copy { position: item.position, dest: item.dest_path })
            &&& s.ledger == ledger
            &&& s.events.len() == 1
            &&& s.events[0] matches RunEvent::Copying { file, index, total } && file == item.name
                && index == m.at + 1 && total == m.plan.len()
            &&& s.run.plan == m.plan && s.run.at == m.at
            &&& s.run.copied == m.copied && s.run.recovered == m.recovered
            &&& s.run.failed == m.failed && s.run.queued == m.queued && s.run.bytes == m.bytes
            &&& s.run.known == m.known
        }),
{
}

/// A file of the right size at the destination is adopted: it is recorded there without a
/// hash, nothing is queued, it counts as recovered and not as copied, and the run goes on
/// to the next item.
pub proof fn a_file_of_the_right_size_is_adopted(
    m: OffloadModel,
    ledger: LedgerModel,
    cfg: Config<Seq<char>>,
)
    requires
        0 <= m.at < m.plan.len(),
    ensures
        ({
            let item = m.plan[m.at];
            let s = m.probed(ledger, cfg, Some(item.size));
            let row = s.ledger.imports.last();
            &&& s.run.plan == m.plan && s.run.at == m.at + 1
            &&& s.run.recovered == m.recovered + 1
            &&& s.run.copied == m.copied && s.run.failed == m.failed
            &&& s.run.queued == m.queued && s.run.bytes == m.bytes && s.run.known == m.known
            &&& s.events.len() >= 1
            &&& s.events[0] == (RunEvent::Skipped { file: item.name })
            &&& s.ledger.jobs == ledger.jobs
            &&& row.camera_serial == m.serial_key && row.name == item.name
            &&& row.size == item.size && row.mtime_unix == item.mtime_unix
            &&& row.dest_path == item.canonical_dest_path
            &&& row.hash is None
        }),
{
}

/// A copy that succeeded is counted with its bytes and recorded at its destination with its
/// hash. Where the mirror is automatic or manual, exactly one upload is queued for it, of
/// that copy, to its remote path and with its source on the card; otherwise none is. Its
/// source is deleted next where that is asked for and the mirror is not automatic;
/// otherwise the run goes on to the next item.
pub proof fn a_copied_file_is_recorded(
    m: OffloadModel,
    ledger: LedgerModel,
    cfg: Config<Seq<char>>,
    out: CopyOutcome<Seq<char>>,
)
    requires
        0 <= m.at < m.plan.len(),
        max_import_id(ledger.imports) < i64::MAX,
    ensures
        ({
            let item = m.plan[m.at];
            let s = m.copied(ledger, cfg, Ok(out));
            let row = s.ledger.imports.last();
            let job = s.ledger.jobs.last();
            let queues = cfg.cloud is Some && (cfg.cloud->0.mirror_mode == MirrorMode::Auto
                || cfg.cloud->0.mirror_mode == MirrorMode::Manual);
            let deletes = cfg.delete_after_verify && (cfg.cloud is None
                || cfg.cloud->0.mirror_mode != MirrorMode::Auto);
            &&& s.run.plan == m.plan
            &&& s.run.copied == m.copied + 1 && s.run.bytes == m.bytes + out.bytes
            &&& s.run.recovered == m.recovered && s.run.failed == m.failed
            &&& s.run.known == m.known
            &&& row.camera_serial == m.serial_key && row.name == item.name
            &&& row.size == item.size && row.mtime_unix == item.mtime_unix
            &&& row.dest_path == item.dest_path && row.hash == out.hash
            &&& s.events.len() >= 2
            &&& s.events[0] == (RunEvent::Progress {
                file: item.name,
                copied: out.bytes,
                total: out.bytes,
            })
            &&& s.events[1] == (RunEvent::Verified { file: item.name })
            &&& if queues {
                &&& s.run.queued == m.queued + 1
                &&& s.events.len() >= 3 && s.events[2] == (RunEvent::CloudQueued {
                    file: item.name,
                })
                &&& s.ledger.jobs.len() == ledger.jobs.len() + 1
                &&& s.ledger.jobs.drop_last() == ledger.jobs
                &&& job.imported_id == row.id && job.destination_id == cfg.cloud->0.destination_id
                &&& job.local_path == item.dest_path && job.remote_path == remote_path_of(
                    cfg.cloud->0.remote_root,
                    item.dest_name,
                )
                &&& job.total_bytes == item.size && job.uploaded_bytes == 0
                &&& job.state == JobState::Queued && job.attempts == 0
                &&& job.next_retry_at is None && job.card_src == Some(item.src)
            } else {
                &&& s.run.queued == m.queued
                &&& s.ledger.jobs == ledger.jobs
            }
            &&& if deletes {
                s.action == (OffloadAction::<Seq<char>>::Delete { position: item.position })
                    && s.run.at == m.at
            } else {
                !(s.action is Delete) && s.run.at == m.at + 1
            }
        }),
{
    let s = m.copied(ledger, cfg, Ok(out));
    if s.ledger.jobs.len() == ledger.jobs.len() + 1 {
        assert(s.ledger.jobs.drop_last() =~= ledger.jobs);
    }
}

/// A copy that failed is reported with its error and counted as failed, and nothing else
/// of the run or of the ledger changes; the run goes on to the next item.
pub proof fn a_failed_copy_is_not_recorded(
    m: OffloadModel,
    ledger: LedgerModel,
    cfg: Config<Seq<char>>,
    error: Seq<char>,
)
    ensures
        ({
            let s = m.copied(ledger, cfg, Err(error));
            &&& s.ledger == ledger
            &&& s.run.plan == m.plan && s.run.at == m.at + 1
            &&& s.run.failed == m.failed + 1
            &&& s.run.copied == m.copied && s.run.recovered == m.recovered
            &&& s.run.queued == m.queued && s.run.bytes == m.bytes && s.run.known == m.known
            &&& s.events.len() >= 1
            &&& s.events[0] == (RunEvent::Failed { file: m.plan[m.at].name, error })
            &&& !(s.action is Delete)
        }),
{
}

/// Once a source was deleted, or could not be, that is reported, and the run goes on to the
/// next item: a source that stays is no failed file.
pub proof fn a_source_that_stays_is_no_failure(
    m: OffloadModel,
    ledger: LedgerModel,
    cfg: Config<Seq<char>>,
    failure: Option<Seq<char>>,
)
    ensures
        ({
            let s = m.deleted(ledger, cfg, failure);
            &&& s.ledger == ledger
            &&& s.run.plan == m.plan && s.run.at == m.at + 1
            &&& s.run.failed == m.failed && s.run.copied == m.copied
            &&& s.run.recovered == m.recovered && s.run.queued == m.queued
            &&& s.run.bytes == m.bytes && s.run.known == m.known
            &&& s.events.len() >= 1
            &&& failure is None ==> s.events[0] == (RunEvent::CardFileDeleted {
                file: m.plan[m.at].name,
            })
            &&& failure matches Some(error) ==> s.events[0] == (RunEvent::CardDeleteFailed {
                file: m.plan[m.at].name,
                error,
            })
        }),
{
}

/// Before the end a run looks for the file of the item that it comes to, or copies an item
/// that the ledger knows. At the end it reports what it came to: the files that it copied,
/// those that were known or adopted, those that failed, and the bytes. Then the card is
/// ejected where that is asked for, unless files on it are yet to be deleted behind their
/// uploads.
pub proof fn a_run_ends_with_its_counts(
    m: OffloadModel,
    i: int,
    ledger: LedgerModel,
    cfg: Config<Seq<char>>,
    events: Seq<RunEvent<Seq<char>>>,
)
    requires
        0 <= i <= m.plan.len() <= usize::MAX,
        0 <= m.copied <= usize::MAX,
        0 <= m.failed <= usize::MAX,
        0 <= m.known,
        0 <= m.recovered,
        m.known + m.recovered <= usize::MAX,
        0 <= m.bytes <= u64::MAX,
    ensures
        ({
            let s = m.enter(i, ledger, cfg, events);
            let waits = cfg.delete_after_verify && cfg.cloud is Some
                && cfg.cloud->0.mirror_mode == MirrorMode::Auto;
            &&& s.ledger == ledger
            &&& s.run.at == i
            &&& i < m.plan.len() && !ledger.has(m.key(i)) ==> s.events == events && s.action == (
            OffloadAction::Probe { path: m.plan[i].canonical_dest_path })
            &&& i < m.plan.len() && ledger.has(m.key(i)) ==> s.action == (OffloadAction::Copy {
                position: m.plan[i].position,
                dest: m.plan[i].dest_path,
            })
            &&& i == m.plan.len() ==> {
                &&& s.events.len() == events.len() + 1
                &&& s.events.drop_last() == events
                &&& s.events.last() matches RunEvent::RunComplete { copied, skipped, failed, bytes }
                    && copied == m.copied && skipped == m.known + m.recovered && failed == m.failed
                    && bytes == m.bytes
                &&& s.action is Eject <==> cfg.auto_eject && !waits
                &&& s.action is Done <==> !(cfg.auto_eject && !waits)
            }
        }),
{
    let s = m.enter(i, ledger, cfg, events);
    if i == m.plan.len() {
        assert(s.events.drop_last() =~= events);
    }
}

/// A run begins with nothing done.
pub proof fn a_fresh_run_has_done_nothing(
    plan: Seq<PlannedCopy<Seq<char>>>,
    known: int,
    serial_key: Seq<char>,
    mount: Seq<char>,
)
    ensures
        ({
            let m = OffloadModel::fresh(plan, known, serial_key, mount);
            &&& m.plan == plan && m.serial_key == serial_key && m.mount == mount
            &&& m.known == known && m.at == 0
            &&& m.copied == 0 && m.recovered == 0 && m.failed == 0 && m.queued == 0
            &&& m.bytes == 0
        }),
{
}

/// A run is refused if and only if fewer bytes are free than it writes and the headroom
/// together, up to what a count of bytes can hold. The refusal states both numbers.
pub proof fn a_full_destination_is_refused(
    new_files: usize,
    total_bytes: u64,
    headroom: u64,
    available: u64,
)
    ensures
        ({
            let (events, refusal) = guarded(new_files, total_bytes, headroom, available);
            &&& refusal is None <==> available >= total_bytes + headroom || available == u64::MAX
            &&& events.len() == (if refusal is None {
                1int
            } else {
                2
            })
            &&& events[0] == (RunEvent::<Seq<char>>::Scanned { new_files, total_bytes })
            &&& refusal matches Some(e) ==> {
                &&& e matches CoreError::InsufficientSpace { need, have } && have == available
                    && need > have && (total_bytes + headroom <= u64::MAX ==> need == total_bytes
                    + headroom)
                &&& events[1] matches RunEvent::InsufficientSpace { need, have } && have
                    == available && need == e->need
            }
        }),
{
}

/// The bytes of a plan are the sum of the sizes of its items.
pub proof fn plan_bytes_add_up(
    a: Seq<PlannedCopy<Seq<char>>>,
    b: Seq<PlannedCopy<Seq<char>>>,
    item: PlannedCopy<Seq<char>>,
)
    ensures
        plan_bytes(seq![]) == 0,
        plan_bytes(seq![item]) == item.size,
        plan_bytes(a + b) == plan_bytes(a) + plan_bytes(b),
    decreases b.len(),
{
    assert(seq![item].drop_last() =~= seq![]);
    assert(plan_bytes(seq![item].drop_last()) == 0);
    if b.len() == 0 {
        assert(a + b =~= a);
    } else {
        assert((a + b).drop_last() =~= a + b.drop_last());
        plan_bytes_add_up(a, b.drop_last(), item);
    }
}

/// A remote path is the root, one separator and the name; without a root it is the name.
/// Separators at the end of the root and at the beginning of the name make no difference.
pub proof fn a_remote_path_has_one_separator(root: Seq<char>, name: Seq<char>)
    requires
        root.len() > 0 ==> root.last() != '/',
        name.len() > 0 ==> name[0] != '/',
    ensures
        root.len() == 0 ==> remote_path_of(root, name) == name,
        root.len() > 0 ==> remote_path_of(root, name) == root + "/"@ + name,
        remote_path_of(root + "/"@, name) == remote_path_of(root, name),
        remote_path_of(root, "/"@ + name) == remote_path_of(root, name),
{
    reveal_strlit("/");
    let set = CharSet::Only('/');
    let r = root + "/"@;
    let n = "/"@ + name;
    lemma_trimmed_end_is(root, set, root.len() as int);
    assert(root.take(root.len() as int) =~= root);
    lemma_trimmed_start_is(name, set, 0);
    assert(name.skip(0) =~= name);
    lemma_trimmed_end_is(r, set, root.len() as int);
    assert(r.take(root.len() as int) =~= root);
    lemma_trimmed_start_is(n, set, 1);
    assert(n.skip(1) =~= name);
}

/// A source is deleted right after its copy was verified in every mode but the automatic one,
/// and never before. The card is ejected where that is asked for, unless sources on it are
/// yet to be deleted behind their uploads.
pub proof fn deletion_and_ejection_wait_for_uploads(
    verified: bool,
    asked: bool,
    deletes: bool,
    mode: MirrorMode,
)
    ensures
        deletes_inline(verified, mode) <==> verified && (mode == MirrorMode::Off || mode
            == MirrorMode::Manual),
        ejects(asked, deletes, mode) <==> asked && (!deletes || mode == MirrorMode::Off || mode
            == MirrorMode::Manual),
        mode.queues() <==> mode == MirrorMode::Auto || mode == MirrorMode::Manual,
{
}

/// The summary of a run states its counts; files that were known and files that were adopted
/// count as skipped.
pub proof fn a_summary_states_the_counts(m: OffloadModel)
    requires
        0 <= m.copied <= usize::MAX,
        0 <= m.failed <= usize::MAX,
        0 <= m.queued <= usize::MAX,
        0 <= m.known,
        0 <= m.recovered,
        m.known + m.recovered <= usize::MAX,
        0 <= m.bytes <= u64::MAX,
    ensures
        ({
            let s = m.summary();
            &&& s.copied == m.copied && s.failed == m.failed && s.bytes == m.bytes
            &&& s.skipped == m.known + m.recovered && s.queued == m.queued
        }),
{
}

/// The ledger is asked for an item by the serial number of the card and by the name, the size
/// and the time of the item.
pub proof fn an_item_is_known_by_all_of_it(m: OffloadModel, i: int)
    ensures
        m.key(i).serial == m.serial_key,
        m.key(i).name == m.plan[i].name,
        m.key(i).size == m.plan[i].size,
        m.key(i).mtime_unix == m.plan[i].mtime_unix,
{
}

} // verus!
