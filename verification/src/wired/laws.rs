//! Laws of the steps of a run over USB: what each outcome does to the run, to the ledger and
//! to the events.

use crate::config::{Config, MirrorMode};
use crate::error::CoreError;
use crate::ledger::{max_import_id, JobState, LedgerModel};
use crate::orchestrator::{remote_path_of, RunEvent};
use crate::text::{decimal, zero_padded};
use crate::wired::client::{
    duration_text, media_address, timed_out, RemoteMedia, CONNECT_TIMEOUT_MS, CONTROL_TIMEOUT_MS,
    IDLE_TIMEOUT_MS,
};
use crate::wired::offload::{wired_bytes, PlannedWired, WiredAction, WiredModel};
use vstd::prelude::*;

verus! {

/// A download is placed at its destination if and only if it came with exactly the bytes
/// that the camera lists. It is placed with the hash of those bytes, and verified where
/// that is asked for; nothing is counted yet.
pub proof fn only_a_whole_download_is_placed(
    m: WiredModel,
    verify: bool,
    n: u64,
    hash: Seq<char>,
)
    requires
        0 <= m.at < m.plan.len(),
    ensures
        ({
            let item = m.plan[m.at];
            let s = m.downloaded(verify, Ok((n, hash)));
            &&& s.action is Place <==> n == item.media.size
            &&& n == item.media.size ==> {
                &&& s.action == (WiredAction::Place {
                    part: item.dest_path + ".part"@,
                    dest: item.dest_path,
                    hash,
                    verify,
                })
                &&& s.events.len() == 0
                &&& s.run == (WiredModel { hash, ..m })
            }
            &&& n != item.media.size ==> {
                &&& s.run.failed == m.failed + 1 && s.run.at == m.at + 1
                &&& s.run.copied == m.copied && s.run.bytes == m.bytes
                &&& s.events.len() >= 1
                &&& s.events[0] == (RunEvent::Failed {
                    file: item.media.name,
                    error: "size mismatch: got "@ + decimal(n as nat) + ", expected "@ + decimal(
                        item.media.size as nat,
                    ),
                })
            }
        }),
{
}

/// A download that failed, or a file that could not be verified at its destination, is
/// reported with its error and counted as failed; nothing else of the run or of the ledger
/// changes, and the run goes on to the next item.
pub proof fn a_failed_download_is_not_recorded(
    m: WiredModel,
    ledger: LedgerModel,
    cfg: Config<Seq<char>>,
    verify: bool,
    error: Seq<char>,
)
    ensures
        m.placed(ledger, cfg, Some(error)).1 == ledger,
        m.placed(ledger, cfg, Some(error)).0 == m.downloaded(verify, Err(error)),
        ({
            let s = m.downloaded(verify, Err(error));
            &&& s.run.plan == m.plan && s.run.at == m.at + 1
            &&& s.run.failed == m.failed + 1
            &&& s.run.copied == m.copied && s.run.queued == m.queued
            &&& s.run.bytes == m.bytes && s.run.skipped == m.skipped
            &&& s.events.len() >= 1
            &&& s.events[0] == (RunEvent::Failed { file: m.plan[m.at].media.name, error })
            &&& !(s.action is Place) && !(s.action is Delete)
        }),
{
}

/// A file that stands verified at its destination is counted with its bytes and recorded
/// there with the hash of its download. Where the mirror is automatic or manual, exactly one
/// upload is queued for it; otherwise none is. It is deleted from the camera next where that
/// is asked for and the mirror is not automatic; otherwise the run goes on to the next item.
pub proof fn a_placed_download_is_recorded(
    m: WiredModel,
    ledger: LedgerModel,
    cfg: Config<Seq<char>>,
)
    requires
        0 <= m.at < m.plan.len() <= usize::MAX,
        max_import_id(ledger.imports) < i64::MAX,
    ensures
        ({
            let item = m.plan[m.at];
            let (s, after) = m.placed(ledger, cfg, None);
            let row = after.imports.last();
            let job = after.jobs.last();
            let queues = cfg.cloud is Some && (cfg.cloud->0.mirror_mode == MirrorMode::Auto
                || cfg.cloud->0.mirror_mode == MirrorMode::Manual);
            let deletes = cfg.delete_after_verify && (cfg.cloud is None
                || cfg.cloud->0.mirror_mode != MirrorMode::Auto);
            &&& s.run.plan == m.plan
            &&& s.run.copied == m.copied + 1 && s.run.bytes == m.bytes + item.media.size
            &&& s.run.failed == m.failed && s.run.skipped == m.skipped
            &&& row.camera_serial == m.serial && row.name == item.media.name
            &&& row.size == item.media.size && row.mtime_unix == item.media.captured_unix
            &&& row.dest_path == item.dest_path && row.hash == Some(m.hash)
            &&& s.events.len() >= 2
            &&& s.events[0] == (RunEvent::Progress {
                file: item.media.name,
                copied: item.media.size,
                total: item.media.size,
            })
            &&& s.events[1] == (RunEvent::Verified { file: item.media.name })
            &&& if queues {
                &&& s.run.queued == m.queued + 1
                &&& s.events.len() >= 3 && s.events[2] == (RunEvent::CloudQueued {
                    file: item.media.name,
                })
                &&& after.jobs.len() == ledger.jobs.len() + 1
                &&& after.jobs.drop_last() == ledger.jobs
                &&& job.imported_id == row.id && job.destination_id == cfg.cloud->0.destination_id
                &&& job.local_path == item.dest_path && job.remote_path == remote_path_of(
                    cfg.cloud->0.remote_root,
                    item.dest_name,
                )
                &&& job.total_bytes == item.media.size && job.uploaded_bytes == 0
                &&& job.state == JobState::Queued && job.attempts == 0
                &&& job.next_retry_at is None && job.card_src is None
            } else {
                &&& s.run.queued == m.queued
                &&& after.jobs == ledger.jobs
            }
            &&& if deletes {
                s.action == (WiredAction::<Seq<char>>::Delete { index: m.at as usize }) && s.run.at
                    == m.at
            } else {
                !(s.action is Delete) && s.run.at == m.at + 1
            }
        }),
{
    let (s, after) = m.placed(ledger, cfg, None);
    if after.jobs.len() == ledger.jobs.len() + 1 {
        assert(after.jobs.drop_last() =~= ledger.jobs);
    }
}

/// Once a file was deleted from the camera, or could not be, that is reported, and the run
/// goes on to the next item: a file that stays is no failed file.
pub proof fn a_camera_file_that_stays_is_no_failure(m: WiredModel, failure: Option<Seq<char>>)
    ensures
        ({
            let s = m.deleted(failure);
            &&& s.run.plan == m.plan && s.run.at == m.at + 1
            &&& s.run.failed == m.failed && s.run.copied == m.copied
            &&& s.run.queued == m.queued && s.run.bytes == m.bytes && s.run.skipped == m.skipped
            &&& s.events.len() >= 1
            &&& failure is None ==> s.events[0] == (RunEvent::CardFileDeleted {
                file: m.plan[m.at].media.name,
            })
            &&& failure matches Some(error) ==> s.events[0] == (RunEvent::CardDeleteFailed {
                file: m.plan[m.at].media.name,
                error,
            })
        }),
{
}

/// Before the end a run downloads the item that it comes to, into the partial file beside
/// its destination. At the end it reports what it came to.
pub proof fn a_wired_run_ends_with_its_counts(
    m: WiredModel,
    i: int,
    events: Seq<RunEvent<Seq<char>>>,
)
    requires
        0 <= i <= m.plan.len() <= usize::MAX,
        0 <= m.copied <= usize::MAX,
        0 <= m.failed <= usize::MAX,
        0 <= m.skipped <= usize::MAX,
        0 <= m.bytes <= u64::MAX,
    ensures
        ({
            let s = m.enter(i, events);
            &&& s.run.at == i
            &&& s.events.len() == events.len() + 1
            &&& s.events.drop_last() == events
            &&& i < m.plan.len() ==> {
                &&& s.action == (WiredAction::Download {
                    index: i as usize,
                    part: m.plan[i].dest_path + ".part"@,
                })
                &&& s.events.last() matches RunEvent::Copying { file, index, total } && file
                    == m.plan[i].media.name && index == i + 1 && total == m.plan.len()
            }
            &&& i == m.plan.len() ==> {
                &&& s.action is Done
                &&& s.events.last() matches RunEvent::RunComplete { copied, skipped, failed, bytes }
                    && copied == m.copied && skipped == m.skipped && failed == m.failed && bytes
                    == m.bytes
            }
        }),
{
    let s = m.enter(i, events);
    assert(s.events.drop_last() =~= events);
}

/// A run begins with nothing done.
pub proof fn a_fresh_wired_run_has_done_nothing(
    plan: Seq<PlannedWired<Seq<char>>>,
    skipped: int,
    serial: Seq<char>,
)
    ensures
        ({
            let m = WiredModel::fresh(plan, skipped, serial);
            &&& m.plan == plan && m.serial == serial && m.skipped == skipped
            &&& m.at == 0 && m.copied == 0 && m.failed == 0 && m.queued == 0 && m.bytes == 0
        }),
{
}

/// The bytes of a plan are the sum of the sizes of its files.
pub proof fn wired_bytes_add_up(
    a: Seq<PlannedWired<Seq<char>>>,
    b: Seq<PlannedWired<Seq<char>>>,
    item: PlannedWired<Seq<char>>,
)
    ensures
        wired_bytes(seq![]) == 0,
        wired_bytes(seq![item]) == item.media.size,
        wired_bytes(a + b) == wired_bytes(a) + wired_bytes(b),
    decreases b.len(),
{
    assert(seq![item].drop_last() =~= seq![]);
    assert(wired_bytes(seq![item].drop_last()) == 0);
    if b.len() == 0 {
        assert(a + b =~= a);
    } else {
        assert((a + b).drop_last() =~= a + b.drop_last());
        wired_bytes_add_up(a, b.drop_last(), item);
    }
}

/// The summary of a run states its counts.
pub proof fn a_wired_summary_states_the_counts(m: WiredModel)
    requires
        0 <= m.copied <= usize::MAX,
        0 <= m.failed <= usize::MAX,
        0 <= m.queued <= usize::MAX,
        0 <= m.skipped <= usize::MAX,
        0 <= m.bytes <= u64::MAX,
    ensures
        ({
            let s = m.summary();
            &&& s.copied == m.copied && s.failed == m.failed && s.bytes == m.bytes
            &&& s.skipped == m.skipped && s.queued == m.queued
        }),
{
}

/// The ledger is asked for a file by the serial number of the camera and by the name, the size
/// and the time of the file.
pub proof fn a_wired_item_is_known_by_all_of_it(m: WiredModel, i: int)
    ensures
        m.key(i).serial == m.serial,
        m.key(i).name == m.plan[i].media.name,
        m.key(i).size == m.plan[i].media.size,
        m.key(i).mtime_unix == m.plan[i].media.captured_unix,
{
}

/// A file stands on the camera below its directory. A connection may take two seconds, a short
/// answer ten, and a download may rest for thirty. A request that took too long failed in the
/// transport, and says what took too long and how long it was given.
pub proof fn a_camera_is_given_its_time(
    base: Seq<char>,
    m: RemoteMedia<Seq<char>>,
    url: Seq<char>,
    what: Seq<char>,
    after: Seq<char>,
)
    ensures
        media_address(base, m) == base + "/videos/DCIM/"@ + m.dir + "/"@ + m.name,
        CONNECT_TIMEOUT_MS == 2000,
        CONTROL_TIMEOUT_MS == 10_000,
        IDLE_TIMEOUT_MS == 30_000,
        timed_out(url, what, after) == (CoreError::Http {
            status: None,
            msg: "GET "@ + url + ": "@ + what + " timed out after "@ + after,
        }),
{
}

/// A time below a second is written in milliseconds, whole seconds in seconds, and parts of a
/// second behind a point, without zeros at the end.
pub proof fn a_duration_is_written_by_its_parts(secs: nat, tenths: nat, hundredths: nat, ms: nat)
    requires
        0 < secs,
        0 < tenths < 10,
        0 < hundredths < 100,
        hundredths % 10 != 0,
        0 < ms < 1000,
        ms % 10 != 0,
    ensures
        duration_text(ms) == decimal(ms) + "ms"@,
        duration_text(1000 * secs) == decimal(secs) + "s"@,
        duration_text(1000 * secs + 100 * tenths) == decimal(secs) + ("."@ + decimal(tenths)) + "s"@,
        duration_text(1000 * secs + 10 * hundredths) == decimal(secs) + ("."@ + zero_padded(
            decimal(hundredths),
            2,
        )) + "s"@,
        duration_text(1000 * secs + ms) == decimal(secs) + ("."@ + zero_padded(decimal(ms), 3))
            + "s"@,
        duration_text(0) == "0ns"@,
{
    assert((1000 * secs) / 1000 == secs && (1000 * secs) % 1000 == 0);
    assert(decimal(secs) + Seq::<char>::empty() =~= decimal(secs));
    let a = 1000 * secs + 100 * tenths;
    assert(a / 1000 == secs && a % 1000 == 100 * tenths);
    let b = 1000 * secs + 10 * hundredths;
    assert(b / 1000 == secs && b % 1000 == 10 * hundredths);
    let c = 1000 * secs + ms;
    assert(c / 1000 == secs && c % 1000 == ms);
}

} // verus!
