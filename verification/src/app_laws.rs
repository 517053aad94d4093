//! Laws of what the application shows and does: states, icons, notifications, settings and
//! the command line.

use crate::app_state::{AppState, RunProgress, Status, UploadProgress};
use crate::cli::{
    command_of, config_split, final_message, job_line, positional, safety_flag, state_lines,
    status_lines, unknown_flag, worker_for, Command,
};
use crate::cloud::CloudEvent;
use crate::cloud_runtime::runtime_of;
use crate::commands::{
    cloud_under, config_in_force, counted, dest_root_of, history, CloudCounts, CtxModel,
};
use crate::config::{config_path_of, default_config, Config, Layout};
use crate::detect::usb_network;
use crate::error::CoreError;
use crate::ledger::{jobs_in, CloudJob, JobState, LedgerModel};
use crate::ledger_laws::listing_is_exact;
use crate::orchestrator::{RunEvent, RunSummary};
use crate::paths::path_join;
use crate::text::decimal;
use crate::tray::{bootstrap_of, cloud_notice, icon_code, icon_of, summary_notice, RearmModel};
use vstd::prelude::*;

verus! {

// ---- what a run shows -------------------------------------------------------

/// A scan begins the count of a run anew: nothing is done, the totals are those of the scan,
/// the time is now, what is known of the camera stays, and an earlier message goes.
pub proof fn a_scan_begins_the_count_anew(
    s: AppState<Seq<char>>,
    new_files: usize,
    total_bytes: u64,
    now_unix: i64,
)
    ensures
        ({
            let t = s.after_run_event(RunEvent::Scanned { new_files, total_bytes }, now_unix);
            &&& t.status == Status::Working && t.message is None && t.run is Some
            &&& t.run->0.files_total == new_files && t.run->0.bytes_total == total_bytes
            &&& t.run->0.files_done == 0 && t.run->0.bytes_done == 0
            &&& t.run->0.completed_bytes == 0 && t.run->0.current_file is None
            &&& t.run->0.started_at_unix == now_unix
            &&& s.run matches Some(r) ==> t.run->0.model == r.model && t.run->0.serial == r.serial
            &&& t.last_run == s.last_run && t.cloud == s.cloud && t.seq == s.seq
        }),
{
}

/// A file that begins is shown as the current one, the files before it are done, and the
/// bytes are those of the files that are complete.
pub proof fn a_file_that_begins_is_shown(
    s: AppState<Seq<char>>,
    file: Seq<char>,
    index: usize,
    total: usize,
    now_unix: i64,
)
    requires
        s.run is Some,
    ensures
        ({
            let t = s.after_run_event(RunEvent::Copying { file, index, total }, now_unix);
            &&& t.status == Status::Working && t.run is Some
            &&& t.run->0.current_file == Some(file)
            &&& index > 0 ==> t.run->0.files_done + 1 == index
            &&& t.run->0.bytes_done == s.run->0.completed_bytes
            &&& t.run->0.completed_bytes == s.run->0.completed_bytes
            &&& t.run->0.files_total == s.run->0.files_total && t.run->0.bytes_total
                == s.run->0.bytes_total
            &&& t.run->0.started_at_unix == s.run->0.started_at_unix
            &&& t.message == s.message && t.last_run == s.last_run && t.seq == s.seq
        }),
{
}

/// Progress puts the bytes of the current file on top of those that are complete; when the
/// file is verified they become complete, and one more file is done, up to the total.
pub proof fn progress_counts_on_top(
    s: AppState<Seq<char>>,
    file: Seq<char>,
    copied: u64,
    total: u64,
    now_unix: i64,
)
    requires
        s.run is Some,
        s.run->0.completed_bytes + copied <= u64::MAX,
    ensures
        ({
            let r = s.run->0;
            let p = s.after_run_event(RunEvent::Progress { file, copied, total }, now_unix);
            let v = p.after_run_event(RunEvent::Verified { file }, now_unix);
            &&& p.run is Some && v.run is Some
            &&& p.run->0.bytes_done == r.completed_bytes + copied
            &&& p.run->0.completed_bytes == r.completed_bytes && p.run->0.files_done
                == r.files_done
            &&& v.run->0.completed_bytes == r.completed_bytes + copied
            &&& v.run->0.bytes_done == r.completed_bytes + copied
            &&& r.files_done < r.files_total ==> v.run->0.files_done == r.files_done + 1
            &&& r.files_done >= r.files_total ==> v.run->0.files_done == r.files_total
            &&& v.status == s.status && v.message == s.message && v.cloud == s.cloud
        }),
{
}

/// A file that failed, a destination that is too full and a run that broke off put the state
/// in error with a message that says why; only the last of them ends the run.
pub proof fn failures_are_shown(
    s: AppState<Seq<char>>,
    file: Seq<char>,
    error: Seq<char>,
    need: u64,
    have: u64,
    now_unix: i64,
)
    ensures
        ({
            let f = s.after_run_event(RunEvent::Failed { file, error }, now_unix);
            let i = s.after_run_event(RunEvent::InsufficientSpace { need, have }, now_unix);
            let e = s.after_run_error(error);
            &&& f.status == Status::Error && i.status == Status::Error && e.status == Status::Error
            &&& f.message == Some(file + ": "@ + error)
            &&& i.message == Some(
                "insufficient space: need "@ + decimal(need as nat) + " bytes, have "@ + decimal(
                    have as nat,
                ),
            )
            &&& e.message == Some(error)
            &&& f.run == s.run && i.run == s.run && e.run is None
            &&& f.last_run == s.last_run && i.last_run == s.last_run && e.last_run == s.last_run
            &&& f.cloud == s.cloud && i.cloud == s.cloud && e.cloud == s.cloud
        }),
{
}

/// A source that could not be deleted is shown as a message and is no error. What was skipped,
/// deleted or ejected, and a volume that is no card, change nothing.
pub proof fn a_source_that_stays_is_a_message(
    s: AppState<Seq<char>>,
    file: Seq<char>,
    error: Seq<char>,
    now_unix: i64,
)
    ensures
        ({
            let t = s.after_run_event(RunEvent::CardDeleteFailed { file, error }, now_unix);
            &&& t == (AppState { message: t.message, ..s })
            &&& t.message == Some("card delete-after-verify failed for "@ + file + ": "@ + error)
            &&& s.after_run_event(RunEvent::Skipped { file }, now_unix) == s
            &&& s.after_run_event(RunEvent::CardFileDeleted { file }, now_unix) == s
            &&& s.after_run_event(RunEvent::Ejected { mount: file }, now_unix) == s
            &&& s.after_run_event(RunEvent::NotGoPro(file), now_unix) == s
        }),
{
}

/// A card that was detected is shown with its model and its serial number; the run goes on as
/// it was.
pub proof fn a_card_is_shown(
    s: AppState<Seq<char>>,
    model: Option<Seq<char>>,
    serial: Option<Seq<char>>,
    now_unix: i64,
)
    ensures
        ({
            let t = s.after_run_event(RunEvent::CardDetected { model, serial }, now_unix);
            &&& t.run is Some && t.run->0.model == model && t.run->0.serial == serial
            &&& s.run matches Some(r) ==> t.run->0 == (RunProgress { model, serial, ..r })
            &&& s.run is None ==> t.run->0.bytes_done == 0 && t.run->0.started_at_unix == now_unix
            &&& t.status == s.status && t.message == s.message && t.cloud == s.cloud
        }),
{
}

// ---- what the mirror shows --------------------------------------------------

/// An upload is shown while it goes on. When it is done, one file fewer is pending; when it is
/// given up on, one file fewer is pending and one more has failed, and the state is in error.
/// A queued file is one more that is pending. Counts never fall below zero.
pub proof fn uploads_are_counted(
    s: AppState<Seq<char>>,
    file: Seq<char>,
    error: Seq<char>,
    uploaded: u64,
    total: u64,
    now_unix: i64,
)
    requires
        s.cloud.pending < usize::MAX,
        s.cloud.failed < usize::MAX,
    ensures
        ({
            let u = s.after_cloud_event(CloudEvent::Uploading { file, uploaded, total });
            let m = s.after_cloud_event(CloudEvent::Mirrored { file });
            let f = s.after_cloud_event(CloudEvent::CloudFailed { file, error });
            let q = s.after_run_event(RunEvent::CloudQueued { file }, now_unix);
            &&& u.cloud.uploading == Some(UploadProgress { file, uploaded, total })
            &&& u.cloud.pending == s.cloud.pending && u.cloud.failed == s.cloud.failed
            &&& u.status == s.status && u.message == s.message
            &&& m.cloud.uploading is None && m.cloud.failed == s.cloud.failed
            &&& s.cloud.pending > 0 ==> m.cloud.pending == s.cloud.pending - 1
            &&& s.cloud.pending == 0 ==> m.cloud.pending == 0
            &&& m.status == s.status && m.message == s.message
            &&& f.cloud.uploading is None && f.cloud.failed == s.cloud.failed + 1
            &&& s.cloud.pending > 0 ==> f.cloud.pending == s.cloud.pending - 1
            &&& s.cloud.pending == 0 ==> f.cloud.pending == 0
            &&& f.status == Status::Error && f.message == Some(file + ": "@ + error)
            &&& q.cloud.pending == s.cloud.pending + 1 && q.cloud.configured
            &&& q.cloud.failed == s.cloud.failed && q.cloud.uploading == s.cloud.uploading
            &&& q.status == s.status && q.run == s.run
            &&& u.cloud.paused == s.cloud.paused && m.cloud.paused == s.cloud.paused
            &&& f.cloud.paused == s.cloud.paused && q.cloud.paused == s.cloud.paused
        }),
{
}

/// What became of the source on the card after an upload is shown as a message and changes
/// nothing else.
pub proof fn deletions_are_messages(s: AppState<Seq<char>>, file: Seq<char>, error: Seq<char>)
    ensures
        s.after_cloud_event(CloudEvent::Deleted { file }) == (AppState {
            message: Some("freed card space: "@ + file),
            ..s
        }),
        s.after_cloud_event(CloudEvent::DeleteFailed { file, error }) == (AppState {
            message: Some("card delete-after-verify failed for "@ + file + ": "@ + error),
            ..s
        }),
{
}

// ---- the tray ---------------------------------------------------------------

/// The icon is that of an error exactly in error, that of work exactly while something is in
/// progress and nothing is wrong, and otherwise that of rest. Each has a number of its own.
pub proof fn the_icon_follows_the_state(s: AppState<Seq<char>>)
    ensures
        icon_of(s) == "error"@ <==> s.status == Status::Error,
        icon_of(s) == "working"@ <==> s.status != Status::Error && (s.run is Some
            || s.cloud.uploading is Some),
        icon_of(s) == "idle"@ <==> s.status != Status::Error && s.run is None
            && s.cloud.uploading is None,
        icon_code("idle"@) != icon_code("working"@),
        icon_code("idle"@) != icon_code("error"@),
        icon_code("working"@) != icon_code("error"@),
{
    reveal_strlit("error");
    reveal_strlit("working");
    reveal_strlit("idle");
    assert("error"@.len() == 5);
    assert("working"@.len() == 7);
    assert("idle"@.len() == 4);
}

/// A run raises no notification exactly if it copied nothing and nothing failed. Where files
/// failed it says how many, whatever else it did; otherwise it says how many were copied and
/// how many were skipped.
pub proof fn a_run_that_did_something_is_announced(s: RunSummary)
    ensures
        summary_notice(s) is None <==> s.failed == 0 && s.copied == 0,
        s.failed > 0 ==> summary_notice(s) == Some(
            ("GPBeam"@, decimal(s.failed as nat) + " file(s) failed to copy"@),
        ),
        s.failed == 0 && s.copied > 0 ==> summary_notice(s) == Some(
            (
                "GPBeam"@,
                "Copied "@ + decimal(s.copied as nat) + " file(s), "@ + decimal(s.skipped as nat)
                    + " skipped"@,
            ),
        ),
{
}

/// Every event of the worker but an upload in progress is announced, and a failure under a
/// title of its own.
pub proof fn the_worker_is_announced(ev: CloudEvent<Seq<char>>)
    ensures
        cloud_notice(ev) is None <==> ev is Uploading,
        cloud_notice(ev) matches Some(n) ==> n.0 == (if ev is CloudFailed {
            "GPBeam cloud error"@
        } else {
            "GPBeam"@
        }),
        ev matches CloudEvent::CloudFailed { file, error } ==> (cloud_notice(ev)->0).1 == file
            + ": "@ + error,
        ev matches CloudEvent::Mirrored { file } ==> (cloud_notice(ev)->0).1 == "Mirrored "@ + file
            + " to cloud"@,
{
}

/// A camera whose run needs another try is tried again at most twice in a row: the first and
/// the second time it is, and the count goes up by one; the third time it is not.
pub proof fn a_camera_is_tried_again_twice(m: RearmModel, camera: u128)
    ensures
        m.tries(camera) < 2 ==> m.tries_again(camera, true) && m.after_run(camera, true).tries(
            camera,
        ) == m.tries(camera) + 1 && m.after_run(camera, true).rearmed.contains(camera),
        m.tries(camera) >= 2 ==> !m.tries_again(camera, true) && m.after_run(camera, true).tries(
            camera,
        ) == m.tries(camera) && !m.after_run(camera, true).rearmed.contains(camera),
        !m.after_run(camera, false).rearmed.contains(camera),
        m.rearmed.contains(camera) ==> m.found(camera).tries(camera) == m.tries(camera),
        m.found(camera).rearmed == m.rearmed,
{
}

/// Cameras answer on the networks from 172.20 to 172.29, and on no other.
pub proof fn these_are_the_networks_of_cameras(a: u8, b: u8)
    ensures
        usb_network(a, b) <==> a == 172 && (b == 20 || b == 21 || b == 22 || b == 23 || b == 24 || b
            == 25 || b == 26 || b == 27 || b == 28 || b == 29),
{
}

// ---- settings ---------------------------------------------------------------

/// What an installation without a configuration file does: it names files by date, leaves
/// proxies and thumbnails out, verifies what it copies, keeps a gibibyte free, mirrors
/// nothing, deletes nothing and ejects nothing, and takes files from wired cameras.
pub proof fn the_defaults_are_safe(dest_root: Seq<char>)
    ensures
        ({
            let c = default_config(dest_root);
            &&& c.dest_root == dest_root && c.filename_template == "{date}_{original}"@
            &&& !c.include_proxies && !c.include_thumbnails && c.layout == Layout::Flat
            &&& c.verify && c.space_headroom == 1024 * 1024 * 1024
            &&& c.cloud is None && !c.delete_after_verify && !c.auto_eject && c.wired_ingest
        }),
{
}

/// Files go where the configuration says, unless the environment overrides it or it says
/// nothing; what was loaded is in force otherwise, and without it the defaults are.
pub proof fn the_loaded_configuration_is_in_force(
    c: Config<Seq<char>>,
    default_dest: Seq<char>,
    env_override: bool,
)
    ensures
        ({
            let f = config_in_force(Some(c), default_dest, env_override);
            &&& env_override ==> f.dest_root == default_dest
            &&& !env_override && c.dest_root.len() > 0 ==> f.dest_root == c.dest_root
            &&& c.dest_root.len() == 0 ==> f.dest_root == default_dest
            &&& f == (Config { dest_root: f.dest_root, ..c })
            &&& config_in_force(None, default_dest, env_override) == default_config(default_dest)
            &&& dest_root_of(c.dest_root, default_dest, env_override) == f.dest_root
        }),
{
}

/// The configuration file is the one that the environment names, and otherwise `gpbeam.toml`
/// below the destination; the directory of the application is the one that the environment
/// names, and otherwise `GPBeam` below the home directory. An empty name counts as none.
pub proof fn the_environment_names_files(name: Seq<char>, dir: Seq<char>)
    ensures
        name.len() > 0 ==> config_path_of(Some(name), dir) == name,
        name.len() > 0 ==> bootstrap_of(Some(name), dir) == name,
        name.len() == 0 ==> config_path_of(Some(name), dir) == path_join(dir, "gpbeam.toml"@),
        name.len() == 0 ==> bootstrap_of(Some(name), dir) == path_join(dir, "GPBeam"@),
        config_path_of(None, dir) == path_join(dir, "gpbeam.toml"@),
        bootstrap_of(None, dir) == path_join(dir, "GPBeam"@),
{
}

/// The upload loop goes by the destination and the deletion switch of the configuration.
pub proof fn the_loop_goes_by_the_configuration(cfg: Config<Seq<char>>)
    ensures
        runtime_of(cfg).config == cfg.cloud,
        runtime_of(cfg).delete_after_verify == cfg.delete_after_verify,
{
}

/// Counts of the ledger are taken over where they are known. Without a destination nothing
/// waits, nothing has failed and nothing is uploaded; with one the counts are taken over.
/// Whether the loop rests does not change.
pub proof fn counts_are_those_of_the_ledger(
    s: AppState<Seq<char>>,
    cfg: Config<Seq<char>>,
    pending: usize,
    failed: usize,
)
    ensures
        ({
            let known = Some(CloudCounts { pending, failed });
            let c = counted(s.cloud, known);
            let u = cloud_under(s.cloud, cfg, known);
            &&& c.pending == pending && c.failed == failed
            &&& c.configured == s.cloud.configured && c.uploading == s.cloud.uploading
            &&& counted(s.cloud, None) == s.cloud
            &&& u.configured == (cfg.cloud is Some)
            &&& cfg.cloud is Some ==> u.pending == pending && u.failed == failed && u.uploading
                == s.cloud.uploading
            &&& cfg.cloud is None ==> u.pending == 0 && u.failed == 0 && u.uploading is None
            &&& u.paused == s.cloud.paused && c.paused == s.cloud.paused
        }),
{
}

/// Pausing and resuming do just that, show it, and touch nothing else; the detector rests
/// exactly while an offload goes on or wired cameras are not wanted.
pub proof fn commands_do_what_they_say(
    m: CtxModel,
    paused: bool,
    active: bool,
    cfg: Config<Seq<char>>,
    counts: Option<CloudCounts>,
)
    requires
        m.state.seq < u64::MAX,
    ensures
        ({
            let p = m.pausing(paused);
            let o = m.offloading(active);
            let s = m.saved(cfg, counts);
            &&& p.paused == paused && p.state.cloud.paused == paused
            &&& p.state.seq == m.state.seq + 1 && p.runtime == m.runtime
            &&& p.state.cloud.pending == m.state.cloud.pending && p.state.run == m.state.run
            &&& p.detector_paused == m.detector_paused
            &&& o.wired_offload_active == active && o.state == m.state && o.paused == m.paused
            &&& o.detector_paused == (active || !m.wired_enabled)
            &&& s.state.seq == m.state.seq + 1 && s.paused == m.paused
            &&& s.runtime.config == cfg.cloud && s.runtime.delete_after_verify
                == cfg.delete_after_verify
            &&& s.detector_paused == (m.wired_offload_active || !cfg.wired_ingest)
            &&& s.state.run == m.state.run && s.state.last_run == m.state.last_run
        }),
{
}

/// The history shows each of the newest imports with its name, its place, its size, its time
/// and its cloud status, the newest first.
pub proof fn the_history_shows_the_newest_imports(ledger: LedgerModel, limit: nat, i: int)
    requires
        0 <= i < history(ledger, limit).len(),
    ensures
        ({
            let row = ledger.imports[ledger.imports.len() - 1 - i];
            let shown = history(ledger, limit)[i];
            &&& shown.name == row.name && shown.dest_path == row.dest_path
            &&& shown.size == row.size && shown.copied_at == row.copied_at
            &&& shown.cloud_status == row.cloud_status
        }),
        history(ledger, limit).len() == limit || history(ledger, limit).len()
            == ledger.imports.len(),
        history(ledger, limit).len() <= limit,
{
}

/// The worker of the command line goes by the destination of the configuration.
pub proof fn the_worker_goes_by_the_configuration(cfg: Config<Seq<char>>, ledger_path: Seq<char>)
    requires
        cfg.cloud is Some,
    ensures
        ({
            let w = worker_for(cfg, ledger_path);
            &&& w.ledger_path == ledger_path && w.destination_id == cfg.cloud->0.destination_id
            &&& w.max_concurrency == cfg.cloud->0.max_concurrency
            &&& w.max_attempts == cfg.cloud->0.max_attempts
            &&& w.delete_after_verify == cfg.delete_after_verify
        }),
{
}

// ---- the command line -------------------------------------------------------

proof fn lemma_command_names()
    ensures
        "offload"@ != "watch"@,
        "offload"@ != "mirror"@,
        "offload"@ != "mirror-status"@,
        "offload"@ != "retry-cloud"@,
        "watch"@ != "mirror"@,
        "watch"@ != "mirror-status"@,
        "watch"@ != "retry-cloud"@,
        "mirror"@ != "mirror-status"@,
        "mirror"@ != "retry-cloud"@,
        "mirror-status"@ != "retry-cloud"@,
        "--version"@ != "offload"@,
        "--version"@ != "watch"@,
        "--version"@ != "mirror"@,
        "--version"@ != "mirror-status"@,
        "--version"@ != "retry-cloud"@,
        "-V"@ != "offload"@,
        "-V"@ != "watch"@,
        "-V"@ != "mirror"@,
        "-V"@ != "mirror-status"@,
        "-V"@ != "retry-cloud"@,
{
    reveal_strlit("offload");
    reveal_strlit("watch");
    reveal_strlit("mirror");
    reveal_strlit("mirror-status");
    reveal_strlit("retry-cloud");
    reveal_strlit("--version");
    reveal_strlit("-V");
    assert("offload"@.len() == 7);
    assert("watch"@.len() == 5);
    assert("mirror"@.len() == 6);
    assert("mirror-status"@.len() == 13);
    assert("retry-cloud"@.len() == 11);
    assert("--version"@.len() == 9);
    assert("-V"@.len() == 2);
}

/// Each command is asked for by its name and its paths, and nothing else asks for it: an
/// offload by a card and a destination, the others by a destination.
pub proof fn each_command_has_its_name(args: Seq<Seq<char>>)
    ensures
        ({
            let c = command_of(args);
            &&& c is Version <==> args.len() > 0 && (args[0] == "--version"@ || args[0] == "-V"@)
            &&& c is Offload <==> args.len() > 2 && args[0] == "offload"@
            &&& c is Watch <==> args.len() > 1 && args[0] == "watch"@
            &&& c is Mirror <==> args.len() > 1 && args[0] == "mirror"@
            &&& c is MirrorStatus <==> args.len() > 1 && args[0] == "mirror-status"@
            &&& c is RetryCloud <==> args.len() > 1 && args[0] == "retry-cloud"@
            &&& c matches Command::Offload { card, dest } ==> card == args[1] && dest == args[2]
            &&& c matches Command::Watch { dest } ==> dest == args[1]
            &&& c matches Command::Mirror { dest } ==> dest == args[1]
            &&& c matches Command::MirrorStatus { dest } ==> dest == args[1]
            &&& c matches Command::RetryCloud { dest } ==> dest == args[1]
        }),
{
    lemma_command_names();
}

/// The safety switches, and only they, are taken out of the arguments; the others stay in
/// their order.
pub proof fn only_the_switches_are_taken_out(
    a: Seq<Seq<char>>,
    b: Seq<Seq<char>>,
    x: Seq<char>,
)
    ensures
        positional(a + b) == positional(a) + positional(b),
        x == "--delete-after-verify"@ || x == "--auto-eject"@ ==> positional(seq![x]).len() == 0,
        x != "--delete-after-verify"@ && x != "--auto-eject"@ ==> positional(seq![x]) == seq![x],
        unknown_flag(x) <==> x.len() >= 2 && x[0] == '-' && x[1] == '-' && x
            != "--delete-after-verify"@ && x != "--auto-eject"@ && x != "--version"@,
    decreases b.len(),
{
    let one = seq![x];
    assert(one.drop_last() =~= seq![]);
    assert(positional(one.drop_last()) =~= seq![]);
    assert(one.last() == x);
    if !safety_flag(x) {
        assert(positional(one) =~= seq![x]);
    }
    reveal_strlit("--");
    if x.len() >= 2 {
        assert(x.subrange(0, 2)[0] == x[0] && x.subrange(0, 2)[1] == x[1]);
        if x[0] == '-' && x[1] == '-' {
            assert(x.subrange(0, 2) =~= "--"@);
        }
    }
    if b.len() == 0 {
        assert(a + b =~= a);
        assert(positional(a) + positional(b) =~= positional(a));
    } else {
        assert((a + b).drop_last() =~= a + b.drop_last());
        only_the_switches_are_taken_out(a, b.drop_last(), x);
        assert(positional(a + b) =~= positional(a) + positional(b));
    }
}

/// `--config` is taken out with its value, the last one counts, and arguments around it stay.
/// One without a value is refused.
pub proof fn a_configuration_file_is_taken_out(
    before: Seq<Seq<char>>,
    value: Seq<char>,
    after: Seq<Seq<char>>,
    config: Option<Seq<char>>,
)
    requires
        !before.contains("--config"@),
        !after.contains("--config"@),
    ensures
        config_split(before + seq!["--config"@, value] + after, config) == Some(
            (before + after, Some(value)),
        ),
        config_split(before, config) == Some((before, config)),
        config_split(before + seq!["--config"@], config) is None,
    decreases before.len(),
{
    let all = before + seq!["--config"@, value] + after;
    let cut = before + seq!["--config"@];
    if before.len() == 0 {
        assert(all[0] == "--config"@ && all[1] == value);
        assert(all.skip(2) =~= after);
        lemma_no_config(after, Some(value));
        assert(before + after =~= after);
        assert(cut[0] == "--config"@);
        assert(before =~= seq![]);
    } else {
        let rest = before.skip(1);
        assert(before.contains(before[0]));
        assert(!rest.contains("--config"@)) by {
            if rest.contains("--config"@) {
                let i = choose|i: int| 0 <= i < rest.len() && rest[i] == "--config"@;
                assert(before[i + 1] == "--config"@);
            }
        }
        a_configuration_file_is_taken_out(rest, value, after, config);
        assert(all.skip(1) =~= rest + seq!["--config"@, value] + after);
        assert(cut.skip(1) =~= rest + seq!["--config"@]);
        assert(all[0] == before[0] && cut[0] == before[0]);
        assert(seq![before[0]] + (rest + after) =~= before + after);
        assert(seq![before[0]] + rest =~= before);
    }
}

proof fn lemma_no_config(args: Seq<Seq<char>>, config: Option<Seq<char>>)
    requires
        !args.contains("--config"@),
    ensures
        config_split(args, config) == Some((args, config)),
    decreases args.len(),
{
    if args.len() > 0 {
        let rest = args.skip(1);
        assert(args.contains(args[0]));
        assert(!rest.contains("--config"@)) by {
            if rest.contains("--config"@) {
                let i = choose|i: int| 0 <= i < rest.len() && rest[i] == "--config"@;
                assert(args[i + 1] == "--config"@);
            }
        }
        lemma_no_config(rest, config);
        assert(seq![args[0]] + rest =~= args);
    } else {
        assert(args =~= seq![]);
    }
}

/// A run ends without a message, and so with success, exactly if nothing failed.
pub proof fn only_a_clean_run_is_silent(
    r: std::result::Result<usize, CoreError<Seq<char>>>,
)
    ensures
        final_message(r) is None <==> r is Ok && r->Ok_0 == 0,
        r matches Ok(n) ==> n > 0 ==> final_message(r) == Some(
            "error: "@ + decimal(n as nat) + " file(s) failed"@,
        ),
        r matches Err(e) ==> final_message(r) == Some("error: "@ + e.text()),
{
}

/// The queue is shown whole: every job has its line.
pub proof fn every_job_is_shown(jobs: Seq<CloudJob<Seq<char>>>, i: int)
    requires
        0 <= i < jobs.len(),
    ensures
        status_lines(jobs).contains(job_line(jobs[i])),
        status_lines(jobs).last() == "pending: "@ + decimal(crate::ledger::pending_count(jobs)),
{
    let s = jobs[i].state;
    let mine = state_lines(jobs, s);
    let js = jobs_in(jobs, Some(s));
    listing_is_exact(jobs, s, jobs[i]);
    assert(jobs.contains(jobs[i]));
    let k = choose|k: int| 0 <= k < js.len() && js[k] == jobs[i];
    assert(mine[k + 1] == job_line(jobs[i]));
    let a = state_lines(jobs, JobState::Uploading);
    let b = state_lines(jobs, JobState::Queued);
    let c = state_lines(jobs, JobState::Failed);
    let d = state_lines(jobs, JobState::Done);
    let all = status_lines(jobs);
    let at: nat = match s {
        JobState::Uploading => 0,
        JobState::Queued => a.len(),
        JobState::Failed => a.len() + b.len(),
        JobState::Done => a.len() + b.len() + c.len(),
    };
    assert(all[at + k + 1] == mine[k + 1]);
}

} // verus!
