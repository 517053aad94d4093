//! Laws of lines and messages: what each of them tells.

use crate::app_state::{initial_state, Status};
use crate::cli::{cloud_line, job_line, run_line, state_lines};
use crate::cloud::CloudEvent;
use crate::commands::CtxModel;
use crate::config::Config;
use crate::error::{refused, CoreError};
use crate::ledger::{jobs_in, CloudJob, JobState};
use crate::orchestrator::RunEvent;
use crate::text::{decimal, decimal_int};
use vstd::prelude::*;

verus! {

/// Every event of a run but progress has a line, and the line of a file names it: behind a
/// mark, and with the error behind it where there is one.
pub proof fn a_run_line_names_its_file(file: Seq<char>, error: Seq<char>, copied: u64, total: u64)
    ensures
        run_line(RunEvent::Progress { file, copied, total }) is None,
        run_line(RunEvent::Verified { file }) == Some("  [ok] "@ + file),
        run_line(RunEvent::Skipped { file }) == Some("  [skip] "@ + file),
        run_line(RunEvent::Failed { file, error }) == Some("  [FAIL] "@ + file + ": "@ + error),
        run_line(RunEvent::CloudQueued { file }) == Some("[cloud-queued] "@ + file),
        run_line(RunEvent::CardFileDeleted { file }) == Some("  [deleted] "@ + file),
        run_line(RunEvent::CardDeleteFailed { file, error }) == Some(
            "  [warn] "@ + file + ": card delete-after-verify failed: "@ + error,
        ),
        run_line(RunEvent::Ejected { mount: file }) == Some("[ejected] "@ + file),
        run_line(RunEvent::NotGoPro(file)) == Some("[skip] not a GoPro card: "@ + file),
{
}

/// The lines that count state their numbers in their order, and the line of a card its model
/// and its serial number, or words for those that are not known.
pub proof fn a_run_line_states_its_numbers(
    file: Seq<char>,
    model: Seq<char>,
    serial: Seq<char>,
    a: usize,
    b: usize,
    c: usize,
    n: u64,
    k: u64,
)
    ensures
        run_line(RunEvent::Scanned { new_files: a, total_bytes: n }) == Some(
            "[scan] "@ + decimal(a as nat) + " new file(s), "@ + decimal(n as nat) + " bytes"@,
        ),
        run_line(RunEvent::InsufficientSpace { need: n, have: k }) == Some(
            "[error] not enough space: need "@ + decimal(n as nat) + ", have "@ + decimal(k as nat),
        ),
        run_line(RunEvent::Copying { file, index: a, total: b }) == Some(
            "[copy "@ + decimal(a as nat) + "/"@ + decimal(b as nat) + "] "@ + file,
        ),
        run_line(RunEvent::RunComplete { copied: a, skipped: b, failed: c, bytes: n }) == Some(
            "[done] copied "@ + decimal(a as nat) + ", skipped "@ + decimal(b as nat) + ", failed "@
                + decimal(c as nat) + ", "@ + decimal(n as nat) + " bytes"@,
        ),
        run_line(RunEvent::CardDetected { model: Some(model), serial: Some(serial) }) == Some(
            "[detect] "@ + model + " (serial "@ + serial + ")"@,
        ),
        run_line(RunEvent::CardDetected { model: None, serial: None }) == Some(
            "[detect] "@ + "GoPro"@ + " (serial "@ + "unknown"@ + ")"@,
        ),
{
}

/// Every event of the worker has a line that names its file.
pub proof fn a_cloud_line_names_its_file(file: Seq<char>, error: Seq<char>, n: u64, k: u64)
    ensures
        cloud_line(CloudEvent::Uploading { file, uploaded: n, total: k }) == "[uploading] "@ + file
            + " "@ + decimal(n as nat) + "/"@ + decimal(k as nat),
        cloud_line(CloudEvent::Mirrored { file }) == "[mirrored] "@ + file,
        cloud_line(CloudEvent::CloudFailed { file, error }) == "[cloud-FAIL] "@ + file + ": "@
            + error,
        cloud_line(CloudEvent::Deleted { file }) == "[deleted] "@ + file,
        cloud_line(CloudEvent::DeleteFailed { file, error }) == "[warn] could not delete "@ + file
            + " from card: "@ + error,
{
}

/// The line of a job tells its state, its number, its attempts, where it comes from and where
/// it goes, and its last error where it has one. Jobs of a state stand below a heading that
/// counts them, and a state without jobs has none.
pub proof fn a_job_line_tells_the_job(j: CloudJob<Seq<char>>, jobs: Seq<CloudJob<Seq<char>>>)
    ensures
        ({
            let head = "  ["@ + j.state.name() + "] #"@ + decimal_int(j.id as int) + " attempts="@
                + decimal(j.attempts as nat) + " "@ + j.local_path + " -> "@ + j.remote_path + " "@;
            &&& j.last_error is None ==> job_line(j) == head
            &&& j.last_error matches Some(e) ==> e.len() > 0 ==> job_line(j) == head + ("("@ + e
                + ")"@)
        }),
        JobState::Queued.name() == "queued"@,
        JobState::Uploading.name() == "uploading"@,
        JobState::Done.name() == "done"@,
        JobState::Failed.name() == "failed"@,
        ({
            let js = jobs_in(jobs, Some(j.state));
            let lines = state_lines(jobs, j.state);
            &&& js.len() == 0 ==> lines.len() == 0
            &&& js.len() > 0 ==> lines.len() == js.len() + 1 && lines[0] == "== "@ + j.state.name()
                + " ("@ + decimal(js.len()) + ") =="@
        }),
{
    let head = "  ["@ + j.state.name() + "] #"@ + decimal_int(j.id as int) + " attempts="@
        + decimal(j.attempts as nat) + " "@ + j.local_path + " -> "@ + j.remote_path + " "@;
    if j.last_error is None {
        assert(job_line(j) =~= head);
    }
}

/// The text of an error says what failed and why.
pub proof fn an_error_says_what_failed(p: Seq<char>, m: Seq<char>, need: u64, have: u64, code: u16)
    ensures
        (CoreError::Io { path: p, source: m }).text() == "io error at "@ + p + ": "@ + m,
        CoreError::Db(m).text() == "db error: "@ + m,
        CoreError::NotGoProCard(p).text() == "not a GoPro card: "@ + p,
        (CoreError::<Seq<char>>::InsufficientSpace { need, have }).text()
            == "insufficient space on destination: need "@ + decimal(need as nat) + " bytes, have "@
            + decimal(have as nat),
        CoreError::VerifyFailed(p).text() == "verification failed for "@ + p,
        (CoreError::Http { status: Some(code), msg: m }).text() == "http error "@ + ("Some("@
            + decimal(code as nat) + ")"@) + ": "@ + m,
        (CoreError::Http { status: None, msg: m }).text() == "http error "@ + "None"@ + ": "@ + m,
        CoreError::RunAborted(m).text() == m,
        CoreError::CloudAuth(m).text() == "cloud auth error: "@ + m,
        CoreError::Config(m).text() == "config error: "@ + m,
{
}

/// The failure of a request that was answered with an unexpected code carries the code, and
/// says what was asked of which address.
pub proof fn a_refusal_carries_its_code(what: Seq<char>, url: Seq<char>, code: u16)
    ensures
        refused(what, url, code) == (CoreError::Http {
            status: Some(code),
            msg: what + url + " -> "@ + decimal(code as nat),
        }),
{
}

/// The application starts idle, with nothing to show, with the loop at work, and with the
/// detector at work exactly if wired cameras are wanted.
pub proof fn the_application_starts_idle(
    cfg: Config<Seq<char>>,
    dest_root: Seq<char>,
    config_path: Seq<char>,
    ledger_path: Seq<char>,
)
    ensures
        ({
            let m = CtxModel::initial(cfg, dest_root, config_path, ledger_path);
            let s = initial_state();
            &&& m.state == s && !m.paused && !m.wired_offload_active
            &&& m.runtime.config == cfg.cloud && m.runtime.delete_after_verify
                == cfg.delete_after_verify
            &&& m.wired_enabled == cfg.wired_ingest && m.detector_paused == !cfg.wired_ingest
            &&& m.dest_root == dest_root && m.config_path == config_path && m.ledger_path
                == ledger_path
            &&& s.status == Status::Idle && s.run is None && s.last_run is None
            &&& s.message is None && s.seq == 0
            &&& s.cloud.pending == 0 && s.cloud.failed == 0 && s.cloud.uploading is None
            &&& !s.cloud.paused && !s.cloud.configured
        }),
{
}

} // verus!
