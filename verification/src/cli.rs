//! The command line: arguments, output lines, and exit codes.

use crate::cloud::nextcloud::NextcloudUploader;
use crate::cloud::worker::CloudWorker;
use crate::cloud::{bad_base_url, build_uploader, uploader_for, valid_base_url, CloudEvent};
use crate::config::{cloud_view, default_config, mirror_of, CloudConfig, Config, MirrorMode};
use crate::credentials::CredentialStore;
use crate::error::{CoreError, Result};
use crate::ledger::{given_up_count, job_views, jobs_in, pending_count, CloudJob, JobState, Ledger};
use crate::orchestrator::RunEvent;
use crate::paths::{join_path, path_join};
use crate::text::{
    decimal, decimal_int, lemma_push_contains, opt_view, or_text, push_i64, push_u64, same_text,
    strip_prefix, views,
};
use vstd::prelude::*;

verus! {

// ---- paths and the version --------------------------------------------------

/// Where the ledger of a destination lies.
pub fn ledger_path_for(dest: &str) -> (r: String)
    ensures
        r@ == path_join(dest@, ".gpbeam-ledger.sqlite"@),
{
    join_path(dest, ".gpbeam-ledger.sqlite")
}

/// The line that `--version` prints.
pub fn version_line() -> (r: String)
    ensures
        r@ == "gpbeam-cli 0.1.0"@,
{
    "gpbeam-cli 0.1.0".to_owned()
}

// ---- lines ------------------------------------------------------------------

/// The line for an event of an offload run. Progress has none.
pub open spec fn run_line(e: RunEvent<Seq<char>>) -> Option<Seq<char>> {
    match e {
        RunEvent::NotGoPro(p) => Some("[skip] not a GoPro card: "@ + p),
        RunEvent::CardDetected { model, serial } => Some(
            "[detect] "@ + or_text(model, "GoPro"@) + " (serial "@ + or_text(serial, "unknown"@)
                + ")"@,
        ),
        RunEvent::Scanned { new_files, total_bytes } => Some(
            "[scan] "@ + decimal(new_files as nat) + " new file(s), "@ + decimal(total_bytes as nat)
                + " bytes"@,
        ),
        RunEvent::InsufficientSpace { need, have } => Some(
            "[error] not enough space: need "@ + decimal(need as nat) + ", have "@ + decimal(
                have as nat,
            ),
        ),
        RunEvent::Copying { file, index, total } => Some(
            "[copy "@ + decimal(index as nat) + "/"@ + decimal(total as nat) + "] "@ + file,
        ),
        RunEvent::Progress { .. } => None,
        RunEvent::Verified { file } => Some("  [ok] "@ + file),
        RunEvent::Skipped { file } => Some("  [skip] "@ + file),
        RunEvent::Failed { file, error } => Some("  [FAIL] "@ + file + ": "@ + error),
        RunEvent::CloudQueued { file } => Some("[cloud-queued] "@ + file),
        RunEvent::CardFileDeleted { file } => Some("  [deleted] "@ + file),
        RunEvent::CardDeleteFailed { file, error } => Some(
            "  [warn] "@ + file + ": card delete-after-verify failed: "@ + error,
        ),
        RunEvent::Ejected { mount } => Some("[ejected] "@ + mount),
        RunEvent::RunComplete { copied, skipped, failed, bytes } => Some(
            "[done] copied "@ + decimal(copied as nat) + ", skipped "@ + decimal(skipped as nat)
                + ", failed "@ + decimal(failed as nat) + ", "@ + decimal(bytes as nat) + " bytes"@,
        ),
    }
}

/// Two texts, one behind the other.
fn pair(a: &str, b: &str) -> (r: String)
    ensures
        r@ == a@ + b@,
{
    let mut s = a.to_owned();
    s.append(b);
    s
}

/// The text of an option, or a default.
fn text_or<'a>(o: &'a Option<String>, d: &'a str) -> (r: &'a str)
    ensures
        r@ == or_text(opt_view(*o), d@),
{
    match o {
        Some(s) => s.as_str(),
        None => d,
    }
}

/// The line for an event of an offload run; `None` for progress.
pub fn format_run_event(e: &RunEvent) -> (r: Option<String>)
    ensures
        opt_view(r) == run_line(e@),
{
    match e {
        RunEvent::NotGoPro(p) => Some(pair("[skip] not a GoPro card: ", p.as_str())),
        RunEvent::CardDetected { model, serial } => {
            let mut s = "[detect] ".to_owned();
            s.append(text_or(model, "GoPro"));
            s.append(" (serial ");
            s.append(text_or(serial, "unknown"));
            s.append(")");
            Some(s)
        },
        RunEvent::Scanned { new_files, total_bytes } => {
            let mut s = "[scan] ".to_owned();
            push_u64(&mut s, *new_files as u64);
            s.append(" new file(s), ");
            push_u64(&mut s, *total_bytes);
            s.append(" bytes");
            Some(s)
        },
        RunEvent::InsufficientSpace { need, have } => {
            let mut s = "[error] not enough space: need ".to_owned();
            push_u64(&mut s, *need);
            s.append(", have ");
            push_u64(&mut s, *have);
            Some(s)
        },
        RunEvent::Copying { file, index, total } => {
            let mut s = "[copy ".to_owned();
            push_u64(&mut s, *index as u64);
            s.append("/");
            push_u64(&mut s, *total as u64);
            s.append("] ");
            s.append(file.as_str());
            Some(s)
        },
        RunEvent::Progress { .. } => None,
        RunEvent::Verified { file } => Some(pair("  [ok] ", file.as_str())),
        RunEvent::Skipped { file } => Some(pair("  [skip] ", file.as_str())),
        RunEvent::Failed { file, error } => {
            let mut s = pair("  [FAIL] ", file.as_str());
            s.append(": ");
            s.append(error.as_str());
            Some(s)
        },
        RunEvent::CloudQueued { file } => Some(pair("[cloud-queued] ", file.as_str())),
        RunEvent::CardFileDeleted { file } => Some(pair("  [deleted] ", file.as_str())),
        RunEvent::CardDeleteFailed { file, error } => {
            let mut s = pair("  [warn] ", file.as_str());
            s.append(": card delete-after-verify failed: ");
            s.append(error.as_str());
            Some(s)
        },
        RunEvent::Ejected { mount } => Some(pair("[ejected] ", mount.as_str())),
        RunEvent::RunComplete { copied, skipped, failed, bytes } => {
            let mut s = "[done] copied ".to_owned();
            push_u64(&mut s, *copied as u64);
            s.append(", skipped ");
            push_u64(&mut s, *skipped as u64);
            s.append(", failed ");
            push_u64(&mut s, *failed as u64);
            s.append(", ");
            push_u64(&mut s, *bytes);
            s.append(" bytes");
            Some(s)
        },
    }
}

/// The line for an event of the cloud worker.
pub open spec fn cloud_line(e: CloudEvent<Seq<char>>) -> Seq<char> {
    match e {
        CloudEvent::Uploading { file, uploaded, total } => "[uploading] "@ + file + " "@ + decimal(
            uploaded as nat,
        ) + "/"@ + decimal(total as nat),
        CloudEvent::Mirrored { file } => "[mirrored] "@ + file,
        CloudEvent::CloudFailed { file, error } => "[cloud-FAIL] "@ + file + ": "@ + error,
        CloudEvent::Deleted { file } => "[deleted] "@ + file,
        CloudEvent::DeleteFailed { file, error } => "[warn] could not delete "@ + file
            + " from card: "@ + error,
    }
}

/// The line for an event of the cloud worker.
pub fn format_cloud_event(e: &CloudEvent) -> (r: String)
    ensures
        r@ == cloud_line(e@),
{
    match e {
        CloudEvent::Uploading { file, uploaded, total } => {
            let mut s = pair("[uploading] ", file.as_str());
            s.append(" ");
            push_u64(&mut s, *uploaded);
            s.append("/");
            push_u64(&mut s, *total);
            s
        },
        CloudEvent::Mirrored { file } => pair("[mirrored] ", file.as_str()),
        CloudEvent::CloudFailed { file, error } => {
            let mut s = pair("[cloud-FAIL] ", file.as_str());
            s.append(": ");
            s.append(error.as_str());
            s
        },
        CloudEvent::Deleted { file } => pair("[deleted] ", file.as_str()),
        CloudEvent::DeleteFailed { file, error } => {
            let mut s = pair("[warn] could not delete ", file.as_str());
            s.append(" from card: ");
            s.append(error.as_str());
            s
        },
    }
}

// ---- the state of the queue -------------------------------------------------

/// The line of one job.
pub open spec fn job_line(j: CloudJob<Seq<char>>) -> Seq<char> {
    let err = or_text(j.last_error, seq![]);
    "  ["@ + j.state.name() + "] #"@ + decimal_int(j.id as int) + " attempts="@ + decimal(
        j.attempts as nat,
    ) + " "@ + j.local_path + " -> "@ + j.remote_path + " "@ + if err.len() == 0 {
        seq![]
    } else {
        "("@ + err + ")"@
    }
}

/// The lines of some jobs.
pub open spec fn job_lines(jobs: Seq<CloudJob<Seq<char>>>) -> Seq<Seq<char>> {
    Seq::new(jobs.len(), |i: int| job_line(jobs[i]))
}

/// The lines of the jobs in a state: a heading and one line for each. A state
/// without jobs has no lines.
pub open spec fn state_lines(jobs: Seq<CloudJob<Seq<char>>>, state: JobState) -> Seq<Seq<char>> {
    let js = jobs_in(jobs, Some(state));
    if js.len() == 0 {
        seq![]
    } else {
        seq!["== "@ + state.name() + " ("@ + decimal(js.len()) + ") =="@] + job_lines(js)
    }
}

/// The lines that show the queue: its jobs by state, and how many are pending.
pub open spec fn status_lines(jobs: Seq<CloudJob<Seq<char>>>) -> Seq<Seq<char>> {
    (state_lines(jobs, JobState::Uploading) + state_lines(jobs, JobState::Queued) + state_lines(
        jobs,
        JobState::Failed,
    ) + state_lines(jobs, JobState::Done)).push("pending: "@ + decimal(pending_count(jobs)))
}

/// The line of one job.
fn format_job(j: &CloudJob) -> (r: String)
    ensures
        r@ == job_line(j@),
{
    let mut s = "  [".to_owned();
    s.append(j.state.as_str());
    s.append("] #");
    push_i64(&mut s, j.id);
    s.append(" attempts=");
    push_u64(&mut s, j.attempts as u64);
    s.append(" ");
    s.append(j.local_path.as_str());
    s.append(" -> ");
    s.append(j.remote_path.as_str());
    s.append(" ");
    let ghost head = s@;
    if let Some(err) = &j.last_error {
        if !err.as_str().is_empty() {
            let mut tail = "(".to_owned();
            tail.append(err.as_str());
            tail.append(")");
            s.append(tail.as_str());
        }
    }
    assert(head + Seq::<char>::empty() =~= head);
    s
}

/// Appends the lines of the jobs in a state.
fn push_state(lines: &mut Vec<String>, ledger: &Ledger, state: JobState)
    ensures
        views(final(lines)@) == views(old(lines)@) + state_lines(ledger@.jobs, state),
{
    let jobs = ledger.list_cloud_jobs(Some(state));
    let n: usize = jobs.len();
    let ghost js = jobs_in(ledger@.jobs, Some(state));
    assert(job_views(jobs@).len() == n);
    if n == 0 {
        assert(views(lines@) =~= views(old(lines)@) + state_lines(ledger@.jobs, state));
        return;
    }
    let mut head = "== ".to_owned();
    head.append(state.as_str());
    head.append(" (");
    push_u64(&mut head, n as u64);
    head.append(") ==");
    let ghost first = head@;
    lines.push(head);
    let mut i: usize = 0;
    proof {
        assert(views(lines@) =~= views(old(lines)@) + (seq![first] + job_lines(js).take(0)));
    }
    while i < n
        invariant
            i <= n == jobs@.len(),
            js == job_views(jobs@),
            views(lines@) == views(old(lines)@) + (seq![first] + job_lines(js).take(i as int)),
        decreases n - i,
    {
        let ghost before = views(lines@);
        let line = format_job(&jobs[i]);
        let ghost text = line@;
        lines.push(line);
        proof {
            assert(js[i as int] == jobs@[i as int]@);
            assert(views(lines@) =~= before.push(text));
            assert(job_lines(js).take(i + 1) =~= job_lines(js).take(i as int).push(text));
            assert(views(lines@) =~= views(old(lines)@) + (seq![first] + job_lines(js).take(i + 1)));
        }
        i += 1;
    }
    assert(job_lines(js).take(i as int) =~= job_lines(js));
}

/// The lines that `mirror-status` prints.
pub fn mirror_status_lines(ledger: &Ledger) -> (r: Vec<String>)
    ensures
        views(r@) == status_lines(ledger@.jobs),
{
    let mut lines: Vec<String> = Vec::new();
    assert(views(lines@) =~= seq![]);
    push_state(&mut lines, ledger, JobState::Uploading);
    push_state(&mut lines, ledger, JobState::Queued);
    push_state(&mut lines, ledger, JobState::Failed);
    push_state(&mut lines, ledger, JobState::Done);
    let ghost before = views(lines@);
    proof {
        let jobs = ledger@.jobs;
        assert(before =~= state_lines(jobs, JobState::Uploading) + state_lines(
            jobs,
            JobState::Queued,
        ) + state_lines(jobs, JobState::Failed) + state_lines(jobs, JobState::Done));
    }
    let mut last = "pending: ".to_owned();
    push_u64(&mut last, ledger.pending_cloud_count() as u64);
    let ghost text = last@;
    lines.push(last);
    assert(views(lines@) =~= before.push(text));
    lines
}

/// Puts every job that the worker has given up on back into the queue, and returns
/// how many there were.
pub fn retry_cloud(ledger: &mut Ledger) -> (r: usize)
    ensures
        final(ledger)@ == old(ledger)@.given_up_requeued(),
        r == given_up_count(old(ledger)@.jobs),
{
    ledger.requeue_failed_cloud_jobs()
}

// ---- arguments --------------------------------------------------------------

/// The two safety switches of the command line. `false` means that the switch was
/// not given.
#[derive(Debug, Clone, Copy, PartialEq, Eq, Structural)]
pub struct SafetyFlags {
    pub delete_after_verify: bool,
    pub auto_eject: bool,
}

impl Default for SafetyFlags {
    fn default() -> (r: Self)
        ensures
            r == (SafetyFlags { delete_after_verify: false, auto_eject: false }),
    {
        SafetyFlags { delete_after_verify: false, auto_eject: false }
    }
}

/// Puts the switches onto a configuration: a switch that was given sets its field,
/// and one that was not leaves it.
pub fn apply_safety_overrides(cfg: &mut Config, flags: &SafetyFlags)
    ensures
        final(cfg)@ == (Config {
            delete_after_verify: old(cfg)@.delete_after_verify || flags.delete_after_verify,
            auto_eject: old(cfg)@.auto_eject || flags.auto_eject,
            ..old(cfg)@
        }),
{
    if flags.delete_after_verify {
        cfg.delete_after_verify = true;
    }
    if flags.auto_eject {
        cfg.auto_eject = true;
    }
}

/// True of an argument that is a switch nobody knows: it begins with two hyphens
/// and is neither a safety switch nor `--version`.
pub open spec fn unknown_flag(a: Seq<char>) -> bool {
    &&& "--"@.is_prefix_of(a)
    &&& a != "--delete-after-verify"@
    &&& a != "--auto-eject"@
    &&& a != "--version"@
}

/// True of an argument that is a safety switch.
pub open spec fn safety_flag(a: Seq<char>) -> bool {
    a == "--delete-after-verify"@ || a == "--auto-eject"@
}

/// The arguments that are no safety switches, in their order.
pub open spec fn positional(args: Seq<Seq<char>>) -> Seq<Seq<char>>
    decreases args.len(),
{
    if args.len() == 0 {
        seq![]
    } else {
        let rest = positional(args.drop_last());
        if safety_flag(args.last()) {
            rest
        } else {
            rest.push(args.last())
        }
    }
}

/// Takes the safety switches out of the arguments. A switch nobody knows is an
/// error, so that a misspelt one is never taken for a path; the error names the
/// first.
pub fn parse_safety_flags(args: &Vec<String>) -> (r: std::result::Result<
    (Vec<String>, SafetyFlags),
    String,
>)
    ensures
        match r {
            Ok((rest, flags)) => {
                &&& forall|i: int| 0 <= i < args@.len() ==> !unknown_flag((#[trigger] args@[i])@)
                &&& views(rest@) == positional(views(args@))
                &&& flags.delete_after_verify == views(args@).contains("--delete-after-verify"@)
                &&& flags.auto_eject == views(args@).contains("--auto-eject"@)
            },
            Err(e) => exists|i: int|
                0 <= i < args@.len() && unknown_flag((#[trigger] args@[i])@) && (forall|j: int|
                    0 <= j < i ==> !unknown_flag((#[trigger] args@[j])@)) && e@
                    == "unrecognized flag '"@ + args@[i]@ + "'"@,
        },
{
    let ghost all = views(args@);
    let mut rest: Vec<String> = Vec::new();
    let mut flags = SafetyFlags { delete_after_verify: false, auto_eject: false };
    let mut i: usize = 0;
    assert(all.take(0) =~= seq![]);
    assert(views(rest@) =~= seq![]);
    while i < args.len()
        invariant
            i <= args@.len(),
            all == views(args@),
            forall|j: int| 0 <= j < i ==> !unknown_flag((#[trigger] args@[j])@),
            views(rest@) == positional(all.take(i as int)),
            flags.delete_after_verify == all.take(i as int).contains("--delete-after-verify"@),
            flags.auto_eject == all.take(i as int).contains("--auto-eject"@),
        decreases args.len() - i,
    {
        let a = args[i].as_str();
        let ghost before = views(rest@);
        proof {
            let step = all.take(i + 1);
            assert(step.drop_last() =~= all.take(i as int));
            assert(step.last() == a@);
            assert(step =~= all.take(i as int).push(a@));
            lemma_push_contains(all.take(i as int), a@, "--delete-after-verify"@);
            lemma_push_contains(all.take(i as int), a@, "--auto-eject"@);
            lemma_flags_differ();
        }
        if same_text(a, "--delete-after-verify") {
            flags.delete_after_verify = true;
        } else if same_text(a, "--auto-eject") {
            flags.auto_eject = true;
        } else if strip_prefix(a, "--").is_some() && !same_text(a, "--version") {
            let mut e = "unrecognized flag '".to_owned();
            e.append(a);
            e.append("'");
            assert(unknown_flag(args@[i as int]@));
            return Err(e);
        } else {
            rest.push(a.to_owned());
            assert(views(rest@) =~= before.push(a@));
        }
        i += 1;
    }
    assert(all.take(i as int) =~= all);
    Ok((rest, flags))
}

proof fn lemma_flags_differ()
    ensures
        "--delete-after-verify"@ != "--auto-eject"@,
{
    reveal_strlit("--delete-after-verify");
    reveal_strlit("--auto-eject");
    assert("--delete-after-verify"@.len() != "--auto-eject"@.len());
}

/// The arguments without each `--config` and its value, and the last such value,
/// behind `config`. `None` if a `--config` has no value.
pub open spec fn config_split(args: Seq<Seq<char>>, config: Option<Seq<char>>) -> Option<
    (Seq<Seq<char>>, Option<Seq<char>>),
>
    decreases args.len(),
{
    if args.len() == 0 {
        Some((seq![], config))
    } else if args[0] == "--config"@ {
        if args.len() == 1 {
            None
        } else {
            config_split(args.skip(2), Some(args[1]))
        }
    } else {
        match config_split(args.skip(1), config) {
            Some((rest, c)) => Some((seq![args[0]] + rest, c)),
            None => None,
        }
    }
}

/// Takes `--config <path>` out of the arguments. One without a value is an error.
pub fn split_config(args: &Vec<String>) -> (r: std::result::Result<
    (Vec<String>, Option<String>),
    String,
>)
    ensures
        match r {
            Ok((rest, config)) => config_split(views(args@), None) == Some(
                (views(rest@), opt_view(config)),
            ),
            Err(e) => config_split(views(args@), None) is None && e@
                == "'--config' requires a <path> value"@,
        },
{
    let ghost all = views(args@);
    let n: usize = args.len();
    let mut rest: Vec<String> = Vec::new();
    let mut config: Option<String> = None;
    let mut i: usize = 0;
    assert(all.skip(0) =~= all);
    proof {
        assert(views(rest@) =~= seq![]);
        lemma_prefix(views(rest@), config_split(all, None));
    }
    while i < n
        invariant
            i <= n == args@.len(),
            all == views(args@),
            prefixed(views(rest@), config_split(all.skip(i as int), opt_view(config)))
                == config_split(all, None),
        decreases n - i,
    {
        let ghost tail = all.skip(i as int);
        assert(tail[0] == args@[i as int]@);
        assert(tail.len() == n - i);
        if same_text(args[i].as_str(), "--config") {
            if n - i < 2 {
                return Err("'--config' requires a <path> value".to_owned());
            }
            assert(tail[1] == args@[i + 1]@);
            assert(tail.skip(2) =~= all.skip(i + 2));
            config = Some(args[i + 1].clone());
            i += 2;
        } else {
            let ghost before = views(rest@);
            let ghost a = args@[i as int]@;
            assert(tail.skip(1) =~= all.skip(i + 1));
            rest.push(args[i].clone());
            proof {
                assert(views(rest@) =~= before.push(a));
                let deeper = config_split(all.skip(i + 1), opt_view(config));
                if let Some((more, c)) = deeper {
                    assert(before.push(a) + more =~= before + (seq![a] + more));
                }
            }
            i += 1;
        }
    }
    assert(all.skip(i as int).len() == 0);
    assert(views(rest@) + Seq::<Seq<char>>::empty() =~= views(rest@));
    Ok((rest, config))
}

/// A split with more arguments before it.
spec fn prefixed(
    head: Seq<Seq<char>>,
    split: Option<(Seq<Seq<char>>, Option<Seq<char>>)>,
) -> Option<(Seq<Seq<char>>, Option<Seq<char>>)> {
    match split {
        Some((rest, c)) => Some((head + rest, c)),
        None => None,
    }
}

proof fn lemma_prefix(
    head: Seq<Seq<char>>,
    split: Option<(Seq<Seq<char>>, Option<Seq<char>>)>,
)
    requires
        head.len() == 0,
    ensures
        prefixed(head, split) == split,
{
    if let Some((rest, c)) = split {
        assert(head + rest =~= rest);
    }
}

// ---- commands ---------------------------------------------------------------

/// What the command line asks for.
#[derive(Debug, PartialEq, Eq)]
pub enum Command<S = String> {
    Version,
    Offload { card: S, dest: S },
    Watch { dest: S },
    Mirror { dest: S },
    MirrorStatus { dest: S },
    RetryCloud { dest: S },
    /// Nothing that is known: the usage is printed.
    Usage,
}

impl View for Command<String> {
    type V = Command<Seq<char>>;

    open spec fn view(&self) -> Command<Seq<char>> {
        match *self {
            Command::Version => Command::Version,
            Command::Offload { card, dest } => Command::Offload { card: card@, dest: dest@ },
            Command::Watch { dest } => Command::Watch { dest: dest@ },
            Command::Mirror { dest } => Command::Mirror { dest: dest@ },
            Command::MirrorStatus { dest } => Command::MirrorStatus { dest: dest@ },
            Command::RetryCloud { dest } => Command::RetryCloud { dest: dest@ },
            Command::Usage => Command::Usage,
        }
    }
}

/// What positional arguments ask for. Arguments behind those of a command do not
/// matter.
pub open spec fn command_of(args: Seq<Seq<char>>) -> Command<Seq<char>> {
    if args.len() == 0 {
        Command::Usage
    } else if args[0] == "--version"@ || args[0] == "-V"@ {
        Command::Version
    } else if args[0] == "offload"@ && args.len() > 2 {
        Command::Offload { card: args[1], dest: args[2] }
    } else if args[0] == "offload"@ || args.len() < 2 {
        Command::Usage
    } else if args[0] == "watch"@ {
        Command::Watch { dest: args[1] }
    } else if args[0] == "mirror"@ {
        Command::Mirror { dest: args[1] }
    } else if args[0] == "mirror-status"@ {
        Command::MirrorStatus { dest: args[1] }
    } else if args[0] == "retry-cloud"@ {
        Command::RetryCloud { dest: args[1] }
    } else {
        Command::Usage
    }
}

/// What positional arguments ask for.
pub fn parse_command(args: &Vec<String>) -> (r: Command)
    ensures
        r@ == command_of(views(args@)),
{
    assert(views(args@).len() == args@.len());
    if args.len() == 0 {
        return Command::Usage;
    }
    assert(views(args@)[0] == args@[0]@);
    let name = args[0].as_str();
    if same_text(name, "--version") || same_text(name, "-V") {
        return Command::Version;
    }
    if same_text(name, "offload") {
        if args.len() > 2 {
            assert(views(args@)[1] == args@[1]@);
            assert(views(args@)[2] == args@[2]@);
            return Command::Offload { card: args[1].clone(), dest: args[2].clone() };
        }
        return Command::Usage;
    }
    if args.len() < 2 {
        return Command::Usage;
    }
    assert(views(args@)[1] == args@[1]@);
    let dest = args[1].clone();
    if same_text(name, "watch") {
        Command::Watch { dest }
    } else if same_text(name, "mirror") {
        Command::Mirror { dest }
    } else if same_text(name, "mirror-status") {
        Command::MirrorStatus { dest }
    } else if same_text(name, "retry-cloud") {
        Command::RetryCloud { dest }
    } else {
        Command::Usage
    }
}

/// What is printed to the error output at the end of a run, if anything is: the
/// number of files that failed, or the error. With nothing to print the run was
/// clean, and the exit code is zero.
pub open spec fn final_message(r: std::result::Result<usize, CoreError<Seq<char>>>) -> Option<
    Seq<char>,
> {
    match r {
        Ok(n) => if n == 0 {
            None
        } else {
            Some("error: "@ + decimal(n as nat) + " file(s) failed"@)
        },
        Err(e) => Some("error: "@ + e.text()),
    }
}

/// What is printed to the error output at the end of a run, if anything is.
pub fn outcome_message(r: &Result<usize>) -> (m: Option<String>)
    ensures
        opt_view(m) == final_message(
            match *r {
                Ok(n) => Ok(n),
                Err(e) => Err(e@),
            },
        ),
{
    match r {
        Ok(n) => if *n == 0 {
            None
        } else {
            let mut s = "error: ".to_owned();
            push_u64(&mut s, *n as u64);
            s.append(" file(s) failed");
            Some(s)
        },
        Err(e) => Some(pair("error: ", e.to_string().as_str())),
    }
}

// ---- the configuration and the worker ---------------------------------------

/// What a configuration file sets for the command line.
#[derive(Debug)]
pub struct CliConfigOverlay {
    pub cloud: Option<CloudConfig>,
    pub delete_after_verify: bool,
    pub auto_eject: bool,
}

/// The configuration of a run into `dest`: the defaults, with what the
/// configuration file sets. The destination never comes from the file.
pub fn load_or_default_config(dest: &str, overlay: Option<CliConfigOverlay>) -> (r: Config)
    ensures
        r@ == (match overlay {
            Some(o) => Config {
                cloud: cloud_view(o.cloud),
                delete_after_verify: o.delete_after_verify,
                auto_eject: o.auto_eject,
                ..default_config(dest@)
            },
            None => default_config(dest@),
        }),
{
    let mut cfg = Config::new(dest.to_owned());
    if let Some(o) = overlay {
        cfg.cloud = o.cloud;
        cfg.delete_after_verify = o.delete_after_verify;
        cfg.auto_eject = o.auto_eject;
    }
    cfg
}

/// The worker for the destination of a configuration.
pub open spec fn worker_for(cfg: Config<Seq<char>>, ledger_path: Seq<char>) -> CloudWorker<Seq<char>> {
    let cloud = cfg.cloud->0;
    CloudWorker {
        ledger_path,
        destination_id: cloud.destination_id,
        max_concurrency: cloud.max_concurrency,
        max_attempts: cloud.max_attempts,
        delete_after_verify: cfg.delete_after_verify,
    }
}

/// The worker for the destination of a configuration; `None` without a destination.
pub fn worker_from(cfg: &Config, ledger_path: &str) -> (r: Option<CloudWorker>)
    ensures
        match r {
            Some(w) => cfg@.cloud is Some && w@ == worker_for(cfg@, ledger_path@),
            None => cfg@.cloud is None,
        },
{
    match &cfg.cloud {
        Some(cloud) => Some(
            CloudWorker::new(
                ledger_path.to_owned(),
                cloud.destination_id.clone(),
                cloud.max_concurrency,
                cloud.max_attempts,
                cfg.delete_after_verify,
            ),
        ),
        None => None,
    }
}

/// What became of the uploader of a worker that was set up.
pub open spec fn uploader_of(
    r: Result<Option<(NextcloudUploader, CloudWorker)>>,
) -> std::result::Result<NextcloudUploader<Seq<char>>, CoreError<Seq<char>>>
    recommends
        !(r matches Ok(None)),
{
    match r {
        Ok(set_up) => Ok((set_up->0).0@),
        Err(e) => Err(e@),
    }
}

/// Sets up the uploader and the worker for the destination of a configuration;
/// `None` without a destination.
pub fn build_cloud_worker<C: CredentialStore>(cfg: &Config, ledger_path: &str, creds: &C) -> (r:
    Result<Option<(NextcloudUploader, CloudWorker)>>)
    ensures
        cfg@.cloud is None <==> r matches Ok(None),
        r matches Ok(Some(set_up)) ==> set_up.1@ == worker_for(cfg@, ledger_path@),
        cfg@.cloud matches Some(c) ==> {
            &&& !valid_base_url(c.base_url) ==> uploader_of(r) == Err::<
                NextcloudUploader<Seq<char>>,
                CoreError<Seq<char>>,
            >(bad_base_url(c.base_url))
            &&& valid_base_url(c.base_url) ==> exists|found|
                creds.answers(c.destination_id, found) && uploader_of(r)
                    == #[trigger] uploader_for(c, found)
        },
{
    let (cloud, worker) = match (&cfg.cloud, worker_from(cfg, ledger_path)) {
        (Some(c), Some(w)) => (c, w),
        _ => return Ok(None),
    };
    match build_uploader(cloud, creds) {
        Ok(u) => Ok(Some((u, worker))),
        Err(e) => Err(e),
    }
}

/// The failure to flush the queue without a destination.
pub fn nothing_to_mirror() -> (r: CoreError)
    ensures
        r@ == CoreError::Config("no [cloud] destination configured; nothing to mirror"@),
{
    CoreError::Config("no [cloud] destination configured; nothing to mirror".to_owned())
}

/// True if the queue is drained after an offload: in the automatic mode only. In the
/// manual mode the queue waits for `mirror`.
pub fn drains_after_offload(cfg: &Config) -> (r: bool)
    ensures
        r == (mirror_of(cfg@.cloud) == MirrorMode::Auto),
{
    cfg.mirror() == MirrorMode::Auto
}

/// How many uploads the worker has given up on, after one more event.
pub fn count_failure(failed: usize, e: &CloudEvent) -> (r: usize)
    requires
        failed < usize::MAX,
    ensures
        r == failed + if e@ is CloudFailed {
            1int
        } else {
            0int
        },
{
    match e {
        CloudEvent::CloudFailed { .. } => failed + 1,
        _ => failed,
    }
}

} // verus!
