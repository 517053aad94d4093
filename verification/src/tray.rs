//! What the tray shows, which notifications are raised, and how often a wired
//! camera is tried again.

use crate::app_state::{delete_warning, AppState, Status};
use crate::cloud::CloudEvent;
use crate::config::Config;
use crate::error::Result;
use crate::orchestrator::{RunEvent, RunSummary};
use crate::paths::{join_path, path_join};
use crate::text::{decimal, opt_view, push_u64, same_text};
use std::collections::{HashMap, HashSet};
use vstd::prelude::*;

verus! {

// ---- notifications ----------------------------------------------------------

/// The view of an optional notification: its title and its text.
pub open spec fn notice_view(n: Option<(&'static str, String)>) -> Option<(Seq<char>, Seq<char>)> {
    match n {
        Some((title, body)) => Some((title@, body@)),
        None => None,
    }
}

/// The notification when a run is over. A run that had nothing to do is silent.
pub open spec fn summary_notice(s: RunSummary) -> Option<(Seq<char>, Seq<char>)> {
    if s.failed > 0 {
        Some(("GPBeam"@, decimal(s.failed as nat) + " file(s) failed to copy"@))
    } else if s.copied > 0 {
        Some(
            (
                "GPBeam"@,
                "Copied "@ + decimal(s.copied as nat) + " file(s), "@ + decimal(s.skipped as nat)
                    + " skipped"@,
            ),
        )
    } else {
        None
    }
}

/// The notification when a run is over, if there is one.
pub fn summary_notification(s: &RunSummary) -> (r: Option<(&'static str, String)>)
    ensures
        notice_view(r) == summary_notice(*s),
{
    if s.failed > 0 {
        let mut body = String::new();
        push_u64(&mut body, s.failed as u64);
        body.append(" file(s) failed to copy");
        assert(body@ =~= decimal(s.failed as nat) + " file(s) failed to copy"@);
        return Some(("GPBeam", body));
    }
    if s.copied > 0 {
        let mut body = "Copied ".to_owned();
        push_u64(&mut body, s.copied as u64);
        body.append(" file(s), ");
        push_u64(&mut body, s.skipped as u64);
        body.append(" skipped");
        return Some(("GPBeam", body));
    }
    None
}

/// The notification for an event of the cloud worker. An upload in progress has
/// none.
pub open spec fn cloud_notice(ev: CloudEvent<Seq<char>>) -> Option<(Seq<char>, Seq<char>)> {
    match ev {
        CloudEvent::Uploading { .. } => None,
        CloudEvent::Mirrored { file } => Some(
            ("GPBeam"@, "Mirrored "@ + file + " to cloud"@),
        ),
        CloudEvent::CloudFailed { file, error } => Some(
            ("GPBeam cloud error"@, file + ": "@ + error),
        ),
        CloudEvent::Deleted { file } => Some(("GPBeam"@, "Freed card space: "@ + file)),
        CloudEvent::DeleteFailed { file, error } => Some(
            ("GPBeam"@, "card delete-after-verify failed for "@ + file + ": "@ + error),
        ),
    }
}

/// The notification for an event of the cloud worker, if there is one.
pub fn cloud_notification(ev: &CloudEvent) -> (r: Option<(&'static str, String)>)
    ensures
        notice_view(r) == cloud_notice(ev@),
{
    match ev {
        CloudEvent::Uploading { .. } => None,
        CloudEvent::Mirrored { file } => {
            let mut body = "Mirrored ".to_owned();
            body.append(file.as_str());
            body.append(" to cloud");
            Some(("GPBeam", body))
        },
        CloudEvent::CloudFailed { file, error } => {
            let mut body = file.clone();
            body.append(": ");
            body.append(error.as_str());
            Some(("GPBeam cloud error", body))
        },
        CloudEvent::Deleted { file } => {
            let mut body = "Freed card space: ".to_owned();
            body.append(file.as_str());
            Some(("GPBeam", body))
        },
        CloudEvent::DeleteFailed { file, error } => Some(
            ("GPBeam", delete_warning(file.as_str(), error.as_str())),
        ),
    }
}

// ---- the icon ---------------------------------------------------------------

/// The icon for a state. An error comes first; then whatever is in progress.
pub open spec fn icon_of(s: AppState<Seq<char>>) -> Seq<char> {
    if s.status == Status::Error {
        "error"@
    } else if s.run is Some || s.cloud.uploading is Some {
        "working"@
    } else {
        "idle"@
    }
}

/// The icon for a state.
pub fn derive_tray_state(state: &AppState) -> (r: &'static str)
    ensures
        r@ == icon_of(state@),
{
    if state.status == Status::Error {
        "error"
    } else if state.run.is_some() || state.cloud.uploading.is_some() {
        "working"
    } else {
        "idle"
    }
}

/// The number of an icon.
pub open spec fn icon_code(icon: Seq<char>) -> u8 {
    if icon == "working"@ {
        1
    } else if icon == "error"@ {
        2
    } else {
        0
    }
}

/// True if the icon is to be set: it is another one than the last. `last` is the
/// number of the last one, or a number that no icon has.
pub fn should_set_icon(last: &mut u8, icon: &str) -> (r: bool)
    ensures
        r == (*old(last) != icon_code(icon@)),
        *final(last) == icon_code(icon@),
{
    let code: u8 = if same_text(icon, "working") {
        1
    } else if same_text(icon, "error") {
        2
    } else {
        0
    };
    let changed = *last != code;
    *last = code;
    changed
}

// ---- states on their way to the windows -------------------------------------

/// Takes in an event of a run, and returns the state to show.
pub fn fold_run_event(state: &mut AppState, ev: &RunEvent, now_unix: i64) -> (r: AppState)
    requires
        old(state).seq < u64::MAX,
        ev is CloudQueued ==> old(state).cloud.pending < usize::MAX,
    ensures
        final(state)@ == (AppState {
            seq: (old(state).seq + 1) as u64,
            ..old(state)@.after_run_event(ev@, now_unix)
        }),
        r@ == final(state)@,
{
    state.apply_run_event(ev, now_unix);
    state.bump_seq();
    state.clone()
}

/// Takes in an event of the cloud worker, and returns the state to show.
pub fn fold_cloud_event(state: &mut AppState, ev: &CloudEvent) -> (r: AppState)
    requires
        old(state).seq < u64::MAX,
        ev is CloudFailed ==> old(state).cloud.failed < usize::MAX,
    ensures
        final(state)@ == (AppState {
            seq: (old(state).seq + 1) as u64,
            ..old(state)@.after_cloud_event(ev@)
        }),
        r@ == final(state)@,
{
    state.apply_cloud_event(ev);
    state.bump_seq();
    state.clone()
}

/// Takes in that a run could not be finished, and returns the state to show.
pub fn fold_run_error_state(state: &mut AppState, message: &str) -> (r: AppState)
    requires
        old(state).seq < u64::MAX,
    ensures
        final(state)@ == (AppState {
            seq: (old(state).seq + 1) as u64,
            ..old(state)@.after_run_error(message@)
        }),
        r@ == final(state)@,
{
    state.apply_run_error(message);
    state.bump_seq();
    state.clone()
}

/// True if a state goes out: it is newer than the newest that went out, whose
/// number is `last`.
pub fn should_emit(last: &mut u64, seq: u64) -> (r: bool)
    ensures
        r == (seq > *old(last)),
        *final(last) == (if seq > *old(last) {
            seq
        } else {
            *old(last)
        }),
{
    if seq > *last {
        *last = seq;
        true
    } else {
        false
    }
}

/// The number of the newest state that went out, after the given ones were offered
/// in turn.
pub open spec fn newest_out(last: u64, seqs: Seq<u64>) -> u64
    decreases seqs.len(),
{
    if seqs.len() == 0 {
        last
    } else {
        let before = newest_out(last, seqs.drop_last());
        if seqs.last() > before {
            seqs.last()
        } else {
            before
        }
    }
}

/// States go out in the order of their numbers: whatever was offered before, a
/// state goes out only if it is newer than all of those.
pub proof fn a_stale_state_never_goes_out(last: u64, seqs: Seq<u64>, i: int)
    requires
        0 <= i < seqs.len(),
    ensures
        newest_out(last, seqs) >= seqs[i],
        newest_out(last, seqs) >= last,
        newest_out(last, seqs) == last || seqs.contains(newest_out(last, seqs)),
    decreases seqs.len(),
{
    let rest = seqs.drop_last();
    if rest.len() == 0 {
        assert(seqs.last() == seqs[i]);
    } else {
        let j = if i < rest.len() {
            i
        } else {
            0
        };
        a_stale_state_never_goes_out(last, rest, j);
        let before = newest_out(last, rest);
        if rest.contains(before) {
            let k = choose|k: int| 0 <= k < rest.len() && rest[k] == before;
            assert(seqs[k] == before);
        }
    }
    assert(seqs.contains(seqs.last()));
}

// ---- where the application lives --------------------------------------------

/// The directory of the application: what the environment says, else one in the
/// home directory.
pub open spec fn bootstrap_of(env_dest: Option<Seq<char>>, home: Seq<char>) -> Seq<char> {
    match env_dest {
        Some(d) => if d.len() > 0 {
            d
        } else {
            path_join(home, "GPBeam"@)
        },
        None => path_join(home, "GPBeam"@),
    }
}

/// The directory of the application. Its ledger lies here even if the configuration
/// sends files elsewhere.
pub fn dest_root(env_dest: &Option<String>, home: &str) -> (r: String)
    ensures
        r@ == bootstrap_of(opt_view(*env_dest), home@),
{
    match env_dest {
        Some(d) => if !d.as_str().is_empty() {
            d.clone()
        } else {
            join_path(home, "GPBeam")
        },
        None => join_path(home, "GPBeam"),
    }
}

/// True if files are taken from wired cameras.
pub fn wired_ingest_enabled(cfg: &Config) -> (r: bool)
    ensures
        r == cfg@.wired_ingest,
{
    cfg.wired_ingest
}

/// True if closing the window only hides it: the application ends by its menu.
pub fn hides_on_close(label: &str) -> (r: bool)
    ensures
        r == (label@ == "popover"@ || label@ == "settings"@),
{
    same_text(label, "popover") || same_text(label, "settings")
}

/// True if the window hides when it loses the focus, as a menu does.
pub fn hides_on_blur(label: &str) -> (r: bool)
    ensures
        r == (label@ == "popover"@),
{
    same_text(label, "popover")
}

// ---- trying a wired camera again --------------------------------------------

/// How often a camera is tried again in a row.
pub const MAX_WIRED_REARMS: u32 = 2;

/// True if a wired run is worth another try: it failed, or a file of it did.
pub fn rearm_needed(summary: &Result<RunSummary>) -> (r: bool)
    ensures
        r == !(summary matches Ok(s) && s.failed == 0),
{
    match summary {
        Ok(s) => s.failed != 0,
        Err(_) => true,
    }
}

/// How often each camera was tried again, and which were found because they were.
/// A camera stands here by the number of its address.
pub struct RearmBudget {
    streak: HashMap<u128, u32>,
    rearmed_last: HashSet<u128>,
}

/// How often each camera was tried again, and which were found because they were.
#[verifier::ext_equal]
pub struct RearmModel {
    pub streak: Map<u128, u32>,
    pub rearmed: Set<u128>,
}

impl View for RearmBudget {
    type V = RearmModel;

    closed spec fn view(&self) -> RearmModel {
        RearmModel { streak: self.streak@, rearmed: self.rearmed_last@ }
    }
}

impl RearmModel {
    /// How often the camera was tried again in a row.
    pub open spec fn tries(self, camera: u128) -> u32 {
        if self.streak.dom().contains(camera) {
            self.streak[camera]
        } else {
            0
        }
    }

    /// After a camera was found. One that was not found because it was to be tried
    /// again was plugged in, and starts afresh.
    pub open spec fn found(self, camera: u128) -> RearmModel {
        if self.rearmed.contains(camera) {
            self
        } else {
            RearmModel { streak: self.streak.insert(camera, 0), ..self }
        }
    }

    /// True if the camera is tried again.
    pub open spec fn tries_again(self, camera: u128, retry: bool) -> bool {
        retry && self.tries(camera) < MAX_WIRED_REARMS
    }

    /// After a run from the camera.
    pub open spec fn after_run(self, camera: u128, retry: bool) -> RearmModel {
        if !retry {
            RearmModel {
                streak: self.streak.insert(camera, 0),
                rearmed: self.rearmed.remove(camera),
            }
        } else if self.tries(camera) < MAX_WIRED_REARMS {
            RearmModel {
                streak: self.streak.insert(camera, (self.tries(camera) + 1) as u32),
                rearmed: self.rearmed.insert(camera),
            }
        } else {
            RearmModel {
                streak: self.streak.insert(camera, self.tries(camera)),
                rearmed: self.rearmed.remove(camera),
            }
        }
    }

    /// How often a camera that fails every time is tried again, in `n` runs that
    /// follow each other.
    pub open spec fn failing(self, camera: u128, n: nat) -> nat
        decreases n,
    {
        if n == 0 {
            0
        } else {
            let m = self.found(camera);
            let rest = m.after_run(camera, true).failing(camera, (n - 1) as nat);
            if m.tries_again(camera, true) {
                1 + rest
            } else {
                0
            }
        }
    }
}

impl RearmBudget {
    /// No camera has been tried yet.
    pub fn new() -> (r: Self)
        ensures
            r@.streak.dom().is_empty(),
            r@.rearmed.is_empty(),
    {
        RearmBudget { streak: HashMap::new(), rearmed_last: HashSet::new() }
    }

    /// A camera was found; to be called before its run.
    pub fn note_event(&mut self, camera: u128)
        ensures
            final(self)@ == old(self)@.found(camera),
    {
        broadcast use vstd::std_specs::hash::group_hash_axioms;

        if !self.rearmed_last.contains(&camera) {
            self.streak.insert(camera, 0);
        }
    }

    /// True if the camera is tried again after a run; `retry` says that the run is
    /// worth it.
    pub fn should_rearm(&mut self, camera: u128, retry: bool) -> (r: bool)
        ensures
            r == old(self)@.tries_again(camera, retry),
            final(self)@ == old(self)@.after_run(camera, retry),
    {
        broadcast use vstd::std_specs::hash::group_hash_axioms;

        if !retry {
            self.streak.insert(camera, 0);
            self.rearmed_last.remove(&camera);
            return false;
        }
        let tries: u32 = match self.streak.get(&camera) {
            Some(n) => *n,
            None => 0,
        };
        if tries < MAX_WIRED_REARMS {
            self.streak.insert(camera, tries + 1);
            self.rearmed_last.insert(camera);
            true
        } else {
            self.streak.insert(camera, tries);
            self.rearmed_last.remove(&camera);
            false
        }
    }
}

/// A camera that fails every time is left alone: it is tried again at most so
/// often, however many runs there are.
pub proof fn retries_are_bounded(m: RearmModel, camera: u128, n: nat)
    ensures
        m.failing(camera, n) <= MAX_WIRED_REARMS,
{
    lemma_failing(m, camera, n);
}

proof fn lemma_failing(m: RearmModel, camera: u128, n: nat)
    ensures
        m.failing(camera, n) <= MAX_WIRED_REARMS,
        m.rearmed.contains(camera) && m.tries(camera) <= MAX_WIRED_REARMS ==> m.failing(camera, n)
            <= MAX_WIRED_REARMS - m.tries(camera),
    decreases n,
{
    if n > 0 {
        let f = m.found(camera);
        lemma_failing(f.after_run(camera, true), camera, (n - 1) as nat);
    }
}

/// A run that needs no other try gives the camera its full budget back, and so does
/// plugging it in again.
pub proof fn a_clean_run_restores_the_budget(m: RearmModel, camera: u128)
    ensures
        m.after_run(camera, false).tries(camera) == 0,
        !m.rearmed.contains(camera) ==> m.found(camera).tries(camera) == 0,
        !m.tries_again(camera, false),
{
}

/// What happens to one camera changes nothing for another.
pub proof fn cameras_keep_apart(m: RearmModel, camera: u128, other: u128, retry: bool)
    requires
        camera != other,
    ensures
        m.found(camera).tries(other) == m.tries(other),
        m.after_run(camera, retry).tries(other) == m.tries(other),
        m.after_run(camera, retry).rearmed.contains(other) == m.rearmed.contains(other),
{
}

} // verus!
