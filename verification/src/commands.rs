//! What the windows can ask of the application.

use crate::app_state::{initial_state, AppState, CloudState};
use crate::cloud_runtime::{runtime_of, CloudRuntime};
use crate::config::{clone_cloud, clone_opt, default_config, Config};
use crate::config_io::{
    config_to_view, exposed, plaintext_credential_ids, rising, shown, ConfigView,
};
use crate::credentials::{credential_in, credentials_readable, overridden, EnvConfigStore};
use crate::keyring_store::{KeyringBackend, KeyringCredentialStore};
use crate::ledger::{given_up_count, pending_count, ImportRow, Ledger, LedgerModel};
use crate::text::{opt_str_view, opt_view};
use crate::toml_tree::toml_parsed;
use vstd::prelude::*;

verus! {

// ---- history ----------------------------------------------------------------

/// One row of the history.
#[derive(Debug, PartialEq, Eq)]
pub struct HistoryRow<S = String> {
    pub name: S,
    pub dest_path: S,
    pub size: u64,
    pub copied_at: S,
    pub cloud_status: Option<S>,
}

impl View for HistoryRow<String> {
    type V = HistoryRow<Seq<char>>;

    open spec fn view(&self) -> HistoryRow<Seq<char>> {
        HistoryRow {
            name: self.name@,
            dest_path: self.dest_path@,
            size: self.size,
            copied_at: self.copied_at@,
            cloud_status: opt_view(self.cloud_status),
        }
    }
}

/// What the history shows of an imported file.
pub open spec fn history_row(row: ImportRow<Seq<char>>) -> HistoryRow<Seq<char>> {
    HistoryRow {
        name: row.name,
        dest_path: row.dest_path,
        size: row.size,
        copied_at: row.copied_at,
        cloud_status: row.cloud_status,
    }
}

/// The history that a ledger holds, newest first.
pub open spec fn history(ledger: LedgerModel, limit: nat) -> Seq<HistoryRow<Seq<char>>> {
    Seq::new(ledger.newest(limit).len(), |i: int| history_row(ledger.newest(limit)[i]))
}

/// The views of rows of the history.
pub open spec fn history_views(v: Seq<HistoryRow>) -> Seq<HistoryRow<Seq<char>>> {
    Seq::new(v.len(), |i: int| v[i]@)
}

/// The newest `limit` imports, newest first. Without a ledger there are none.
pub fn history_rows_from_ledger(ledger: Option<&Ledger>, limit: usize) -> (r: Vec<HistoryRow>)
    ensures
        history_views(r@) == (match ledger {
            Some(l) => history(l@, limit as nat),
            None => seq![],
        }),
{
    let mut out: Vec<HistoryRow> = Vec::new();
    match ledger {
        Some(l) => {
            let rows = l.recent_imports(limit);
            let ghost newest = l@.newest(limit as nat);
            assert(rows@.len() == newest.len());
            let mut i: usize = 0;
            while i < rows.len()
                invariant
                    i <= rows@.len(),
                    rows@.len() == newest.len(),
                    forall|k: int| 0 <= k < rows@.len() ==> (#[trigger] rows@[k])@ == newest[k],
                    out@.len() == i,
                    forall|k: int|
                        0 <= k < i ==> (#[trigger] out@[k])@ == history_row(newest[k]),
                decreases rows.len() - i,
            {
                let row = &rows[i];
                out.push(
                    HistoryRow {
                        name: row.name.clone(),
                        dest_path: row.dest_path.clone(),
                        size: row.size,
                        copied_at: row.copied_at.clone(),
                        cloud_status: clone_opt(&row.cloud_status),
                    },
                );
                i += 1;
            }
            assert(history_views(out@) =~= history(l@, limit as nat));
        },
        None => {
            assert(history_views(out@) =~= seq![]);
        },
    }
    out
}

// ---- the counts of the cloud mirror -----------------------------------------

/// How many jobs wait, and how many were given up.
#[derive(Debug, Clone, Copy, PartialEq, Eq, Structural)]
pub struct CloudCounts {
    pub pending: usize,
    pub failed: usize,
}

/// The counts of a ledger, if there is one.
pub fn cloud_counts_from_ledger(ledger: Option<&Ledger>) -> (r: Option<CloudCounts>)
    ensures
        match (ledger, r) {
            (Some(l), Some(c)) => c.pending == pending_count(l@.jobs) && c.failed
                == given_up_count(l@.jobs),
            (None, None) => true,
            _ => false,
        },
{
    match ledger {
        Some(l) => Some(
            CloudCounts { pending: l.pending_cloud_count(), failed: l.failed_cloud_count() },
        ),
        None => None,
    }
}

/// The state of the cloud mirror with the counts of the ledger; where they are not
/// known it keeps its own.
pub open spec fn counted(cloud: CloudState<Seq<char>>, counts: Option<CloudCounts>) -> CloudState<
    Seq<char>,
> {
    match counts {
        Some(c) => CloudState { pending: c.pending, failed: c.failed, ..cloud },
        None => cloud,
    }
}

/// Takes the counts of the ledger in.
pub fn seed_cloud_counts(counts: Option<CloudCounts>, cloud: &mut CloudState)
    ensures
        final(cloud)@ == counted(old(cloud)@, counts),
{
    if let Some(c) = counts {
        cloud.pending = c.pending;
        cloud.failed = c.failed;
    }
}

/// Makes the ledger consistent after a crash, and counts: jobs that were being
/// uploaded wait again. The result is how many wait, and how many were given up.
pub fn recover_and_count_pending(ledger: &mut Ledger) -> (r: (usize, usize))
    ensures
        final(ledger)@ == old(ledger)@.uploading_reclaimed(),
        r.0 == pending_count(final(ledger)@.jobs),
        r.1 == given_up_count(final(ledger)@.jobs),
{
    ledger.reclaim_orphaned_uploading();
    let pending: usize = ledger.pending_cloud_count();
    let failed: usize = ledger.failed_cloud_count();
    (pending, failed)
}

/// Takes the configuration and the counts at the start in, so that a window that
/// opens before the first event shows them.
pub fn seed_cloud_state(state: &mut AppState, cfg: &Config, pending: usize, failed: usize)
    ensures
        final(state)@ == (AppState {
            cloud: CloudState {
                configured: cfg@.cloud is Some,
                pending,
                failed,
                ..old(state)@.cloud
            },
            ..old(state)@
        }),
{
    state.cloud.configured = cfg.cloud.is_some();
    state.cloud.pending = pending;
    state.cloud.failed = failed;
}

// ---- where files go ---------------------------------------------------------

/// The destination: what the configuration says, unless the environment overrides
/// it or the configuration says nothing; then the default.
pub open spec fn dest_root_of(
    config_dest: Seq<char>,
    default_dest: Seq<char>,
    env_override: bool,
) -> Seq<char> {
    if env_override || config_dest.len() == 0 {
        default_dest
    } else {
        config_dest
    }
}

/// The destination that files go to.
pub fn resolve_dest_root(config_dest: &str, default_dest: &str, env_override: bool) -> (r: String)
    ensures
        r@ == dest_root_of(config_dest@, default_dest@, env_override),
{
    if env_override || config_dest.is_empty() {
        default_dest.to_owned()
    } else {
        config_dest.to_owned()
    }
}

/// The configuration that is in force: what was loaded, with the destination that
/// files go to, or the defaults where nothing could be loaded.
pub open spec fn config_in_force(
    loaded: Option<Config<Seq<char>>>,
    default_dest: Seq<char>,
    env_override: bool,
) -> Config<Seq<char>> {
    match loaded {
        Some(c) => Config {
            dest_root: dest_root_of(c.dest_root, default_dest, env_override),
            ..c
        },
        None => default_config(default_dest),
    }
}

/// The view of an optional configuration.
pub open spec fn config_opt_view(c: Option<Config>) -> Option<Config<Seq<char>>> {
    match c {
        Some(c) => Some(c@),
        None => None,
    }
}

/// The configuration that is in force. `loaded` is the configuration file, if there
/// is one that can be read; `env_override` says that the environment names the
/// destination.
pub fn load_or_default_config(
    loaded: Option<Config>,
    default_dest: &str,
    env_override: bool,
) -> (r: Config)
    ensures
        r@ == config_in_force(config_opt_view(loaded), default_dest@, env_override),
{
    match loaded {
        Some(c) => {
            let mut cfg = c;
            let dest = resolve_dest_root(cfg.dest_root.as_str(), default_dest, env_override);
            cfg.dest_root = dest;
            cfg
        },
        None => Config::new(default_dest.to_owned()),
    }
}

/// What `open_path` opens: the given path, or the destination if there is none.
pub fn open_target(
    path: &str,
    loaded: Option<Config>,
    default_dest: &str,
    env_override: bool,
) -> (r: String)
    ensures
        r@ == (if path@.len() == 0 {
            config_in_force(config_opt_view(loaded), default_dest@, env_override).dest_root
        } else {
            path@
        }),
{
    if path.is_empty() {
        load_or_default_config(loaded, default_dest, env_override).dest_root
    } else {
        path.to_owned()
    }
}

// ---- saved settings ---------------------------------------------------------

/// The state of the cloud mirror under a configuration: without a destination
/// nothing waits, nothing was given up and nothing is uploaded.
pub open spec fn cloud_under(
    cloud: CloudState<Seq<char>>,
    cfg: Config<Seq<char>>,
    counts: Option<CloudCounts>,
) -> CloudState<Seq<char>> {
    if cfg.cloud is Some {
        CloudState { configured: true, ..counted(cloud, counts) }
    } else {
        CloudState { configured: false, pending: 0, failed: 0, uploading: None, ..cloud }
    }
}

/// Puts a configuration in force: the upload loop goes by it from now on, and the
/// state shows it.
pub fn apply_config_in_memory(
    cfg: &Config,
    counts: Option<CloudCounts>,
    state: &mut AppState,
    runtime: &mut CloudRuntime,
)
    ensures
        final(runtime)@ == runtime_of(cfg@),
        final(state)@ == (AppState {
            cloud: cloud_under(old(state)@.cloud, cfg@, counts),
            ..old(state)@
        }),
{
    runtime.config = clone_cloud(&cfg.cloud);
    runtime.delete_after_verify = cfg.delete_after_verify;
    state.cloud.configured = cfg.cloud.is_some();
    if cfg.cloud.is_some() {
        if let Some(c) = counts {
            state.cloud.pending = c.pending;
            state.cloud.failed = c.failed;
        }
    } else {
        state.cloud.pending = 0;
        state.cloud.failed = 0;
        state.cloud.uploading = None;
    }
}

/// True if the detector of wired cameras rests: an offload has the camera to
/// itself, or wired cameras are not wanted.
pub fn detector_should_pause(offload_active: bool, wired_enabled: bool) -> (r: bool)
    ensures
        r == (offload_active || !wired_enabled),
{
    offload_active || !wired_enabled
}

/// True of the ids of the destinations whose password stands in the text of a
/// configuration file. A file that is missing or cannot be read has none.
pub open spec fn ids_in(raw: Option<Seq<char>>, ids: Seq<Seq<char>>) -> bool {
    match raw {
        Some(text) => match toml_parsed(text) {
            Ok(doc) => (forall|id: Seq<char>| #[trigger]
                ids.contains(id) <==> exposed(doc, id)) && rising(ids),
            Err(_) => ids.len() == 0,
        },
        None => ids.len() == 0,
    }
}

/// The configuration as the settings window shows it, with the destinations whose
/// password still stands in the file.
pub fn show_config(cfg: &Config, has_password: bool, raw: Option<&str>) -> (r: ConfigView)
    ensures
        r@ == (ConfigView {
            plaintext_credential_ids: r@.plaintext_credential_ids,
            ..shown(cfg@, has_password)
        }),
        ids_in(opt_str_view(raw), r@.plaintext_credential_ids),
{
    let mut view = config_to_view(cfg, has_password);
    view.plaintext_credential_ids = match raw {
        Some(text) => plaintext_credential_ids(text),
        None => Vec::new(),
    };
    view
}

// ---- the application --------------------------------------------------------

/// What the application holds while it runs.
pub struct AppCtx<B> {
    pub state: AppState,
    /// True if the upload loop rests.
    pub paused: bool,
    pub creds: KeyringCredentialStore<B>,
    pub runtime: CloudRuntime,
    /// True if files are taken from wired cameras.
    pub wired_enabled: bool,
    /// True while an offload has a wired camera to itself.
    pub wired_offload_active: bool,
    /// True if the detector of wired cameras rests.
    pub detector_paused: bool,
    pub dest_root: String,
    pub config_path: String,
    pub ledger_path: String,
}

/// What the application holds while it runs, but for the credentials.
pub struct CtxModel {
    pub state: AppState<Seq<char>>,
    pub paused: bool,
    pub runtime: CloudRuntime<Seq<char>>,
    pub wired_enabled: bool,
    pub wired_offload_active: bool,
    pub detector_paused: bool,
    pub dest_root: Seq<char>,
    pub config_path: Seq<char>,
    pub ledger_path: Seq<char>,
}

impl<B> View for AppCtx<B> {
    type V = CtxModel;

    open spec fn view(&self) -> CtxModel {
        CtxModel {
            state: self.state@,
            paused: self.paused,
            runtime: self.runtime@,
            wired_enabled: self.wired_enabled,
            wired_offload_active: self.wired_offload_active,
            detector_paused: self.detector_paused,
            dest_root: self.dest_root@,
            config_path: self.config_path@,
            ledger_path: self.ledger_path@,
        }
    }
}

impl CtxModel {
    /// True if what is derived from other parts agrees with them: the detector rests
    /// exactly if it must, and the state shows whether the upload loop rests.
    pub open spec fn consistent(self) -> bool {
        &&& self.detector_paused == (self.wired_offload_active || !self.wired_enabled)
        &&& self.state.cloud.paused == self.paused
    }

    /// The application at the start.
    pub open spec fn initial(
        cfg: Config<Seq<char>>,
        dest_root: Seq<char>,
        config_path: Seq<char>,
        ledger_path: Seq<char>,
    ) -> CtxModel {
        CtxModel {
            state: initial_state(),
            paused: false,
            runtime: runtime_of(cfg),
            wired_enabled: cfg.wired_ingest,
            wired_offload_active: false,
            detector_paused: !cfg.wired_ingest,
            dest_root,
            config_path,
            ledger_path,
        }
    }

    /// The application with the next state of the given contents.
    pub open spec fn showing(self, state: AppState<Seq<char>>) -> CtxModel {
        CtxModel { state: AppState { seq: (self.state.seq + 1) as u64, ..state }, ..self }
    }

    /// The application with the detector resting exactly if it must.
    pub open spec fn detector_derived(self) -> CtxModel {
        CtxModel {
            detector_paused: self.wired_offload_active || !self.wired_enabled,
            ..self
        }
    }

    /// The application after the settings were saved.
    pub open spec fn saved(self, cfg: Config<Seq<char>>, counts: Option<CloudCounts>) -> CtxModel {
        CtxModel {
            runtime: runtime_of(cfg),
            wired_enabled: cfg.wired_ingest,
            ..self.showing(
                AppState { cloud: cloud_under(self.state.cloud, cfg, counts), ..self.state },
            )
        }.detector_derived()
    }

    /// The application with the upload loop resting or not.
    pub open spec fn pausing(self, paused: bool) -> CtxModel {
        CtxModel {
            paused,
            ..self.showing(
                AppState { cloud: CloudState { paused, ..self.state.cloud }, ..self.state },
            )
        }
    }

    /// The application after the counts of the ledger have changed.
    pub open spec fn recounted(self, counts: Option<CloudCounts>) -> CtxModel {
        self.showing(AppState { cloud: counted(self.state.cloud, counts), ..self.state })
    }

    /// The application while an offload has a wired camera to itself, or not.
    pub open spec fn offloading(self, active: bool) -> CtxModel {
        CtxModel { wired_offload_active: active, ..self }.detector_derived()
    }
}

/// The application at the start.
pub fn build_app_ctx<B: KeyringBackend>(
    cfg: &Config,
    dest_root: String,
    config_path: String,
    ledger_path: String,
    backend: B,
    env_username: Option<String>,
    env_app_password: Option<String>,
    fallback: Option<EnvConfigStore>,
) -> (r: AppCtx<B>)
    ensures
        r@ == CtxModel::initial(cfg@, dest_root@, config_path@, ledger_path@),
        r.creds.service() == "com.gpbeam.app"@,
        r.creds.keychain() == backend,
        r.creds.env_username() == opt_view(env_username),
        r.creds.env_app_password() == opt_view(env_app_password),
        r.creds.fallback() == fallback,
{
    let creds = KeyringCredentialStore::new(
        "com.gpbeam.app",
        backend,
        env_username,
        env_app_password,
        fallback,
    );
    AppCtx {
        state: AppState::default(),
        paused: false,
        creds,
        runtime: CloudRuntime::from_config(cfg),
        wired_enabled: cfg.wired_ingest,
        wired_offload_active: false,
        detector_paused: detector_should_pause(false, cfg.wired_ingest),
        dest_root,
        config_path,
        ledger_path,
    }
}

impl<B: KeyringBackend> AppCtx<B> {
    /// Lets the detector rest exactly if it must.
    pub fn recompute_detector_pause(&mut self)
        ensures
            final(self)@ == old(self)@.detector_derived(),
            final(self).creds == old(self).creds,
    {
        self.detector_paused = detector_should_pause(self.wired_offload_active, self.wired_enabled);
    }

    /// The state for a window that opens, with the counts of the ledger.
    pub fn get_state(&self, counts: Option<CloudCounts>) -> (r: AppState)
        ensures
            r@ == (AppState { cloud: counted(self.state@.cloud, counts), ..self.state@ }),
    {
        let mut state = self.state.clone();
        seed_cloud_counts(counts, &mut state.cloud);
        state
    }

    /// The configuration for the settings window. `loaded` is the configuration
    /// file, if there is one that can be read, and `raw` is its text.
    pub fn get_config(
        &self,
        loaded: Option<Config>,
        raw: Option<&str>,
        env_override: bool,
    ) -> (r: ConfigView)
        ensures
            ({
                let cfg = config_in_force(config_opt_view(loaded), self.dest_root@, env_override);
                exists|has: bool|
                    {
                        &&& r@ == ConfigView {
                            plaintext_credential_ids: r@.plaintext_credential_ids,
                            ..#[trigger] shown(cfg, has)
                        }
                        &&& cfg.cloud matches Some(c) ==> self.creds.may_have(c.destination_id, has)
                        &&& cfg.cloud is None ==> !has
                    }
            }),
            ids_in(opt_str_view(raw), r@.plaintext_credential_ids),
    {
        let cfg = load_or_default_config(loaded, self.dest_root.as_str(), env_override);
        let has_password = match &cfg.cloud {
            Some(c) => self.creds.has_password(c.destination_id.as_str()),
            None => false,
        };
        show_config(&cfg, has_password, raw)
    }

    /// Puts saved settings in force, and returns the state to show. `text` is what
    /// the configuration file now holds; credentials are read from it anew.
    pub fn save_config(&mut self, cfg: &Config, text: &str, counts: Option<CloudCounts>) -> (r:
        AppState)
        requires
            old(self).state.seq < u64::MAX,
        ensures
            final(self)@ == old(self)@.saved(cfg@, counts),
            r@ == final(self)@.state,
            final(self).creds.service() == old(self).creds.service(),
            final(self).creds.keychain() == old(self).creds.keychain(),
            final(self).creds.env_username() == old(self).creds.env_username(),
            final(self).creds.env_app_password() == old(self).creds.env_app_password(),
            match toml_parsed(text@) {
                Ok(doc) => if credentials_readable(doc) {
                    forall|id: Seq<char>| #[trigger]
                        final(self).creds.fallback_of(id) == overridden(
                            credential_in(doc, id),
                            old(self).creds.env_username(),
                            old(self).creds.env_app_password(),
                        )
                } else {
                    final(self).creds.fallback() is None
                },
                Err(_) => final(self).creds.fallback() is None,
            },
    {
        self.creds.refresh_fallback_from_file(Some(text));
        apply_config_in_memory(cfg, counts, &mut self.state, &mut self.runtime);
        self.state.bump_seq();
        self.wired_enabled = cfg.wired_ingest;
        self.recompute_detector_pause();
        self.state.clone()
    }

    /// Lets the upload loop rest, and returns the state to show.
    pub fn pause_cloud(&mut self) -> (r: AppState)
        requires
            old(self).state.seq < u64::MAX,
        ensures
            final(self)@ == old(self)@.pausing(true),
            r@ == final(self)@.state,
            final(self).creds == old(self).creds,
    {
        self.paused = true;
        self.state.cloud.paused = true;
        self.state.bump_seq();
        self.state.clone()
    }

    /// Lets the upload loop work again, and returns the state to show.
    pub fn resume_cloud(&mut self) -> (r: AppState)
        requires
            old(self).state.seq < u64::MAX,
        ensures
            final(self)@ == old(self)@.pausing(false),
            r@ == final(self)@.state,
            final(self).creds == old(self).creds,
    {
        self.paused = false;
        self.state.cloud.paused = false;
        self.state.bump_seq();
        self.state.clone()
    }

    /// Puts every job that was given up back into the queue. The result is how many
    /// there were, and the state to show.
    pub fn retry_failed_cloud(&mut self, ledger: &mut Ledger) -> (r: (usize, AppState))
        requires
            old(self).state.seq < u64::MAX,
        ensures
            final(ledger)@ == old(ledger)@.given_up_requeued(),
            r.0 == given_up_count(old(ledger)@.jobs),
            r.1@ == final(self)@.state,
            exists|counts: CloudCounts|
                {
                    &&& counts.pending == pending_count(final(ledger)@.jobs)
                    &&& counts.failed == given_up_count(final(ledger)@.jobs)
                    &&& final(self)@ == #[trigger] old(self)@.recounted(Some(counts))
                },
            final(self).creds == old(self).creds,
    {
        let requeued: usize = ledger.requeue_failed_cloud_jobs();
        let pending: usize = ledger.pending_cloud_count();
        let failed: usize = ledger.failed_cloud_count();
        let counts = CloudCounts { pending, failed };
        seed_cloud_counts(Some(counts), &mut self.state.cloud);
        self.state.bump_seq();
        assert(self@ == old(self)@.recounted(Some(counts)));
        (requeued, self.state.clone())
    }

    /// A wired camera was found. True if an offload now has it to itself; false if
    /// wired cameras are not wanted.
    pub fn camera_found(&mut self) -> (r: bool)
        ensures
            r == old(self).wired_enabled,
            final(self)@ == (if r {
                old(self)@.offloading(true)
            } else {
                old(self)@
            }),
            final(self).creds == old(self).creds,
    {
        if !self.wired_enabled {
            return false;
        }
        self.wired_offload_active = true;
        self.recompute_detector_pause();
        true
    }

    /// The offload from a wired camera is over.
    pub fn camera_done(&mut self)
        ensures
            final(self)@ == old(self)@.offloading(false),
            final(self).creds == old(self).creds,
    {
        self.wired_offload_active = false;
        self.recompute_detector_pause();
    }
}

/// The commands that the windows can call.
pub open spec fn command_list() -> Seq<Seq<char>> {
    seq![
        "get_state"@,
        "get_config"@,
        "get_config_path"@,
        "save_config"@,
        "pick_folder"@,
        "open_path"@,
        "reveal_path"@,
        "open_settings"@,
        "set_nextcloud_credentials"@,
        "clear_nextcloud_credentials"@,
        "migrate_plaintext_credentials"@,
        "pause_cloud"@,
        "resume_cloud"@,
        "retry_failed_cloud"@,
        "get_history"@,
        "get_autostart"@,
        "set_autostart"@,
        "is_first_run"@,
        "complete_wizard"@,
        "quit"@,
    ]
}

/// The commands that the windows can call.
pub fn command_names() -> (r: Vec<&'static str>)
    ensures
        r@.len() == command_list().len(),
        forall|i: int| 0 <= i < r@.len() ==> (#[trigger] r@[i])@ == command_list()[i],
{
    vec![
        "get_state",
        "get_config",
        "get_config_path",
        "save_config",
        "pick_folder",
        "open_path",
        "reveal_path",
        "open_settings",
        "set_nextcloud_credentials",
        "clear_nextcloud_credentials",
        "migrate_plaintext_credentials",
        "pause_cloud",
        "resume_cloud",
        "retry_failed_cloud",
        "get_history",
        "get_autostart",
        "set_autostart",
        "is_first_run",
        "complete_wizard",
        "quit",
    ]
}

// ---- laws -------------------------------------------------------------------

/// The application is consistent at the start, and whatever is asked of it keeps it
/// so.
pub proof fn commands_keep_it_consistent(
    m: CtxModel,
    cfg: Config<Seq<char>>,
    counts: Option<CloudCounts>,
    paused: bool,
    active: bool,
    dest_root: Seq<char>,
    config_path: Seq<char>,
    ledger_path: Seq<char>,
)
    requires
        m.consistent(),
    ensures
        CtxModel::initial(cfg, dest_root, config_path, ledger_path).consistent(),
        m.saved(cfg, counts).consistent(),
        m.pausing(paused).consistent(),
        m.recounted(counts).consistent(),
        m.offloading(active).consistent(),
{
}

/// Every state that a command hands out bears a higher number than the one before.
pub proof fn commands_number_their_states(
    m: CtxModel,
    cfg: Config<Seq<char>>,
    counts: Option<CloudCounts>,
    paused: bool,
)
    requires
        m.state.seq < u64::MAX,
    ensures
        m.saved(cfg, counts).state.seq > m.state.seq,
        m.pausing(paused).state.seq > m.state.seq,
        m.recounted(counts).state.seq > m.state.seq,
{
}

/// What is saved is in force: the upload loop, the switch for wired cameras and the
/// state all go by the new configuration.
pub proof fn saved_settings_are_in_force(
    m: CtxModel,
    cfg: Config<Seq<char>>,
    counts: Option<CloudCounts>,
)
    ensures
        m.saved(cfg, counts).runtime == runtime_of(cfg),
        m.saved(cfg, counts).wired_enabled == cfg.wired_ingest,
        m.saved(cfg, counts).state.cloud.configured == cfg.cloud is Some,
        cfg.cloud is None ==> m.saved(cfg, counts).state.cloud.pending == 0 && m.saved(
            cfg,
            counts,
        ).state.cloud.failed == 0,
        !cfg.wired_ingest ==> m.saved(cfg, counts).detector_paused,
{
}

} // verus!
