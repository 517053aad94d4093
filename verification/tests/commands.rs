use gpbeam::app_state::{AppState, CloudState, Status};
use gpbeam::commands::{
    apply_config_in_memory, build_app_ctx, cloud_counts_from_ledger, command_names,
    detector_should_pause, history_rows_from_ledger, load_or_default_config, open_target,
    recover_and_count_pending, resolve_dest_root, seed_cloud_counts, show_config, AppCtx,
    CloudCounts,
};
use gpbeam::cloud_runtime::CloudRuntime;
use gpbeam::config::{CloudConfig, CloudKind, Config, MirrorMode};
use gpbeam::config_io::{view_to_config, CloudView, ConfigView};
use gpbeam::credentials::CredentialStore;
use gpbeam::keyring_store::{KeyringBackend, MemoryKeyring};
use gpbeam::ledger::{JobState, Ledger};

fn base_view(dest: &str) -> ConfigView {
    ConfigView {
        dest_root: dest.to_string(),
        filename_template: "{name}".into(),
        include_proxies: false,
        include_thumbnails: false,
        verify: true,
        space_headroom: 0,
        delete_after_verify: false,
        auto_eject: false,
        wired_ingest: true,
        cloud: None,
        plaintext_credential_ids: Vec::new(),
    }
}

fn cloud_view() -> CloudView {
    CloudView {
        destination_id: "nc1".into(),
        base_url: "https://cloud.example.com".into(),
        username: "alice".into(),
        remote_root: "GoPro".into(),
        mirror_mode: "auto".into(),
        chunk_threshold: 10_000_000,
        max_concurrency: 2,
        max_attempts: 3,
        has_password: true,
    }
}

fn cloud_config() -> CloudConfig {
    CloudConfig {
        kind: CloudKind::Nextcloud,
        destination_id: "nc1".into(),
        base_url: "https://cloud.example.com".into(),
        username: "alice".into(),
        remote_root: "GoPro".into(),
        mirror_mode: MirrorMode::Auto,
        chunk_threshold: 10_000_000,
        tls_ca_pem: None,
        max_concurrency: 2,
        max_attempts: 3,
    }
}

fn empty_ledger() -> Ledger {
    Ledger::new("2026-06-03 10:00:00".to_string())
}

fn ledger_with_one_pending_one_failed() -> Ledger {
    let mut l = empty_ledger();
    let a = l.record("C346", "GX010001.MP4", 4096, 1000, "/d/GX010001.MP4", None);
    l.enqueue_cloud_job(a, "nc1", "/d/GX010001.MP4", "r/1", 4096, None);
    let b = l.record("C346", "GX010002.MP4", 10, 2000, "/d/GX010002.MP4", None);
    let job = l.enqueue_cloud_job(b, "nc1", "/d/GX010002.MP4", "r/2", 10, None);
    l.mark_job_failed(job, "401 Unauthorized", None);
    l
}

fn ctx_for(cfg: &Config) -> AppCtx<MemoryKeyring> {
    build_app_ctx(
        cfg,
        "/tmp/gpbeam-test-dest".to_string(),
        "/tmp/gpbeam-test-dest/gpbeam.toml".to_string(),
        "/tmp/gpbeam-test-dest/.gpbeam-ledger.sqlite".to_string(),
        MemoryKeyring::new(),
        None,
        None,
        None,
    )
}

#[test]
fn detector_should_pause_truth_table() {
    assert!(
        !detector_should_pause(false, true),
        "idle + enabled -> probe"
    );
    assert!(
        detector_should_pause(true, true),
        "offload in flight -> pause"
    );
    assert!(detector_should_pause(false, false), "disabled -> pause");
    assert!(detector_should_pause(true, false), "both -> pause");
}

#[test]
fn resolve_dest_root_prefers_configured_dest() {
    let r = resolve_dest_root(
        "/Volumes/videos/GoPro",
        "/home/u/GPBeam",
        false,
    );
    assert_eq!(r, "/Volumes/videos/GoPro");
}

#[test]
fn resolve_dest_root_falls_back_when_config_dest_empty() {
    let r = resolve_dest_root(
        "",
        "/home/u/GPBeam",
        false,
    );
    assert_eq!(r, "/home/u/GPBeam");
}

#[test]
fn resolve_dest_root_env_override_uses_default() {
    let r = resolve_dest_root(
        "/Volumes/videos/GoPro",
        "/env/override",
        true,
    );
    assert_eq!(r, "/env/override");
}

#[test]
fn history_rows_maps_recent_imports_most_recent_first() {
    let mut l = empty_ledger();
    let id1 = l.record("C346", "GX010001.MP4", 4096, 1000, "/dest/GX010001.MP4", None);
    l.set_cloud_status(id1, "done");
    l.record("C346", "GX010002.MP4", 10, 2000, "/dest/GX010002.MP4", None);

    let rows = history_rows_from_ledger(Some(&l), 10);
    assert_eq!(rows.len(), 2);
    assert_eq!(rows[0].name, "GX010002.MP4");
    assert_eq!(rows[0].dest_path, "/dest/GX010002.MP4");
    assert_eq!(rows[0].size, 10);
    assert!(rows[0].cloud_status.is_none());
    assert_eq!(rows[1].name, "GX010001.MP4");
    assert_eq!(rows[1].cloud_status.as_deref(), Some("done"));
    assert_eq!(rows[1].copied_at, "2026-06-03 10:00:00");
}

#[test]
fn history_rows_respects_limit() {
    let mut l = empty_ledger();
    for i in 0..5 {
        l.record("C346", &format!("GX0100{i:02}.MP4"), 1, 1000 + i, "/d", None);
    }
    let rows = history_rows_from_ledger(Some(&l), 2);
    assert_eq!(rows.len(), 2);
}

#[test]
fn history_rows_missing_ledger_file_is_empty_not_error() {
    assert!(history_rows_from_ledger(None, 10).is_empty());
}

#[test]
fn seed_counts_reads_pending_and_failed_from_existing_ledger() {
    let l = ledger_with_one_pending_one_failed();
    let mut cloud = CloudState::default();
    seed_cloud_counts(cloud_counts_from_ledger(Some(&l)), &mut cloud);
    assert_eq!(cloud.pending, 1);
    assert_eq!(
        cloud.failed, 1,
        "terminal failures must seed cloud.failed (Retry button gating)"
    );
}

#[test]
fn seed_counts_missing_ledger_leaves_state_untouched() {
    let mut cloud = CloudState {
        configured: true,
        pending: 7,
        failed: 3,
        ..CloudState::default()
    };
    seed_cloud_counts(cloud_counts_from_ledger(None), &mut cloud);
    assert_eq!(cloud.pending, 7);
    assert_eq!(cloud.failed, 3);
    assert!(cloud.configured);
}

#[test]
fn cloud_counts_after_requeue_zero_failed_and_move_to_pending() {
    let mut l = ledger_with_one_pending_one_failed();
    let before = cloud_counts_from_ledger(Some(&l)).unwrap();
    assert_eq!(before, CloudCounts { pending: 1, failed: 1 });

    assert_eq!(l.requeue_failed_cloud_jobs(), 1);

    let after = cloud_counts_from_ledger(Some(&l)).unwrap();
    assert_eq!(
        after,
        CloudCounts { pending: 2, failed: 0 },
        "requeue clears failed and re-enters them as pending"
    );
}

#[test]
fn recompute_detector_pause_follows_ctx_flags() {
    let mut ctx = ctx_for(&Config::new("/tmp/gpbeam-test-dest".to_string()));
    ctx.recompute_detector_pause();
    assert!(!ctx.detector_paused);
    ctx.wired_enabled = false;
    ctx.recompute_detector_pause();
    assert!(ctx.detector_paused);
    ctx.wired_enabled = true;
    ctx.wired_offload_active = true;
    ctx.recompute_detector_pause();
    assert!(ctx.detector_paused);
    ctx.wired_offload_active = false;
    ctx.recompute_detector_pause();
    assert!(!ctx.detector_paused);
}

#[test]
fn apply_saved_config_writes_toml_and_marks_unconfigured_without_cloud() {
    let mut state = AppState::default();
    state.cloud.configured = true;
    let mut runtime = CloudRuntime::default();
    let cfg = view_to_config(&base_view("/out")).unwrap();
    apply_config_in_memory(&cfg, None, &mut state, &mut runtime);
    assert!(!state.cloud.configured, "no [cloud] -> cloud.configured false");
    assert!(runtime.config.is_none());
}

#[test]
fn apply_saved_config_with_cloud_sets_runtime_and_configured() {
    let mut state = AppState::default();
    let mut runtime = CloudRuntime::default();
    let mut view = base_view("/out");
    view.cloud = Some(cloud_view());
    view.delete_after_verify = true;
    let cfg = view_to_config(&view).unwrap();
    apply_config_in_memory(&cfg, None, &mut state, &mut runtime);

    assert!(state.cloud.configured, "[cloud] present -> configured true");
    let rt_cloud = runtime.config.as_ref().expect("runtime.config swapped in");
    assert_eq!(rt_cloud.destination_id, "nc1");
    assert_eq!(rt_cloud.username, "alice");
    assert!(runtime.delete_after_verify, "delete_after_verify carried into runtime");
}

#[test]
fn apply_saved_config_seeds_pending_and_failed_from_existing_queue() {
    let l = ledger_with_one_pending_one_failed();
    let mut state = AppState::default();
    let mut runtime = CloudRuntime::default();
    let mut view = base_view("/out");
    view.cloud = Some(cloud_view());
    let cfg = view_to_config(&view).unwrap();
    apply_config_in_memory(&cfg, cloud_counts_from_ledger(Some(&l)), &mut state, &mut runtime);
    assert_eq!(state.cloud.pending, 1);
    assert_eq!(state.cloud.failed, 1, "failed seeded alongside pending");
}

#[test]
fn apply_saved_config_rejects_invalid_view_without_writing() {
    let err = view_to_config(&base_view("")).unwrap_err();
    assert!(!err.is_empty(), "validation error message is non-empty");
}

#[test]
fn get_config_impl_renders_defaults_without_a_file() {
    let mut ctx = ctx_for(&Config::new("/x".to_string()));
    ctx.dest_root = "/home/u/GPBeam".to_string();
    let view = ctx.get_config(None, None, false);
    assert_eq!(view.dest_root, "/home/u/GPBeam");
    assert!(view.cloud.is_none());
    assert!(view.plaintext_credential_ids.is_empty());
}

#[test]
fn get_config_shows_the_password_and_where_it_stands() {
    let mut cfg = Config::new("/d".to_string());
    cfg.cloud = Some(cloud_config());
    let mut ctx = ctx_for(&cfg);
    let raw = "[credentials.nc1]\nusername=\"a\"\napp_password=\"pw\"\n";
    let before = ctx.get_config(Some(cfg.clone()), Some(raw), false);
    assert!(!before.cloud.as_ref().unwrap().has_password);
    assert_eq!(before.plaintext_credential_ids, vec!["nc1".to_string()]);
    assert_eq!(before.dest_root, "/d");
    ctx.creds.set_password("nc1", "stored").unwrap();
    let after = ctx.get_config(Some(cfg.clone()), None, true);
    assert!(after.cloud.as_ref().unwrap().has_password);
    assert_eq!(after.dest_root, "/tmp/gpbeam-test-dest");
    assert!(show_config(&cfg, true, Some("a = = b")).plaintext_credential_ids.is_empty());
}

#[test]
fn command_surface_count_is_pinned() {
    assert_eq!(
        command_names().len(),
        20,
        "command surface changed"
    );
}

#[test]
fn command_names_are_unique_and_sorted_by_phase_table() {
    let mut seen = std::collections::HashSet::new();
    for name in command_names() {
        assert!(seen.insert(name), "duplicate command name: {name}");
    }
}

#[test]
fn recover_and_count_pending_reclaims_orphaned_uploading() {
    let mut l = empty_ledger();
    let imp = l.record("C", "f.MP4", 1, 1, "/d/f", None);
    l.enqueue_cloud_job(imp, "nc1", "/d/f", "r", 1, None);
    l.claim_due_cloud_jobs(0, 10);
    assert_eq!(l.list_cloud_jobs(Some(JobState::Uploading)).len(), 1);

    let (pending, failed) = recover_and_count_pending(&mut l);
    assert_eq!(pending, 1, "the reclaimed job counts as pending");
    assert_eq!(failed, 0, "nothing terminally failed yet");
    assert_eq!(
        l.list_cloud_jobs(Some(JobState::Queued)).len(),
        1,
        "orphaned Uploading was reset to Queued at startup"
    );
    assert_eq!(l.list_cloud_jobs(Some(JobState::Uploading)).len(), 0);
}

#[test]
fn recover_and_count_pending_counts_terminal_failed_for_the_seed() {
    let mut l = empty_ledger();
    let mk = |l: &mut Ledger, name: &str, mt: i64| -> i64 {
        let imp = l.record("C", name, 1, mt, "/d", None);
        l.enqueue_cloud_job(imp, "nc1", "/d", name, 1, None)
    };
    let _queued = mk(&mut l, "q.MP4", 1);
    let retrying = mk(&mut l, "r.MP4", 2);
    let terminal = mk(&mut l, "t.MP4", 3);
    l.mark_job_failed(retrying, "transient", Some(9_999));
    l.mark_job_failed(terminal, "fatal", None);
    let (pending, failed) = recover_and_count_pending(&mut l);
    assert_eq!(pending, 2, "queued + retry-scheduled count as pending");
    assert_eq!(failed, 1, "only the terminal failure counts as failed");
}

#[test]
fn recover_and_count_pending_is_zero_for_missing_ledger() {
    let mut fresh = empty_ledger();
    assert_eq!(recover_and_count_pending(&mut fresh), (0, 0));
}

#[test]
fn pausing_and_resuming_number_the_state() {
    let mut ctx = ctx_for(&Config::new("/d".to_string()));
    let a = ctx.pause_cloud();
    assert!(ctx.paused && a.cloud.paused);
    assert_eq!(a.seq, 1);
    let b = ctx.resume_cloud();
    assert!(!ctx.paused && !b.cloud.paused);
    assert_eq!(b.seq, 2);
}

#[test]
fn retrying_shows_the_new_counts() {
    let mut ctx = ctx_for(&Config::new("/d".to_string()));
    let mut l = ledger_with_one_pending_one_failed();
    let shown = ctx.get_state(cloud_counts_from_ledger(Some(&l)));
    assert_eq!((shown.cloud.pending, shown.cloud.failed), (1, 1));
    let (n, state) = ctx.retry_failed_cloud(&mut l);
    assert_eq!(n, 1);
    assert_eq!((state.cloud.pending, state.cloud.failed), (2, 0));
    assert_eq!(state.seq, 1);
}

#[test]
fn saving_puts_the_settings_in_force() {
    let mut ctx = ctx_for(&Config::new("/d".to_string()));
    let mut cfg = Config::new("/d".to_string());
    cfg.cloud = Some(cloud_config());
    cfg.wired_ingest = false;
    let text = "[credentials.nc1]\nusername=\"a\"\napp_password=\"file-pw\"\n";
    let state = ctx.save_config(&cfg, text, Some(CloudCounts { pending: 4, failed: 2 }));
    assert!(state.cloud.configured);
    assert_eq!((state.cloud.pending, state.cloud.failed), (4, 2));
    assert_eq!(state.seq, 1);
    assert_eq!(state.status, Status::Idle);
    assert!(!ctx.wired_enabled);
    assert!(ctx.detector_paused);
    assert_eq!(ctx.creds.get("nc1").unwrap().unwrap().app_password, "file-pw");
    assert_eq!(ctx.creds.backend().get("com.gpbeam.app", "nc1").unwrap(), None);

    let off = ctx.save_config(&Config::new("/d".to_string()), "", None);
    assert!(!off.cloud.configured);
    assert_eq!((off.cloud.pending, off.cloud.failed), (0, 0));
    assert!(!ctx.detector_paused);
}

#[test]
fn an_offload_has_the_camera_to_itself() {
    let mut ctx = ctx_for(&Config::new("/d".to_string()));
    assert!(ctx.camera_found());
    assert!(ctx.detector_paused);
    ctx.camera_done();
    assert!(!ctx.detector_paused);
    ctx.wired_enabled = false;
    assert!(!ctx.camera_found());
    assert!(!ctx.wired_offload_active);
}

#[test]
fn opening_nothing_opens_the_destination() {
    let cfg = Config::new("/configured".to_string());
    assert_eq!(open_target("", Some(cfg.clone()), "/default", false), "/configured");
    assert_eq!(open_target("", Some(cfg.clone()), "/default", true), "/default");
    assert_eq!(open_target("", None, "/default", false), "/default");
    assert_eq!(open_target("/x", Some(cfg), "/default", false), "/x");
    let empty = load_or_default_config(Some(Config::new(String::new())), "/default", false);
    assert_eq!(empty.dest_root, "/default");
}
