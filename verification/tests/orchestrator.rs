use gpbeam::config::{CloudConfig, CloudKind, Config, MirrorMode};
use gpbeam::copy::CopyOutcome;
use gpbeam::error::CoreError;
use gpbeam::ledger::Ledger;
use gpbeam::orchestrator::{
    detection_event, empty_summary, guard_space, remote_path_for, should_auto_eject,
    should_delete_card, sum_sizes, Offload, OffloadAction, RunEvent, RunSummary,
};
use gpbeam::scanner::{scan_with_skips, CardFile};
use std::collections::{HashMap, HashSet};

/// A card and a destination in memory.
struct World {
    card: Vec<CardFile>,
    disk: HashMap<String, u64>,
    /// The names of files that cannot be read.
    unreadable: HashSet<String>,
    /// True if files can be deleted from the card.
    writable: bool,
    available: u64,
    ejected: Vec<String>,
}

fn file(name: &str, size: u64) -> CardFile {
    CardFile {
        src: format!("/card/DCIM/100GOPRO/{name}"),
        name: name.to_string(),
        size,
        mtime_unix: 1_700_000_000,
        exif: None,
    }
}

fn hero11_card() -> World {
    World {
        card: vec![
            file("GOPR0002.JPG", 1024),
            file("GS010003.360", 8192),
            file("GX010001.MP4", 4096),
            file("GX020001.MP4", 2048),
        ],
        disk: HashMap::new(),
        unreadable: HashSet::new(),
        writable: true,
        available: 1 << 40,
        ejected: vec![],
    }
}

fn run_offload(
    w: &mut World,
    cfg: &Config,
    ledger: &mut Ledger,
    events: &mut Vec<RunEvent>,
) -> Result<RunSummary, CoreError> {
    let model = Some("HERO11".to_string());
    let serial = Some("C3461324500001".to_string());
    events.push(detection_event("/card", !w.card.is_empty(), &model, &serial));
    if w.card.is_empty() {
        return Ok(empty_summary());
    }
    let existing: Vec<String> = w.disk.keys().cloned().collect();
    let files = w.card.clone();
    let (plan, known) = scan_with_skips(
        &files,
        cfg,
        ledger,
        serial.as_deref(),
        model.as_deref(),
        &existing,
    );
    let (scanned, error) =
        guard_space(plan.len(), sum_sizes(&plan), cfg.space_headroom, w.available);
    events.extend(scanned);
    if let Some(e) = error {
        return Err(e);
    }
    let (mut run, begun, mut action) =
        Offload::begin(plan, known, serial.as_deref(), "/card", ledger, cfg);
    events.extend(begun);
    loop {
        let (more, next) = match action {
            OffloadAction::Probe { path } => {
                run.probed(ledger, cfg, w.disk.get(&path).copied())
            }
            OffloadAction::Copy { position, dest } => {
                let f = &files[position];
                let outcome = if w.unreadable.contains(&f.name) {
                    Err("permission denied".to_string())
                } else {
                    let mut copied = 0;
                    while copied < f.size {
                        copied = (copied + (1 << 20)).min(f.size);
                        events.extend(run.progressed(copied));
                    }
                    w.disk.insert(dest.clone(), f.size);
                    Ok(CopyOutcome { dest, bytes: f.size, hash: Some("h".to_string()) })
                };
                run.copied(ledger, cfg, outcome)
            }
            OffloadAction::Delete { position } => {
                if w.writable {
                    let name = files[position].name.clone();
                    w.card.retain(|f| f.name != name);
                    run.deleted(ledger, cfg, None)
                } else {
                    run.deleted(ledger, cfg, Some("read-only"))
                }
            }
            OffloadAction::Eject => {
                w.ejected.push("/card".to_string());
                events.push(run.ejected(None));
                return Ok(run.summary());
            }
            OffloadAction::Done => return Ok(run.summary()),
        };
        events.extend(more);
        action = next;
    }
}

fn cfg() -> Config {
    Config::new("/dest".to_string())
}

fn cloud_cfg(mode: MirrorMode) -> Config {
    let mut cfg = cfg();
    cfg.cloud = Some(CloudConfig {
        kind: CloudKind::Nextcloud,
        destination_id: "nc1".into(),
        base_url: "https://nc.example".into(),
        username: "alice".into(),
        remote_root: "GoPro".into(),
        mirror_mode: mode,
        chunk_threshold: 50 * 1024 * 1024,
        tls_ca_pem: None,
        max_concurrency: 2,
        max_attempts: 8,
    });
    cfg
}

fn mem() -> Ledger {
    Ledger::new("t".to_string())
}

#[test]
fn not_a_gopro_emits_event_and_returns_zero() {
    let mut w = World { card: vec![], ..hero11_card() };
    let mut events = Vec::new();
    let summary = run_offload(&mut w, &cfg(), &mut mem(), &mut events).unwrap();
    assert_eq!(summary.copied, 0);
    assert!(matches!(events.first(), Some(RunEvent::NotGoPro(_))));
}

#[test]
fn copies_all_new_media_and_is_idempotent() {
    let mut w = hero11_card();
    let mut ledger = mem();
    let mut events = Vec::new();
    let s1 = run_offload(&mut w, &cfg(), &mut ledger, &mut events).unwrap();
    assert_eq!(s1.copied, 4);
    assert_eq!(s1.failed, 0);
    assert_eq!(s1.bytes, 1024 + 8192 + 4096 + 2048);
    assert!(events.iter().any(|e| matches!(e, RunEvent::CardDetected { .. })));
    assert!(events.iter().filter(|e| matches!(e, RunEvent::Verified { .. })).count() == 4);
    assert_eq!(w.disk.len(), 4);

    let s2 = run_offload(&mut w, &cfg(), &mut ledger, &mut vec![]).unwrap();
    assert_eq!(s2.copied, 0);
    assert_eq!(s2.skipped, 4);
    assert_eq!(w.disk.len(), 4);
}

#[test]
fn insufficient_space_aborts_before_copying() {
    let mut w = hero11_card();
    let mut c = cfg();
    c.space_headroom = u64::MAX - 1;
    let mut events = Vec::new();
    let err = run_offload(&mut w, &c, &mut mem(), &mut events);
    assert!(matches!(err, Err(CoreError::InsufficientSpace { .. })));
    assert!(events.iter().any(|e| matches!(e, RunEvent::InsufficientSpace { .. })));
    assert_eq!(w.disk.len(), 0);
}

#[test]
fn second_run_reports_skipped_in_summary() {
    let mut w = hero11_card();
    let mut ledger = mem();
    run_offload(&mut w, &cfg(), &mut ledger, &mut vec![]).unwrap();
    let s2 = run_offload(&mut w, &cfg(), &mut ledger, &mut vec![]).unwrap();
    assert_eq!(s2.skipped, 4);
    assert_eq!(s2.copied, 0);
}

#[test]
fn emits_live_progress_during_copy() {
    let size = 5 * 1024 * 1024u64;
    let mut w = World { card: vec![file("GX010001.MP4", size)], ..hero11_card() };
    let mut events = Vec::new();
    run_offload(&mut w, &cfg(), &mut mem(), &mut events).unwrap();
    let copied_seq: Vec<u64> = events
        .iter()
        .filter_map(|e| match e {
            RunEvent::Progress { copied, .. } => Some(*copied),
            _ => None,
        })
        .collect();
    assert!(
        copied_seq.len() >= 3,
        "expected several streaming Progress ticks, got {copied_seq:?}"
    );
    assert!(copied_seq.iter().any(|c| *c < size), "at least one mid-file tick (copied < size)");
    assert!(copied_seq.contains(&size), "a Progress reaches the file size");
    assert!(
        copied_seq.windows(2).all(|w| w[0] <= w[1]),
        "cumulative copied is monotonic: {copied_seq:?}"
    );
}

#[test]
fn auto_mirror_enqueues_one_job_per_copied_file() {
    let mut w = hero11_card();
    let mut ledger = mem();
    let mut events = Vec::new();
    let summary =
        run_offload(&mut w, &cloud_cfg(MirrorMode::Auto), &mut ledger, &mut events).unwrap();
    assert_eq!(summary.copied, 4);
    assert_eq!(summary.queued, 4, "one cloud job queued per copied file");
    let queued_events =
        events.iter().filter(|e| matches!(e, RunEvent::CloudQueued { .. })).count();
    assert_eq!(queued_events, 4);
    assert_eq!(ledger.pending_cloud_count(), 4);
    let jobs = ledger.list_cloud_jobs(None);
    assert!(jobs.iter().all(|j| j.remote_path.starts_with("GoPro/")));
    assert!(jobs.iter().all(|j| j.destination_id == "nc1"));
    assert!(jobs.iter().all(|j| j.card_src.as_deref().is_some_and(|s| s.contains("DCIM"))));
}

#[test]
fn copied_file_imported_row_matches_its_cloud_job() {
    let mut w = hero11_card();
    let mut ledger = mem();
    run_offload(&mut w, &cloud_cfg(MirrorMode::Auto), &mut ledger, &mut vec![]).unwrap();
    let jobs = ledger.list_cloud_jobs(None);
    assert_eq!(jobs.len(), 4);
    for j in &jobs {
        assert!(j.imported_id > 0);
    }
    let mut ids: Vec<i64> = jobs.iter().map(|j| j.imported_id).collect();
    ids.sort_unstable();
    ids.dedup();
    assert_eq!(ids.len(), 4, "one distinct imported row per copied file");
}

#[test]
fn manual_mirror_also_enqueues_jobs() {
    let mut w = hero11_card();
    let mut ledger = mem();
    let summary =
        run_offload(&mut w, &cloud_cfg(MirrorMode::Manual), &mut ledger, &mut vec![]).unwrap();
    assert_eq!(summary.copied, 4);
    assert_eq!(summary.queued, 4, "Manual mirror queues jobs too");
    assert_eq!(ledger.pending_cloud_count(), 4);
}

#[test]
fn off_mirror_enqueues_nothing() {
    let mut w = hero11_card();
    let mut ledger = mem();
    let mut events = Vec::new();
    let summary =
        run_offload(&mut w, &cloud_cfg(MirrorMode::Off), &mut ledger, &mut events).unwrap();
    assert_eq!(summary.copied, 4);
    assert_eq!(summary.queued, 0);
    assert!(!events.iter().any(|e| matches!(e, RunEvent::CloudQueued { .. })));
    assert_eq!(ledger.pending_cloud_count(), 0);
}

#[test]
fn no_cloud_config_queues_nothing_m1_unchanged() {
    let mut w = hero11_card();
    let mut ledger = mem();
    let mut events = Vec::new();
    let summary = run_offload(&mut w, &cfg(), &mut ledger, &mut events).unwrap();
    assert_eq!(summary.copied, 4);
    assert_eq!(summary.queued, 0);
    assert!(!events.iter().any(|e| matches!(e, RunEvent::CloudQueued { .. })));
    assert_eq!(ledger.pending_cloud_count(), 0);
}

#[test]
fn should_delete_card_truth_table() {
    assert!(should_delete_card(true, MirrorMode::Off));
    assert!(should_delete_card(true, MirrorMode::Manual));
    assert!(!should_delete_card(true, MirrorMode::Auto));
    assert!(!should_delete_card(false, MirrorMode::Off));
    assert!(!should_delete_card(false, MirrorMode::Manual));
    assert!(!should_delete_card(false, MirrorMode::Auto));
}

fn on_card(w: &World, name: &str) -> bool {
    w.card.iter().any(|f| f.name == name)
}

#[test]
fn delete_after_verify_off_mirror_removes_card_source() {
    let mut w = hero11_card();
    let mut c = cfg();
    c.delete_after_verify = true;
    let mut events = Vec::new();
    let summary = run_offload(&mut w, &c, &mut mem(), &mut events).unwrap();
    assert_eq!(summary.copied, 4);
    assert!(!on_card(&w, "GX010001.MP4"), "card source deleted after local verify");
    assert!(events.iter().any(|e| matches!(e, RunEvent::CardFileDeleted { .. })));
}

#[test]
fn delete_after_verify_auto_mirror_keeps_card_source() {
    let mut w = hero11_card();
    let mut c = cloud_cfg(MirrorMode::Auto);
    c.delete_after_verify = true;
    let mut ledger = mem();
    let mut events = Vec::new();
    run_offload(&mut w, &c, &mut ledger, &mut events).unwrap();
    assert!(
        on_card(&w, "GX010001.MP4"),
        "Auto mirror must NOT delete inline; worker deletes after Done"
    );
    assert!(!events.iter().any(|e| matches!(e, RunEvent::CardFileDeleted { .. })));
    let jobs = ledger.list_cloud_jobs(None);
    assert!(jobs.iter().all(|j| j.card_src.is_some()));
}

#[test]
fn delete_after_verify_off_when_flag_unset() {
    let mut w = hero11_card();
    run_offload(&mut w, &cfg(), &mut mem(), &mut vec![]).unwrap();
    assert!(on_card(&w, "GX010001.MP4"), "deletion is opt-in; flag off keeps card source");
}

#[test]
fn a_card_that_cannot_be_written_is_warned_of() {
    let mut w = World { writable: false, ..hero11_card() };
    let mut c = cfg();
    c.delete_after_verify = true;
    let mut events = Vec::new();
    let summary = run_offload(&mut w, &c, &mut mem(), &mut events).unwrap();
    assert_eq!(summary.copied, 4);
    assert_eq!(summary.failed, 0, "a failed deletion is no failed file");
    assert!(events.iter().any(|e| matches!(
        e,
        RunEvent::CardDeleteFailed { error, .. } if error == "read-only"
    )));
}

#[test]
fn unrecorded_verified_dest_is_adopted_not_recopied() {
    let mut w = hero11_card();
    let mut before = hero11_card();
    run_offload(&mut before, &cfg(), &mut mem(), &mut vec![]).unwrap();
    w.disk = before.disk;
    let on_disk = w.disk.len();
    let mut ledger = mem();
    let summary = run_offload(&mut w, &cfg(), &mut ledger, &mut vec![]).unwrap();
    assert_eq!(
        summary.copied, 0,
        "files already on disk must be adopted, not re-copied"
    );
    assert_eq!(summary.failed, 0);
    assert!(summary.skipped >= 4);
    assert!(!w.disk.keys().any(|n| n.contains("_1.")), "no collision-suffixed copies");
    assert_eq!(w.disk.len(), on_disk, "no new files on disk");
    let s2 = run_offload(&mut w, &cfg(), &mut ledger, &mut vec![]).unwrap();
    assert_eq!(s2.copied, 0);
}

#[test]
fn a_file_that_cannot_be_read_fails_alone() {
    let mut w = hero11_card();
    w.unreadable.insert("GS010003.360".to_string());
    let mut ledger = mem();
    let mut events = Vec::new();
    let summary = run_offload(&mut w, &cfg(), &mut ledger, &mut events).unwrap();
    assert_eq!((summary.copied, summary.failed), (3, 1));
    assert!(events.iter().any(|e| matches!(
        e,
        RunEvent::Failed { file, error } if file == "GS010003.360" && error == "permission denied"
    )));
    assert_eq!(
        events.last(),
        Some(&RunEvent::RunComplete { copied: 3, skipped: 0, failed: 1, bytes: summary.bytes })
    );
    w.unreadable.clear();
    let again = run_offload(&mut w, &cfg(), &mut ledger, &mut vec![]).unwrap();
    assert_eq!((again.copied, again.skipped), (1, 3));
}

#[test]
fn should_auto_eject_truth_table() {
    assert!(!should_auto_eject(false, false, MirrorMode::Off));
    assert!(!should_auto_eject(false, true, MirrorMode::Auto));
    assert!(should_auto_eject(true, false, MirrorMode::Off));
    assert!(should_auto_eject(true, false, MirrorMode::Manual));
    assert!(should_auto_eject(true, false, MirrorMode::Auto));
    assert!(should_auto_eject(true, true, MirrorMode::Off));
    assert!(should_auto_eject(true, true, MirrorMode::Manual));
    assert!(!should_auto_eject(true, true, MirrorMode::Auto));
}

#[test]
fn auto_eject_true_calls_ejector_once_with_mount() {
    let mut w = hero11_card();
    let mut c = cfg();
    c.auto_eject = true;
    let mut events = Vec::new();
    let summary = run_offload(&mut w, &c, &mut mem(), &mut events).unwrap();
    assert_eq!(summary.copied, 4);
    assert_eq!(w.ejected.len(), 1, "ejected exactly once");
    assert!(events.contains(&RunEvent::Ejected { mount: "/card".to_string() }));
}

#[test]
fn auto_eject_false_does_not_call_ejector() {
    let mut w = hero11_card();
    run_offload(&mut w, &cfg(), &mut mem(), &mut vec![]).unwrap();
    assert!(w.ejected.is_empty(), "flag off => no eject");
}

#[test]
fn auto_eject_skipped_for_non_gopro_volume() {
    let mut w = World { card: vec![], ..hero11_card() };
    let mut c = cfg();
    c.auto_eject = true;
    run_offload(&mut w, &c, &mut mem(), &mut vec![]).unwrap();
    assert!(w.ejected.is_empty(), "non-GoPro volume is never ejected");
}

#[test]
fn auto_eject_suppressed_when_delete_after_verify_and_auto_mirror() {
    let mut w = hero11_card();
    let mut c = cloud_cfg(MirrorMode::Auto);
    c.auto_eject = true;
    c.delete_after_verify = true;
    run_offload(&mut w, &c, &mut mem(), &mut vec![]).unwrap();
    assert!(
        w.ejected.is_empty(),
        "delete_after_verify + Auto must defer eject (worker needs the card)"
    );
}

#[test]
fn remote_paths_have_one_separator() {
    assert_eq!(remote_path_for("GoPro/", "/a.mp4"), "GoPro/a.mp4");
    assert_eq!(remote_path_for("GoPro", "a.mp4"), "GoPro/a.mp4");
    assert_eq!(remote_path_for("", "a.mp4"), "a.mp4");
    assert_eq!(remote_path_for("/", "a.mp4"), "a.mp4");
}
