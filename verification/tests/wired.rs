use gpbeam::capture::Captured;
use gpbeam::config::{CloudConfig, CloudKind, Config, MirrorMode};
use gpbeam::copy::verify_dest_hash;
use gpbeam::error::{is_retryable, CoreError};
use gpbeam::ledger::Ledger;
use gpbeam::orchestrator::{detection_event, guard_space, RunEvent, RunSummary};
use gpbeam::transfer::stream_hash_to_part;
use gpbeam::wired::client::{
    content_range_start, encoded_query, expect_ok, format_duration, media_list_error, parse_error,
    parse_media_list, timeout_err, with_query, CameraInfo, Download, DownloadStep, GoProClient,
    ListedDir, ListedFile, RemoteMedia,
};
use gpbeam::wired::offload::{
    camera_identity, plan_downloads, plan_wired, sum_wired, WiredAction, WiredRun,
};
use std::collections::HashMap;

fn blake3_hex(bytes: &[u8]) -> String {
    blake3::hash(bytes).to_hex().to_string()
}

fn text(v: Option<&serde_json::Value>) -> String {
    v.and_then(|t| t.as_str()).unwrap_or("").to_string()
}

/// The directories of a listing in JSON.
fn listed(json: &str) -> Vec<ListedDir> {
    let v: serde_json::Value = serde_json::from_str(json).unwrap();
    let empty = vec![];
    v.get("media")
        .and_then(|m| m.as_array())
        .unwrap_or(&empty)
        .iter()
        .map(|d| ListedDir {
            d: text(d.get("d")),
            fs: d
                .get("fs")
                .and_then(|f| f.as_array())
                .unwrap_or(&empty)
                .iter()
                .map(|f| ListedFile {
                    n: text(f.get("n")),
                    s: text(f.get("s")),
                    cre: text(f.get("cre")),
                })
                .collect(),
        })
        .collect()
}

#[test]
fn version_404_is_http_error() {
    let c = GoProClient::with_base("http://127.0.0.1:9999");
    assert_eq!(c.version_url(), "http://127.0.0.1:9999/gopro/version");
    assert_eq!(expect_ok(&c.version_url(), 200), Ok(()));
    let err = expect_ok(&c.version_url(), 404).unwrap_err();
    assert!(matches!(err, CoreError::Http { status: Some(404), .. }), "got {err:?}");
}

#[test]
fn delete_path_hits_media_delete_endpoint() {
    let c = GoProClient::with_base("http://127.0.0.1:9999");
    assert_eq!(
        c.delete_url("100GOPRO", "GX010001.MP4").unwrap(),
        "http://127.0.0.1:9999/gopro/media/delete?path=100GOPRO%2FGX010001.MP4"
    );
}

#[test]
fn enable_wired_control_sends_p1_and_succeeds() {
    let c = GoProClient::with_base("http://127.0.0.1:9999");
    assert_eq!(
        c.wired_control_url().unwrap(),
        "http://127.0.0.1:9999/gopro/camera/control/wired_usb?p=1"
    );
    assert_eq!(c.info_url(), "http://127.0.0.1:9999/gopro/camera/info");
    assert_eq!(c.media_list_url(), "http://127.0.0.1:9999/gopro/media/list");
}

#[test]
fn info_500_is_http_error() {
    let c = GoProClient::with_base("http://127.0.0.1:9999");
    let err = expect_ok(&c.info_url(), 500).unwrap_err();
    assert!(matches!(err, CoreError::Http { status: Some(500), .. }), "got {err:?}");
}

#[test]
fn enable_wired_control_403_is_http_error() {
    let c = GoProClient::with_base("http://127.0.0.1:9999");
    let err = expect_ok(&c.wired_control_url().unwrap(), 403).unwrap_err();
    assert!(matches!(err, CoreError::Http { status: Some(403), .. }), "got {err:?}");
}

#[test]
fn media_list_500_is_http_error() {
    let c = GoProClient::with_base("http://127.0.0.1:9999");
    let err = expect_ok(&c.media_list_url(), 500).unwrap_err();
    assert!(matches!(err, CoreError::Http { status: Some(500), .. }), "got {err:?}");
}

#[test]
fn delete_500_is_http_error() {
    let c = GoProClient::with_base("http://127.0.0.1:9999");
    let url = c.delete_url("100GOPRO", "GX010001.MP4").unwrap();
    let err = expect_ok(&url, 500).unwrap_err();
    assert!(matches!(err, CoreError::Http { status: Some(500), .. }), "got {err:?}");
}

#[test]
fn an_address_that_cannot_be_read_is_an_http_error() {
    let err = with_query("not a url", "p", "1").unwrap_err();
    match &err {
        CoreError::Http { status: None, msg } => {
            assert!(msg.starts_with("bad url not a url: "), "{msg}");
        }
        other => panic!("got {other:?}"),
    }
    assert_eq!(encoded_query("b", Ok("b?p=1".to_string())), Ok("b?p=1".to_string()));
}

#[test]
fn parse_media_list_flattens_dirs_and_parses_string_numbers() {
    let json = r#"{
          "id": "1",
          "media": [
            {
              "d": "100GOPRO",
              "fs": [
                {"n":"GX010001.MP4","s":"684588850","cre":"1780515910","mod":"1780515912"},
                {"n":"GX010002.MP4","s":"12","cre":"1780600000","mod":"1780600001"}
              ]
            },
            {
              "d": "101GOPRO",
              "fs": [
                {"n":"GS010003.360","s":"42","cre":"1780700000","mod":"1780700001"}
              ]
            }
          ]
        }"#;
    let got = parse_media_list(&listed(json));
    assert_eq!(
        got,
        vec![
            RemoteMedia {
                dir: "100GOPRO".into(),
                name: "GX010001.MP4".into(),
                size: 684588850,
                captured_unix: 1780515910
            },
            RemoteMedia {
                dir: "100GOPRO".into(),
                name: "GX010002.MP4".into(),
                size: 12,
                captured_unix: 1780600000
            },
            RemoteMedia {
                dir: "101GOPRO".into(),
                name: "GS010003.360".into(),
                size: 42,
                captured_unix: 1780700000
            },
        ]
    );
}

#[test]
fn parse_media_list_skips_entries_with_unparseable_size() {
    let json = r#"{"media":[{"d":"100GOPRO","fs":[
            {"n":"NO_SIZE.MP4"},
            {"n":"BAD_SIZE.MP4","s":"not-a-number","cre":"1780600000"},
            {"n":"GOOD.MP4","s":"42","cre":"also-bad"}
        ]}]}"#;
    let got = parse_media_list(&listed(json));
    assert_eq!(
        got,
        vec![RemoteMedia {
            dir: "100GOPRO".into(),
            name: "GOOD.MP4".into(),
            size: 42,
            captured_unix: 0
        }]
    );
}

#[test]
fn parse_media_list_empty_media_is_empty_vec() {
    assert_eq!(parse_media_list(&listed(r#"{"media":[]}"#)), vec![]);
    assert_eq!(parse_media_list(&listed(r#"{}"#)), vec![]);
}

#[test]
fn answers_that_cannot_be_read_are_told() {
    assert_eq!(
        parse_error("u", "eof"),
        CoreError::Http { status: None, msg: "GET u parse error: eof".to_string() }
    );
    assert_eq!(
        media_list_error("eof"),
        CoreError::Http { status: None, msg: "media list parse error: eof".to_string() }
    );
}

const FULL: &[u8] = b"0123456789ABCDEFGHIJ";

fn media_of(size: u64) -> RemoteMedia {
    RemoteMedia {
        dir: "100GOPRO".into(),
        name: "GX010001.MP4".into(),
        size,
        captured_unix: 1780515910,
    }
}

/// Downloads `FULL` over a partial file, with the answers of a camera that serve
/// the request from its offset on.
fn download(
    part: &[u8],
    answer: &dyn Fn(u64) -> (u16, Option<String>, Vec<u8>),
) -> Result<(Vec<u64>, u64, String, Vec<String>), CoreError> {
    let client = GoProClient::with_base("http://10.0.0.1:8080");
    let m = media_of(FULL.len() as u64);
    let len = if part.is_empty() { None } else { Some(part.len() as u64) };
    let (mut d, discard) = Download::begin(&client, &m, len);
    let mut on_disk: Vec<u8> = if discard { vec![] } else { part.to_vec() };
    let mut ranges = vec![];
    loop {
        ranges.push(d.range());
        let (status, content_range, body) = answer(d.already);
        match d.answered(status, content_range.as_deref()) {
            DownloadStep::Restart => on_disk.clear(),
            DownloadStep::Stream { resume } => {
                if !resume {
                    on_disk.clear();
                }
                let (reports, total, hash) = stream_hash_to_part(&on_disk, &vec![body]);
                return Ok((reports, total, hash, ranges));
            }
            DownloadStep::Fail(e) => return Err(e),
        }
    }
}

#[test]
fn download_resumable_fresh_streams_and_hashes() {
    let (reports, total, hash, ranges) =
        download(b"", &|_| (206, None, FULL.to_vec())).unwrap();
    assert_eq!(total, FULL.len() as u64);
    assert_eq!(hash, blake3_hex(FULL));
    assert_eq!(reports.last(), Some(&(FULL.len() as u64)), "progress reached total");
    assert_eq!(ranges, vec!["bytes=0-"]);
}

#[test]
fn download_resumable_resumes_from_existing_part() {
    let (reports, total, hash, ranges) = download(&FULL[..8], &|from| {
        assert_eq!(from, 8);
        (206, Some("bytes 8-19/20".to_string()), FULL[8..].to_vec())
    })
    .unwrap();
    assert_eq!(total, FULL.len() as u64);
    assert_eq!(hash, blake3_hex(FULL), "hash is over the FULL reassembled file");
    assert_eq!(reports.last(), Some(&(FULL.len() as u64)));
    assert_eq!(ranges, vec!["bytes=8-"]);
}

#[test]
fn download_resumable_discards_oversized_part() {
    let (_, total, hash, ranges) =
        download(&[1u8; 30], &|_| (206, None, FULL.to_vec())).unwrap();
    assert_eq!(total, FULL.len() as u64);
    assert_eq!(hash, blake3_hex(FULL), "hash is over the freshly downloaded file");
    assert_eq!(ranges, vec!["bytes=0-"]);
}

#[test]
fn download_resumable_distrusts_complete_part_and_redownloads() {
    let torn = vec![0u8; FULL.len()];
    let (reports, total, hash, ranges) =
        download(&torn, &|_| (200, None, FULL.to_vec())).unwrap();
    assert_eq!(total, FULL.len() as u64);
    assert_eq!(
        hash,
        blake3_hex(FULL),
        "hash covers the CAMERA's bytes, not the torn on-disk bytes"
    );
    assert_eq!(reports.last(), Some(&(FULL.len() as u64)));
    assert_eq!(ranges.len(), 1, "exactly one full re-download");
}

#[test]
fn download_resumable_416_discards_stale_part_and_restarts() {
    let (_, total, hash, ranges) = download(&[9u8; 8], &|from| {
        if from == 8 {
            (416, None, vec![])
        } else {
            (206, None, FULL.to_vec())
        }
    })
    .unwrap();
    assert_eq!(total, FULL.len() as u64);
    assert_eq!(hash, blake3_hex(FULL), "stale prefix was discarded, not resumed");
    assert_eq!(ranges, vec!["bytes=8-", "bytes=0-"]);
}

#[test]
fn download_resumable_wrong_offset_206_restarts_from_zero() {
    let (_, total, hash, ranges) = download(&FULL[..8], &|_| {
        (206, Some("bytes 0-19/20".to_string()), FULL.to_vec())
    })
    .unwrap();
    assert_eq!(total, FULL.len() as u64);
    assert_eq!(hash, blake3_hex(FULL));
    assert_eq!(ranges, vec!["bytes=8-", "bytes=0-"]);
}

#[test]
fn a_whole_answer_replaces_the_partial_file() {
    let (_, total, hash, _) =
        download(&FULL[..8], &|_| (200, None, FULL.to_vec())).unwrap();
    assert_eq!(total, FULL.len() as u64);
    assert_eq!(hash, blake3_hex(FULL));
}

#[test]
fn content_range_start_parses_standard_and_rejects_garbage() {
    assert_eq!(content_range_start(None), None, "missing header");
    assert_eq!(content_range_start(Some("bytes 8-19/20")), Some(8));
    assert_eq!(content_range_start(Some("bytes 0-19/*")), Some(0));
    assert_eq!(
        content_range_start(Some("bytes */20")),
        None,
        "unsatisfied-range form has no start"
    );
    assert_eq!(content_range_start(Some("chickens 8-19/20")), None, "foreign unit");
}

#[test]
fn control_request_timeout_is_retryable_http_not_a_hang() {
    let c = GoProClient::with_base("http://10.0.0.1:8080").with_timeouts(100, 100);
    assert_eq!((c.control_timeout_ms, c.idle_timeout_ms), (100, 100));
    let err = timeout_err(&c.version_url(), "request", c.control_timeout_ms);
    assert_eq!(
        err,
        CoreError::Http {
            status: None,
            msg: "GET http://10.0.0.1:8080/gopro/version: request timed out after 100ms"
                .to_string()
        }
    );
    assert!(is_retryable(&err), "timeouts must be retryable");
}

#[test]
fn download_resumable_404_is_http_error() {
    let err = download(b"", &|_| (404, None, vec![])).unwrap_err();
    assert!(matches!(err, CoreError::Http { status: Some(404), .. }), "got {err:?}");
}

#[test]
fn new_builds_base_from_ip() {
    let c = GoProClient::new("172.26.122.51");
    assert_eq!(c.base(), "http://172.26.122.51:8080");
}

#[test]
fn durations_are_written_as_for_debugging() {
    for ms in [0, 1, 250, 999, 1000, 1001, 1010, 1100, 1500, 2_000, 30_000, 61_050, 3_600_000] {
        let debug = format!("{:?}", std::time::Duration::from_millis(ms));
        assert_eq!(format_duration(ms), debug, "{ms}");
    }
    let max = format!("{:?}", std::time::Duration::from_millis(u64::MAX));
    assert_eq!(format_duration(u64::MAX), max);
}

#[test]
fn with_base_uses_given_url_verbatim_trimming_trailing_slash() {
    let c = GoProClient::with_base("http://127.0.0.1:9999/");
    assert_eq!(c.base(), "http://127.0.0.1:9999");
}

#[test]
fn media_url_joins_dir_and_name() {
    let c = GoProClient::with_base("http://10.0.0.1:8080");
    assert_eq!(
        c.media_url(&media_of(10)),
        "http://10.0.0.1:8080/videos/DCIM/100GOPRO/GX010001.MP4"
    );
}

fn media(name: &str, size: u64, cre: i64) -> RemoteMedia {
    RemoteMedia { dir: "100GOPRO".into(), name: name.into(), size, captured_unix: cre }
}

fn cfg() -> Config {
    Config::new("/dest".to_string())
}

fn mem() -> Ledger {
    Ledger::new("t".to_string())
}

/// A camera and a destination in memory.
struct World {
    files: Vec<(RemoteMedia, Vec<u8>)>,
    disk: HashMap<String, Vec<u8>>,
    deleted: Vec<String>,
    available: u64,
}

fn world(files: &[(&str, Vec<u8>, i64)]) -> World {
    World {
        files: files
            .iter()
            .map(|f| (media(f.0, f.1.len() as u64, f.2), f.1.clone()))
            .collect(),
        disk: HashMap::new(),
        deleted: vec![],
        available: 1 << 40,
    }
}

fn run_wired(
    w: &mut World,
    cfg: &Config,
    ledger: &mut Ledger,
    events: &mut Vec<RunEvent>,
) -> Result<RunSummary, CoreError> {
    let info = CameraInfo {
        model: "MISSION 1 PRO".into(),
        serial: "C3575424520622".into(),
        firmware: "H26.01".into(),
    };
    let (serial, model) = camera_identity(&info);
    events.push(detection_event("", true, &model, &Some(serial.clone())));
    let listing: Vec<RemoteMedia> = w
        .files
        .iter()
        .map(|f| media(&f.0.name, f.0.size, f.0.captured_unix))
        .collect();
    let existing: Vec<String> = w.disk.keys().cloned().collect();
    let (plan, skipped) =
        plan_wired(&listing, cfg, ledger, &serial, model.as_deref(), &existing);
    let (scanned, error) =
        guard_space(plan.len(), sum_wired(&plan), cfg.space_headroom, w.available);
    events.extend(scanned);
    if let Some(e) = error {
        return Err(e);
    }
    let (mut run, begun, mut action) = WiredRun::begin(plan, skipped, &serial);
    events.extend(begun);
    loop {
        let (more, next) = match action {
            WiredAction::Download { index, part } => {
                let name = run.item(index).media.name.clone();
                let body = w.files.iter().find(|f| f.0.name == name).unwrap().1.clone();
                let (reports, total, hash) = stream_hash_to_part(b"", &vec![body.clone()]);
                for r in reports {
                    events.extend(run.progressed(r));
                }
                w.disk.insert(part, body);
                run.downloaded(cfg.verify, Ok((total, hash)))
            }
            WiredAction::Place { part, dest, hash, verify } => {
                let body = w.disk.remove(&part).unwrap();
                let got = blake3_hex(&body);
                w.disk.insert(dest.clone(), body);
                let failure =
                    verify_dest_hash(&dest, &hash, &got, verify).err().map(|e| e.to_string());
                run.placed(ledger, cfg, failure)
            }
            WiredAction::Delete { index } => {
                w.deleted.push(run.item(index).media.name.clone());
                run.deleted(None)
            }
            WiredAction::Done => return Ok(run.summary()),
        };
        events.extend(more);
        action = next;
    }
}

fn one() -> World {
    world(&[("GX010198.MP4", vec![7u8; 4096], 1_780_515_910)])
}

#[test]
fn happy_path_offloads_new_files_and_records_them() {
    let mut w = world(&[
        ("GX010198.MP4", vec![7u8; 4096], 1_780_515_910),
        ("GX010199.MP4", vec![9u8; 8192], 1_780_515_924),
    ]);
    let mut ledger = mem();
    let mut events = Vec::new();
    let summary = run_wired(&mut w, &cfg(), &mut ledger, &mut events).unwrap();
    assert_eq!(summary.copied, 2);
    assert_eq!(summary.failed, 0);
    assert!(events.iter().any(|e| matches!(
        e,
        RunEvent::CardDetected { serial: Some(s), .. } if s == "C3575424520622"
    )));
    assert!(events.iter().filter(|e| matches!(e, RunEvent::Verified { .. })).count() == 2);
    assert!(events.iter().any(|e| matches!(e, RunEvent::RunComplete { copied: 2, .. })));
    assert_eq!(w.disk.len(), 2);
    assert!(ledger.is_imported("C3575424520622", "GX010198.MP4", 4096, 1_780_515_910));
}

#[test]
fn second_run_is_idempotent() {
    let mut w = one();
    let mut ledger = mem();
    let s1 = run_wired(&mut w, &cfg(), &mut ledger, &mut vec![]).unwrap();
    assert_eq!(s1.copied, 1);
    let s2 = run_wired(&mut w, &cfg(), &mut ledger, &mut vec![]).unwrap();
    assert_eq!(s2.copied, 0, "already imported -> nothing new");
    assert_eq!(s2.skipped, 1);
    assert_eq!(w.disk.len(), 1, "no duplicate file");
}

#[test]
fn size_mismatch_fails_and_keeps_part() {
    let mut w = world(&[("GX010198.MP4", vec![1u8; 10], 1)]);
    w.files[0].0.size = 4096;
    let mut ledger = mem();
    let mut events = Vec::new();
    let s = run_wired(&mut w, &cfg(), &mut ledger, &mut events).unwrap();
    assert_eq!(s.copied, 0);
    assert_eq!(s.failed, 1);
    assert!(events.iter().any(|e| matches!(
        e,
        RunEvent::Failed { error, .. } if error == "size mismatch: got 10, expected 4096"
    )));
    assert!(!ledger.is_imported("C3575424520622", "GX010198.MP4", 4096, 1));
    assert!(w.disk.keys().any(|n| n.ends_with(".part")), "a .part should remain");
    assert!(!w.disk.keys().any(|n| n.ends_with(".MP4")));
}

#[test]
fn plan_skips_proxies_thumbnails_dedups_and_names() {
    let mut ledger = mem();
    ledger.record("C357", "GX010196.MP4", 100, 1_780_334_487, "/old", None);
    let listing = vec![
        media("GX010196.MP4", 100, 1_780_334_487),
        media("GX010198.MP4", 684_588_850, 1_780_515_910),
        media("GX010198.LRV", 5_251_966, 1_780_515_910),
        media("GX010198.THM", 12_345, 1_780_515_910),
    ];
    let (plan, skipped) =
        plan_wired(&listing, &cfg(), &ledger, "C357", Some("MISSION 1 PRO"), &vec![]);
    assert_eq!(skipped, 3, "1 dedup + 1 proxy + 1 thumbnail");
    assert_eq!(plan.len(), 1);
    let p = &plan[0];
    assert_eq!(p.media.name, "GX010198.MP4");
    assert!(p.dest_name.ends_with("_GX010198.MP4"), "got {}", p.dest_name);
    assert_eq!(p.dest_path, format!("/dest/{}", p.dest_name));
}

#[test]
fn plan_includes_proxies_when_configured() {
    let mut c = cfg();
    c.include_proxies = true;
    let (plan, skipped) =
        plan_wired(&vec![media("GX010198.LRV", 10, 1)], &c, &mem(), "C357", None, &vec![]);
    assert_eq!(skipped, 0);
    assert_eq!(plan.len(), 1);
}

#[test]
fn plan_names_files_by_their_time() {
    let caps = vec![Captured { date: "2026-06-01".into(), time: "143055".into() }];
    let (plan, _) = plan_downloads(
        &vec![media("GX010198.MP4", 10, 1)],
        &caps,
        &cfg(),
        &mem(),
        "C357",
        None,
        &vec!["/dest/2026-06-01_GX010198.MP4".to_string()],
    );
    assert_eq!(plan[0].dest_path, "/dest/2026-06-01_GX010198_1.MP4");
}

fn cloud_cfg(mode: MirrorMode) -> Config {
    let mut c = cfg();
    c.cloud = Some(CloudConfig {
        kind: CloudKind::Nextcloud,
        destination_id: "nc1".into(),
        base_url: "https://nc.example".into(),
        username: "alice".into(),
        remote_root: "GoPro".into(),
        mirror_mode: mode,
        chunk_threshold: 50 * 1024 * 1024,
        tls_ca_pem: None,
        max_concurrency: 2,
        max_attempts: 8,
    });
    c
}

#[test]
fn auto_mirror_enqueues_one_cloud_job_per_file() {
    let mut w = one();
    let mut ledger = mem();
    let mut events = Vec::new();
    let s = run_wired(&mut w, &cloud_cfg(MirrorMode::Auto), &mut ledger, &mut events).unwrap();
    assert_eq!(s.copied, 1);
    assert_eq!(s.queued, 1);
    assert_eq!(ledger.pending_cloud_count(), 1);
    assert!(events.iter().any(|e| matches!(e, RunEvent::CloudQueued { .. })));
}

#[test]
fn delete_after_verify_calls_camera_delete() {
    let mut w = one();
    let mut c = cfg();
    c.delete_after_verify = true;
    let mut events = Vec::new();
    run_wired(&mut w, &c, &mut mem(), &mut events).unwrap();
    assert!(events.iter().any(|e| matches!(e, RunEvent::CardFileDeleted { .. })));
    assert_eq!(w.deleted, vec!["GX010198.MP4".to_string()]);
}

#[test]
fn delete_after_verify_skips_camera_delete_under_auto_mirror() {
    let mut w = one();
    let mut c = cloud_cfg(MirrorMode::Auto);
    c.delete_after_verify = true;
    let mut events = Vec::new();
    let s = run_wired(&mut w, &c, &mut mem(), &mut events).unwrap();
    assert_eq!(s.copied, 1);
    assert_eq!(s.queued, 1, "still enqueued for the cloud mirror");
    assert!(
        !events.iter().any(|e| matches!(e, RunEvent::CardFileDeleted { .. })),
        "no camera delete under Auto+wired"
    );
    assert!(w.deleted.is_empty());
}

#[test]
fn delete_after_verify_deletes_under_manual_mirror() {
    let mut w = one();
    let mut c = cloud_cfg(MirrorMode::Manual);
    c.delete_after_verify = true;
    let mut events = Vec::new();
    run_wired(&mut w, &c, &mut mem(), &mut events).unwrap();
    assert!(events.iter().any(|e| matches!(e, RunEvent::CardFileDeleted { .. })));
}

#[test]
fn emits_live_progress_during_download() {
    let mut w = one();
    let mut events = Vec::new();
    run_wired(&mut w, &cfg(), &mut mem(), &mut events).unwrap();
    let copied_seq: Vec<u64> = events
        .iter()
        .filter_map(|e| match e {
            RunEvent::Progress { copied, .. } => Some(*copied),
            _ => None,
        })
        .collect();
    assert!(
        copied_seq.len() >= 2,
        "expected live + post-completion Progress, got {copied_seq:?}"
    );
    assert!(
        copied_seq.iter().all(|c| *c <= 4096),
        "cumulative within file size: {copied_seq:?}"
    );
    assert!(copied_seq.contains(&4096), "a Progress reaches the file size");
    assert!(
        copied_seq.windows(2).all(|w| w[0] <= w[1]),
        "cumulative copied is monotonic: {copied_seq:?}"
    );
}

#[test]
fn insufficient_space_aborts_before_download() {
    let mut w = one();
    let mut c = cfg();
    c.space_headroom = u64::MAX - 1;
    let mut events = Vec::new();
    let err = run_wired(&mut w, &c, &mut mem(), &mut events);
    assert!(matches!(err, Err(CoreError::InsufficientSpace { .. })));
    assert!(events.iter().any(|e| matches!(e, RunEvent::InsufficientSpace { .. })));
    assert_eq!(w.disk.len(), 0, "nothing downloaded");
}

#[test]
fn a_camera_without_a_name_is_unknown() {
    let info =
        CameraInfo { model: String::new(), serial: String::new(), firmware: String::new() };
    assert_eq!(camera_identity(&info), ("unknown".to_string(), None));
}
