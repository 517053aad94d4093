use gpbeam::config::{CloudConfig, CloudKind, Config, MirrorMode};
use gpbeam::copy::{copy_verified, verify_dest_hash, CopyStream};
use gpbeam::error::CoreError;
use gpbeam::hashing::Blake3Stream;
use gpbeam::ledger::{JobState, Ledger};
use gpbeam::transfer::{commit_imported, stream_hash_to_part, PartMode, PartStream};

fn blake3_hex(bytes: &[u8]) -> String {
    let mut h = blake3::Hasher::new();
    h.update(bytes);
    h.finalize().to_hex().to_string()
}

#[test]
fn fresh_write_streams_hashes_and_reports_progress() {
    let payload = b"hello gopro wired footage".to_vec();
    let (reports, total, hash) = stream_hash_to_part(b"", &vec![payload.clone()]);
    assert_eq!(total, payload.len() as u64);
    assert_eq!(
        reports.last(),
        Some(&(payload.len() as u64)),
        "progress reaches the on-disk total"
    );
    assert_eq!(hash, blake3_hex(&payload));
}

#[test]
fn empty_reader_produces_empty_hash_and_zero_total() {
    let (_, total, hash) = stream_hash_to_part(b"", &vec![]);
    assert_eq!(total, 0);
    assert_eq!(hash, blake3_hex(b""));
}

#[test]
fn resume_appends_and_hashes_whole_on_disk_file() {
    let first = b"FIRST-HALF-".to_vec();
    let rest = b"SECOND-HALF".to_vec();
    let (reports, total, hash) = stream_hash_to_part(&first, &vec![rest.clone()]);
    let whole: Vec<u8> = first.iter().chain(rest.iter()).copied().collect();
    assert_eq!(total, whole.len() as u64, "total covers pre-existing + appended bytes");
    assert_eq!(
        reports.last(),
        Some(&(whole.len() as u64)),
        "progress is cumulative over the whole file"
    );
    assert_eq!(hash, blake3_hex(&whole), "hash is over the WHOLE on-disk file");
}

#[test]
fn resume_with_already_zero_truncates_for_fresh_start() {
    let (mut stream, mode) = PartStream::begin(0);
    assert_eq!(mode, PartMode::Truncate);
    assert_eq!(PartStream::begin(28).1, PartMode::Append);
    let payload = b"clean".to_vec();
    assert_eq!(stream.take(&payload), payload.len() as u64);
    assert_eq!(stream.len(), payload.len() as u64);
    assert_eq!(stream.finish(), (payload.len() as u64, blake3_hex(&payload)));
}

#[test]
fn pieces_do_not_matter_to_the_hash() {
    let whole = stream_hash_to_part(b"", &vec![b"abcdef".to_vec()]);
    let parts = stream_hash_to_part(b"ab", &vec![b"c".to_vec(), vec![], b"def".to_vec()]);
    assert_eq!(whole.1, parts.1);
    assert_eq!(whole.2, parts.2);
    let mut h = Blake3Stream::new();
    h.update(b"abc");
    h.update(b"def");
    assert_eq!(h.hex(), whole.2);
    assert_eq!(h.len(), 6);
}

fn cfg_no_cloud() -> Config {
    Config::new("/dest".to_string())
}

fn cfg_with_cloud(mode: MirrorMode) -> Config {
    let mut cfg = Config::new("/dest".to_string());
    cfg.cloud = Some(CloudConfig {
        kind: CloudKind::Nextcloud,
        destination_id: "nc1".into(),
        base_url: "https://nc.example".into(),
        username: "alice".into(),
        remote_root: "GoPro".into(),
        mirror_mode: mode,
        chunk_threshold: 50 * 1024 * 1024,
        tls_ca_pem: None,
        max_concurrency: 2,
        max_attempts: 8,
    });
    cfg
}

fn mem() -> Ledger {
    Ledger::new("t".to_string())
}

#[test]
fn commit_records_but_enqueues_nothing_when_no_cloud() {
    let mut ledger = mem();
    let id = commit_imported(
        &mut ledger,
        &cfg_no_cloud(),
        "C346",
        "GX010001.MP4",
        4096,
        1000,
        "/dest/2026_GX010001.MP4",
        "2026_GX010001.MP4",
        Some("deadbeef"),
        None,
    );
    assert!(id > 0);
    assert!(ledger.is_imported("C346", "GX010001.MP4", 4096, 1000));
    assert_eq!(ledger.pending_cloud_count(), 0, "no cloud => no jobs");
}

#[test]
fn commit_off_mirror_enqueues_nothing() {
    let mut ledger = mem();
    commit_imported(
        &mut ledger,
        &cfg_with_cloud(MirrorMode::Off),
        "C346",
        "GX010001.MP4",
        4096,
        1000,
        "/dest/2026_GX010001.MP4",
        "2026_GX010001.MP4",
        None,
        None,
    );
    assert_eq!(ledger.pending_cloud_count(), 0, "Off mirror enqueues nothing");
}

#[test]
fn commit_auto_mirror_enqueues_one_job_with_remote_path_and_card_src() {
    let mut ledger = mem();
    let id = commit_imported(
        &mut ledger,
        &cfg_with_cloud(MirrorMode::Auto),
        "C346",
        "GX010001.MP4",
        4096,
        1000,
        "/dest/2026_GX010001.MP4",
        "2026_GX010001.MP4",
        Some("cafef00d"),
        Some("/Volumes/GOPRO/DCIM/100GOPRO/GX010001.MP4"),
    );
    assert_eq!(ledger.pending_cloud_count(), 1);
    let jobs = ledger.list_cloud_jobs(Some(JobState::Queued));
    assert_eq!(jobs.len(), 1);
    let j = &jobs[0];
    assert_eq!(j.imported_id, id);
    assert_eq!(j.destination_id, "nc1");
    assert_eq!(j.local_path, "/dest/2026_GX010001.MP4");
    assert_eq!(j.remote_path, "GoPro/2026_GX010001.MP4", "remote_root + '/' + dest_name");
    assert_eq!(j.total_bytes, 4096);
    assert_eq!(
        j.card_src.as_deref(),
        Some("/Volumes/GOPRO/DCIM/100GOPRO/GX010001.MP4")
    );
}

#[test]
fn commit_manual_mirror_also_enqueues() {
    let mut ledger = mem();
    commit_imported(
        &mut ledger,
        &cfg_with_cloud(MirrorMode::Manual),
        "C346",
        "clip.MP4",
        10,
        1,
        "/dest/clip.MP4",
        "clip.MP4",
        None,
        None,
    );
    assert_eq!(ledger.pending_cloud_count(), 1, "Manual mirror queues a job");
}

#[test]
fn commit_wired_passes_no_card_src() {
    let mut ledger = mem();
    commit_imported(
        &mut ledger,
        &cfg_with_cloud(MirrorMode::Auto),
        "C346",
        "wired.MP4",
        7,
        2,
        "/dest/wired.MP4",
        "wired.MP4",
        Some("abc123"),
        None,
    );
    let jobs = ledger.list_cloud_jobs(None);
    assert_eq!(jobs.len(), 1);
    assert_eq!(jobs[0].card_src, None, "wired enqueues with no card_src");
}

fn stream(bytes: &[u8], verify: bool) -> CopyStream {
    let mut s = CopyStream::begin(verify);
    s.take(bytes);
    s
}

#[test]
fn verify_dest_hash_passes_on_match_and_keeps_file() {
    let expected = blake3_hex(b"gopro bytes on disk");
    assert_eq!(verify_dest_hash("/d/a.MP4", &expected, &expected, true), Ok(()));
}

#[test]
fn verify_dest_hash_removes_file_and_errors_on_mismatch() {
    let wrong = blake3_hex(b"what we expected");
    let got = blake3_hex(b"what actually landed");
    assert_eq!(
        verify_dest_hash("/d/a.MP4", &wrong, &got, true),
        Err(CoreError::VerifyFailed("/d/a.MP4".to_string()))
    );
}

#[test]
fn verify_dest_hash_is_a_noop_when_verify_disabled() {
    assert_eq!(verify_dest_hash("/d/a.MP4", "deadbeef", "cafe", false), Ok(()));
}

#[test]
fn copies_bytes_and_verifies() {
    let mut s = CopyStream::begin(true);
    assert_eq!(s.take(b"hello gopro"), 11);
    assert_eq!(s.take(b" footage"), 19);
    let out =
        copy_verified(&s, "/d/out.MP4".to_string(), &stream(b"hello gopro footage", true)).unwrap();
    assert_eq!(out.bytes, 19);
    assert_eq!(out.dest, "/d/out.MP4");
    assert_eq!(out.hash, Some(blake3_hex(b"hello gopro footage")));
}

#[test]
fn a_copy_that_reads_back_otherwise_fails() {
    let err = copy_verified(
        &stream(b"hello", true),
        "/d/out.MP4".to_string(),
        &stream(b"hellO", true),
    )
    .unwrap_err();
    assert!(matches!(err, CoreError::VerifyFailed(_)));
}

#[test]
fn verify_disabled_skips_hash() {
    let out = copy_verified(
        &stream(b"data", false),
        "/d/a.MP4".to_string(),
        &stream(b"other", false),
    )
    .unwrap();
    assert!(out.hash.is_none());
}

#[test]
fn zero_byte_file_copies_and_verifies() {
    let out = copy_verified(
        &CopyStream::begin(true),
        "/d/empty.MP4".to_string(),
        &CopyStream::begin(true),
    )
    .unwrap();
    assert_eq!(out.bytes, 0);
    assert!(out.hash.is_some(), "zero-byte file should still produce a hash");
}
