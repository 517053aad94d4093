use gpbeam::capture::Captured;
use gpbeam::config::Config;
use gpbeam::gopro::{classify, FolderEntry, MediaKind};
use gpbeam::ledger::Ledger;
use gpbeam::scanner::{
    byte_order, is_wanted, media_files, media_folders, plan_copies, scan_card, scan_with_skips, CardFile,
    FileEntry, PlannedCopy,
};

type Folder = (&'static str, Vec<(&'static str, u64)>);

fn hero11_card() -> Vec<Folder> {
    vec![(
        "100GOPRO",
        vec![
            ("GX010001.MP4", 4096),
            ("GX020001.MP4", 2048),
            ("GOPR0002.JPG", 1024),
            ("GS010003.360", 8192),
            ("GX010001.LRV", 512),
            ("GX010001.THM", 128),
        ],
    )]
}

fn entry(name: &str, is_file: bool) -> FileEntry {
    FileEntry { name: name.to_string(), order: byte_order(name.as_bytes()), is_file }
}

/// The files of a card that a scan with this configuration comes upon.
fn files_of(card: &[Folder], cfg: &Config) -> Vec<CardFile> {
    let folders: Vec<FolderEntry> = card
        .iter()
        .map(|f| FolderEntry { name: Some(f.0.to_string()), is_dir: true })
        .collect();
    let mut out = Vec::new();
    for f in media_folders(&folders) {
        let (folder, files) = &card[f];
        let entries: Vec<FileEntry> = files
            .iter()
            .map(|e| entry(e.0, true))
            .collect();
        for i in media_files(&entries, cfg) {
            out.push(CardFile {
                src: format!("/card/DCIM/{folder}/{}", files[i].0),
                name: files[i].0.to_string(),
                size: files[i].1,
                mtime_unix: 1_700_000_000,
                exif: None,
            });
        }
    }
    out
}

fn cfg() -> Config {
    Config::new("/dest".to_string())
}

fn ledger() -> Ledger {
    Ledger::new("t".to_string())
}

fn scan(card: &[Folder], cfg: &Config, ledger: &Ledger) -> Vec<PlannedCopy> {
    scan_card(&files_of(card, cfg), cfg, ledger, Some("C346"), Some("HERO11"), &vec![])
}

#[test]
fn skips_proxies_and_thumbnails_by_default() {
    let plan = scan(&hero11_card(), &cfg(), &ledger());
    let names: Vec<&str> = plan.iter().map(|p| p.name.as_str()).collect();
    assert!(names.contains(&"GX010001.MP4"));
    assert!(names.contains(&"GS010003.360"));
    assert!(names.contains(&"GOPR0002.JPG"));
    assert!(!names.iter().any(|n| n.ends_with(".LRV")));
    assert!(!names.iter().any(|n| n.ends_with(".THM")));
}

#[test]
fn files_are_planned_in_the_order_of_their_names() {
    let plan = scan(&hero11_card(), &cfg(), &ledger());
    let names: Vec<&str> = plan.iter().map(|p| p.name.as_str()).collect();
    assert_eq!(names, vec!["GOPR0002.JPG", "GS010003.360", "GX010001.MP4", "GX020001.MP4"]);
    let positions: Vec<usize> = plan.iter().map(|p| p.position).collect();
    assert_eq!(positions, vec![0, 1, 2, 3]);
}

#[test]
fn includes_proxies_when_enabled() {
    let mut c = cfg();
    c.include_proxies = true;
    let plan = scan(&hero11_card(), &c, &ledger());
    assert!(plan.iter().any(|p| p.name.ends_with(".LRV")));
}

#[test]
fn dest_name_uses_template() {
    let plan = scan(&hero11_card(), &cfg(), &ledger());
    let mp4 = plan.iter().find(|p| p.name == "GX010001.MP4").unwrap();
    assert!(mp4.dest_name.ends_with("_GX010001.MP4"));
    assert_eq!(mp4.dest_path, format!("/dest/{}", mp4.dest_name));
    assert_eq!(mp4.canonical_dest_path, mp4.dest_path);
}

#[test]
fn includes_thumbnails_when_enabled() {
    let mut c = cfg();
    c.include_thumbnails = true;
    let plan = scan(&hero11_card(), &c, &ledger());
    assert!(plan.iter().any(|p| p.name.ends_with(".THM")));
    assert!(is_wanted(MediaKind::Thumbnail, &c));
    assert!(!is_wanted(MediaKind::Proxy, &c));
}

#[test]
fn unknown_kind_file_is_still_planned() {
    let plan = scan(&[("100GOPRO", vec![("GX010001.XYZ", 8)])], &cfg(), &ledger());
    assert!(
        plan.iter().any(|p| p.name == "GX010001.XYZ"),
        "unknown media must still be copied"
    );
}

#[test]
fn ignores_non_gopro_dcim_subfolders() {
    let card = [
        ("Camera", vec![("IMG_0001.JPG", 16)]),
        ("100GOPRO", vec![("GX010001.MP4", 16)]),
    ];
    let plan = scan(&card, &cfg(), &ledger());
    let names: Vec<&str> = plan.iter().map(|p| p.name.as_str()).collect();
    assert!(names.contains(&"GX010001.MP4"));
    assert!(
        !names.contains(&"IMG_0001.JPG"),
        "non-GoPro DCIM folders must be ignored"
    );
}

#[test]
fn already_imported_files_are_excluded() {
    let mut l = ledger();
    l.record("C346", "GX010001.MP4", 4096, 1_700_000_000, "/old", None);
    let plan = scan(&hero11_card(), &cfg(), &l);
    assert!(!plan.iter().any(|p| p.name == "GX010001.MP4"));
    assert!(plan.iter().any(|p| p.name == "GS010003.360"));
}

#[test]
fn reports_skipped_count() {
    let mut l = ledger();
    l.record("C346", "GX010001.MP4", 4096, 1_700_000_000, "/old", None);
    let c = cfg();
    let files = files_of(&hero11_card(), &c);
    let (plan, skipped) =
        scan_with_skips(&files, &c, &l, Some("C346"), Some("HERO11"), &vec![]);
    assert_eq!(skipped, 1);
    assert_eq!(plan.len() + skipped, files.len());
    assert!(!plan.iter().any(|p| p.name == "GX010001.MP4"));
}

#[test]
fn a_name_with_replaced_characters_is_planned() {
    let c = cfg();
    let entry = entry("GX01\u{FFFD}0001.MP4", true);
    assert_eq!(media_files(&vec![entry], &c), vec![0]);
    assert_eq!(classify("GX01\u{FFFD}0001.MP4"), MediaKind::Video);
}

#[test]
fn directories_are_no_media_files() {
    let entry = entry("GX010001.MP4", false);
    assert!(media_files(&vec![entry], &cfg()).is_empty());
}

#[test]
fn dest_name_uses_model_token() {
    let mut c = cfg();
    c.filename_template = "{model}_{original}".into();
    let plan = scan(&hero11_card(), &c, &ledger());
    assert!(plan.iter().any(|p| p.dest_name == "HERO11_GX010001.MP4"));
}

#[test]
fn no_two_files_share_a_destination() {
    let mut c = cfg();
    c.filename_template = "same.MP4".into();
    let files = files_of(&hero11_card(), &c);
    let caps: Vec<Captured> = files
        .iter()
        .map(|_| Captured { date: "2026-06-01".into(), time: "143055".into() })
        .collect();
    let existing = vec!["/dest/same.MP4".to_string()];
    let (plan, skipped) = plan_copies(&files, &caps, &c, &ledger(), None, None, &existing);
    assert_eq!(skipped, 0);
    let dests: Vec<&str> = plan.iter().map(|p| p.dest_path.as_str()).collect();
    assert_eq!(
        dests,
        vec!["/dest/same_1.MP4", "/dest/same_2.MP4", "/dest/same_3.MP4", "/dest/same_4.MP4"]
    );
    assert!(plan.iter().all(|p| p.canonical_dest_path == "/dest/same.MP4"));
    assert_eq!(plan[0].dest_name, "same_1.MP4");
}

#[test]
fn names_that_are_no_text_sort_by_their_bytes() {
    let raw = |bytes: &[u8]| FileEntry {
        name: String::from_utf8_lossy(bytes).into_owned(),
        order: byte_order(bytes),
        is_file: true,
    };
    let cfg = cfg();
    let entries = vec![raw(b"GX01\xff.MP4"), raw(b"GX01\xf0.MP4"), raw("GX01\u{e9}.MP4".as_bytes())];
    assert_eq!(entries[0].name, entries[1].name);
    assert_eq!(media_files(&entries, &cfg), vec![2, 1, 0]);
}
