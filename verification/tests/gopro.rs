use gpbeam::gopro::{
    card_identity, classify, extension_of, is_gopro_card, is_gopro_media_folder, model_family,
    sanitize_version_txt, CardVersion, FolderEntry, MediaKind,
};

fn dir(name: &str) -> FolderEntry {
    FolderEntry { name: Some(name.to_string()), is_dir: true }
}

#[test]
fn detects_gopro_card_by_dcim_folder() {
    assert!(is_gopro_card(&vec![dir("100GOPRO")]));
    assert!(is_gopro_card(&vec![dir("MISC"), dir("101GOPRO")]));
}

#[test]
fn rejects_non_gopro_volume() {
    assert!(!is_gopro_card(&vec![dir("100CANON")]));
    assert!(!is_gopro_card(&vec![]));
    let file = FolderEntry { name: Some("100GOPRO".to_string()), is_dir: false };
    assert!(!is_gopro_card(&vec![file]));
    let nameless = FolderEntry { name: None, is_dir: true };
    assert!(!is_gopro_card(&vec![nameless]));
}

#[test]
fn media_folders_have_three_digits() {
    assert!(is_gopro_media_folder("100GOPRO"));
    assert!(is_gopro_media_folder("999GOPRO"));
    for name in ["GOPRO", "10GOPRO", "1000GOPRO", "100gopro", "abcGOPRO", "100GOPRO1", ""] {
        assert!(!is_gopro_media_folder(name), "{name:?}");
    }
}

#[test]
fn files_are_told_apart_by_their_extension() {
    assert_eq!(classify("GX010001.MP4"), MediaKind::Video);
    assert_eq!(classify("gx010001.mp4"), MediaKind::Video);
    assert_eq!(classify("GS010001.360"), MediaKind::Video360);
    assert_eq!(classify("GOPR0001.JPG"), MediaKind::Photo);
    assert_eq!(classify("GL010001.LRV"), MediaKind::Proxy);
    assert_eq!(classify("GX010001.THM"), MediaKind::Thumbnail);
    assert!(classify("GX010001.LRV").is_proxy());
    assert!(classify("GX010001.THM").is_thumbnail());
    assert!(classify("GOPR0001.JPG").is_photo());
    assert_eq!(extension_of("a.b.MP4"), "MP4");
    assert_eq!(extension_of("noext"), "");
}

#[test]
fn the_version_file_is_made_readable() {
    let raw = "{\n\"firmware version\":\"H22.01.01.10.00\",\n\"camera serial number\":\"C1\",\n}\n";
    let text = sanitize_version_txt(raw);
    let v: serde_json::Value = serde_json::from_str(&text).unwrap();
    assert_eq!(v["camera serial number"], "C1");
}

#[test]
fn the_card_tells_its_camera() {
    assert_eq!(model_family("H22.01.01.10.00"), Some("HERO11".to_string()));
    assert_eq!(model_family("H99"), None);
    let version = CardVersion {
        firmware_version: "H22.01.01.10.00".to_string(),
        camera_serial_number: "C346".to_string(),
    };
    let (model, serial) = card_identity(&Some(version));
    assert_eq!(model.as_deref(), Some("HERO11"));
    assert_eq!(serial.as_deref(), Some("C346"));
    assert_eq!(card_identity(&None), (None, None));
}
