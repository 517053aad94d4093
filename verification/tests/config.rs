use gpbeam::config::{config_path, CloudConfig, CloudKind, Config, Layout, MirrorMode};

#[test]
fn defaults_match_spec() {
    let c = Config::new("/tmp/dest".to_string());
    assert_eq!(c.filename_template, "{date}_{original}");
    assert!(!c.include_proxies);
    assert!(!c.include_thumbnails);
    assert_eq!(c.layout, Layout::Flat);
    assert!(c.verify);
    assert_eq!(c.space_headroom, 1024 * 1024 * 1024);
}

#[test]
fn new_sets_cloud_and_safety_defaults() {
    let c = Config::new("/tmp/dest".to_string());
    assert!(c.cloud.is_none());
    assert!(!c.delete_after_verify);
    assert!(!c.auto_eject);
}

#[test]
fn new_sets_wired_ingest_true_by_default() {
    let c = Config::new("/tmp/dest".to_string());
    assert!(c.wired_ingest, "wired_ingest defaults to true in Config::new");
}

#[test]
fn config_path_prefers_env_override() {
    let env = Some("/etc/gpbeam/custom.toml".to_string());
    let got = config_path(env, "/Users/me/GPBeam");
    assert_eq!(got, "/etc/gpbeam/custom.toml");
}

#[test]
fn config_path_empty_env_falls_back_to_dest_default() {
    let got = config_path(Some(String::new()), "/Users/me/GPBeam");
    assert_eq!(got, "/Users/me/GPBeam/gpbeam.toml");
}

#[test]
fn config_path_no_env_falls_back_to_dest_default() {
    let got = config_path(None, "/Users/me/GPBeam");
    assert_eq!(got, "/Users/me/GPBeam/gpbeam.toml");
}

#[test]
fn the_mirror_mode_is_off_without_a_destination() {
    let mut c = Config::new("/d".to_string());
    assert_eq!(c.mirror(), MirrorMode::Off);
    c.cloud = Some(CloudConfig {
        kind: CloudKind::Nextcloud,
        destination_id: "nc1".into(),
        base_url: "https://cloud.example.com".into(),
        username: "alice".into(),
        remote_root: "GoPro".into(),
        mirror_mode: MirrorMode::Manual,
        chunk_threshold: 50 * 1024 * 1024,
        tls_ca_pem: None,
        max_concurrency: 2,
        max_attempts: 8,
    });
    assert_eq!(c.mirror(), MirrorMode::Manual);
}
