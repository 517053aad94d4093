use gpbeam::cloud_runtime::{
    now_unix, should_drain, should_start_drain, should_surface_build_error, to_signed_seconds,
    CloudRuntime,
};
use gpbeam::config::{CloudConfig, CloudKind, Config, MirrorMode};


fn cloud_with(mode: MirrorMode) -> CloudConfig {
    CloudConfig {
        kind: CloudKind::Nextcloud,
        destination_id: "nc1".into(),
        base_url: "https://example.com".into(),
        username: "alice".into(),
        remote_root: "/GPBeam".into(),
        mirror_mode: mode,
        chunk_threshold: 10_000_000,
        tls_ca_pem: None,
        max_concurrency: 2,
        max_attempts: 3,
    }
}

#[test]
fn no_config_never_drains() {
    let rt = CloudRuntime::default();
    assert!(!should_drain(false, &rt));
    assert!(!should_drain(true, &rt));
}

#[test]
fn off_mode_never_drains() {
    let rt = CloudRuntime {
        config: Some(cloud_with(MirrorMode::Off)),
        delete_after_verify: false,
    };
    assert!(!should_drain(false, &rt));
}

#[test]
fn auto_mode_drains_when_unpaused() {
    let rt = CloudRuntime {
        config: Some(cloud_with(MirrorMode::Auto)),
        delete_after_verify: true,
    };
    assert!(should_drain(false, &rt));
}

#[test]
fn manual_mode_drains_when_unpaused() {
    let rt = CloudRuntime {
        config: Some(cloud_with(MirrorMode::Manual)),
        delete_after_verify: false,
    };
    assert!(should_drain(false, &rt));
}

#[test]
fn paused_blocks_drain_even_when_configured() {
    let rt = CloudRuntime {
        config: Some(cloud_with(MirrorMode::Auto)),
        delete_after_verify: false,
    };
    assert!(!should_drain(true, &rt));
}

#[test]
fn now_unix_is_after_2020() {
    assert!(now_unix() > 1_577_836_800);
}

#[test]
fn from_config_carries_cloud_and_delete_flag() {
    let mut cfg = Config::new("/tmp/x".to_string());
    cfg.cloud = Some(cloud_with(MirrorMode::Auto));
    cfg.delete_after_verify = true;
    let rt = CloudRuntime::from_config(&cfg);
    assert!(rt.config.is_some());
    assert!(rt.delete_after_verify);
}

#[test]
fn an_empty_queue_sets_no_uploader_up() {
    let rt = CloudRuntime {
        config: Some(cloud_with(MirrorMode::Auto)),
        delete_after_verify: false,
    };
    assert!(!should_start_drain(false, &rt, Some(0)));
    assert!(should_start_drain(false, &rt, Some(1)));
    assert!(should_start_drain(false, &rt, None), "an unknown count may hide work");
    assert!(!should_start_drain(true, &rt, Some(1)));
    assert!(!should_start_drain(false, &CloudRuntime::default(), Some(1)));
}

#[test]
fn a_build_error_is_shown_once_for_as_long_as_it_stays() {
    let mut last = None;
    assert!(should_surface_build_error(&mut last, "no password"));
    assert!(!should_surface_build_error(&mut last, "no password"));
    assert!(should_surface_build_error(&mut last, "bad url"));
    assert!(should_surface_build_error(&mut last, "no password"));
    last = None;
    assert!(should_surface_build_error(&mut last, "no password"));
}

#[test]
fn clocks_are_read_as_signed_seconds() {
    assert_eq!(to_signed_seconds(None), 0);
    assert_eq!(to_signed_seconds(Some(1_700_000_000)), 1_700_000_000);
    assert_eq!(to_signed_seconds(Some(i64::MAX as u64)), i64::MAX);
    assert_eq!(to_signed_seconds(Some(u64::MAX)), -1);
}
