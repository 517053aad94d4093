use gpbeam::cloud::is_valid_base_url;
use gpbeam::config::{CloudConfig, CloudKind, Config, Layout, MirrorMode};
use gpbeam::config_io::{
    append_credentials, config_file_text, config_to_view, extract_credentials_table,
    mirror_mode_to_str, parse_mirror_mode, plaintext_app_password, plaintext_credential_ids,
    strip_credential_password, validate_view, view_to_config, CloudView, ConfigView,
};


fn sample_cloud() -> CloudConfig {
    CloudConfig {
        kind: CloudKind::Nextcloud,
        destination_id: "nc1".into(),
        base_url: "https://cloud.example.com".into(),
        username: "alice".into(),
        remote_root: "GoPro".into(),
        mirror_mode: MirrorMode::Auto,
        chunk_threshold: 50 * 1024 * 1024,
        tls_ca_pem: None,
        max_concurrency: 2,
        max_attempts: 8,
    }
}

#[test]
fn config_to_view_without_cloud() {
    let cfg = Config::new("/Users/alice/GPBeam".to_string());
    let view = config_to_view(&cfg, false);
    assert_eq!(view.dest_root, "/Users/alice/GPBeam");
    assert_eq!(view.filename_template, "{date}_{original}");
    assert!(!view.include_proxies);
    assert!(!view.include_thumbnails);
    assert!(view.verify);
    assert_eq!(view.space_headroom, 1024 * 1024 * 1024);
    assert!(!view.delete_after_verify);
    assert!(!view.auto_eject);
    assert!(view.cloud.is_none());
}

#[test]
fn config_to_view_with_cloud_maps_mirror_mode_and_has_password() {
    let mut cfg = Config::new("/Users/alice/GPBeam".to_string());
    cfg.cloud = Some(sample_cloud());
    let view = config_to_view(&cfg, true);
    let cloud = view.cloud.expect("cloud view present");
    assert_eq!(cloud.destination_id, "nc1");
    assert_eq!(cloud.base_url, "https://cloud.example.com");
    assert_eq!(cloud.username, "alice");
    assert_eq!(cloud.remote_root, "GoPro");
    assert_eq!(cloud.mirror_mode, "auto");
    assert_eq!(cloud.chunk_threshold, 50 * 1024 * 1024);
    assert_eq!(cloud.max_concurrency, 2);
    assert_eq!(cloud.max_attempts, 8);
    assert!(cloud.has_password);
}


#[test]
fn config_to_view_carries_wired_ingest_default_true() {
    let cfg = Config::new("/Users/alice/GPBeam".to_string());
    let view = config_to_view(&cfg, false);
    assert!(view.wired_ingest, "Config::new default true -> view true");
}


#[test]
fn view_to_config_maps_wired_ingest_false() {
    let mut v = base_view();
    v.wired_ingest = false;
    let cfg = view_to_config(&v).expect("valid view -> config");
    assert!(!cfg.wired_ingest, "view false -> config false");
}

fn base_view() -> ConfigView {
    ConfigView {
        dest_root: "/Users/alice/GPBeam".into(),
        filename_template: "{date}_{original}".into(),
        include_proxies: false,
        include_thumbnails: false,
        verify: true,
        space_headroom: 1024 * 1024 * 1024,
        delete_after_verify: false,
        auto_eject: false,
        wired_ingest: true,
        cloud: None,
        plaintext_credential_ids: Vec::new(),
    }
}

fn cloud_view() -> CloudView {
    CloudView {
        destination_id: "nc1".into(),
        base_url: "https://cloud.example.com".into(),
        username: "alice".into(),
        remote_root: "GoPro".into(),
        mirror_mode: "auto".into(),
        chunk_threshold: 50 * 1024 * 1024,
        max_concurrency: 2,
        max_attempts: 8,
        has_password: true,
    }
}

#[test]
fn validate_view_accepts_minimal_no_cloud() {
    assert!(validate_view(&base_view()).is_ok());
}

#[test]
fn validate_view_rejects_empty_dest_root() {
    let mut v = base_view();
    v.dest_root = "   ".into();
    let err = validate_view(&v).unwrap_err();
    assert!(err.to_lowercase().contains("destination"), "got: {err}");
}

#[test]
fn validate_view_rejects_empty_filename_template() {
    let mut v = base_view();
    v.filename_template = String::new();
    assert!(validate_view(&v).is_err());
}

#[test]
fn validate_view_rejects_bad_mirror_mode() {
    let mut v = base_view();
    let mut c = cloud_view();
    c.mirror_mode = "sometimes".into();
    v.cloud = Some(c);
    let err = validate_view(&v).unwrap_err();
    assert!(err.to_lowercase().contains("mirror"), "got: {err}");
}

#[test]
fn validate_view_rejects_auto_with_empty_base_url() {
    let mut v = base_view();
    let mut c = cloud_view();
    c.base_url = String::new();
    v.cloud = Some(c);
    let err = validate_view(&v).unwrap_err();
    assert!(err.to_lowercase().contains("base url") || err.to_lowercase().contains("base_url"),
            "got: {err}");
}

#[test]
fn base_url_https_accepts_any_host() {
    assert!(is_valid_base_url("https://cloud.example.com"));
    assert!(is_valid_base_url("https://192.168.1.10:8443/nextcloud"));
}

#[test]
fn base_url_http_allowed_only_for_loopback() {
    assert!(is_valid_base_url("http://localhost:8080"));
    assert!(is_valid_base_url("http://127.0.0.1"));
    assert!(is_valid_base_url("http://[::1]:8080/nextcloud"));
    assert!(!is_valid_base_url("http://cloud.example.com"));
    assert!(!is_valid_base_url("http://192.168.1.10"));
    assert!(!is_valid_base_url("http://192.168.1.10:8080"));
}

#[test]
fn http_loopback_is_case_insensitive() {
    assert!(is_valid_base_url("http://LOCALHOST:8080"));
    assert!(is_valid_base_url("http://LocalHost"));
}

#[test]
fn malformed_ipv6_authority_is_rejected() {
    assert!(!is_valid_base_url("http://[::1]extra:8080"));
    assert!(!is_valid_base_url("http://[::1"));
}

#[test]
fn http_userinfo_cannot_spoof_loopback() {
    assert!(!is_valid_base_url("http://[::1]@evil.com"));
    assert!(!is_valid_base_url("http://127.0.0.1@evil.com"));
    assert!(!is_valid_base_url("http://localhost@evil.com"));
    assert!(is_valid_base_url("http://user@127.0.0.1"));
}

#[test]
fn validate_view_rejects_http_non_loopback() {
    let mut v = base_view();
    let mut c = cloud_view();
    c.base_url = "http://cloud.example.com".into();
    v.cloud = Some(c);
    assert!(validate_view(&v).is_err());
}

#[test]
fn validate_view_accepts_http_loopback() {
    let mut v = base_view();
    let mut c = cloud_view();
    c.base_url = "http://localhost:8080".into();
    v.cloud = Some(c);
    assert!(validate_view(&v).is_ok());
}

#[test]
fn validate_view_rejects_non_http_base_url() {
    let mut v = base_view();
    let mut c = cloud_view();
    c.base_url = "ftp://cloud.example.com".into();
    v.cloud = Some(c);
    assert!(validate_view(&v).is_err());
}

#[test]
fn validate_view_rejects_base_url_without_host() {
    let mut v = base_view();
    let mut c = cloud_view();
    c.base_url = "https://".into();
    v.cloud = Some(c);
    assert!(validate_view(&v).is_err());
}

#[test]
fn validate_view_rejects_empty_destination_id() {
    let mut v = base_view();
    let mut c = cloud_view();
    c.destination_id = "  ".into();
    v.cloud = Some(c);
    assert!(validate_view(&v).is_err());
}

#[test]
fn validate_view_rejects_zero_concurrency_or_attempts() {
    let mut v = base_view();
    let mut c = cloud_view();
    c.max_concurrency = 0;
    v.cloud = Some(c);
    assert!(validate_view(&v).is_err());

    let mut v2 = base_view();
    let mut c2 = cloud_view();
    c2.max_attempts = 0;
    v2.cloud = Some(c2);
    assert!(validate_view(&v2).is_err());
}

#[test]
fn view_to_config_round_trips_via_config_to_view() {
    let mut v = base_view();
    v.cloud = Some(cloud_view());
    let cfg = view_to_config(&v).expect("valid view -> config");
    assert_eq!(cfg.dest_root, "/Users/alice/GPBeam".to_string());
    assert_eq!(cfg.layout, Layout::Flat);
    let cloud = cfg.cloud.as_ref().expect("cloud present");
    assert_eq!(cloud.kind, CloudKind::Nextcloud);
    assert_eq!(cloud.mirror_mode, MirrorMode::Auto);
    let back = config_to_view(&cfg, true);
    let mut expected = v.clone();
    if let Some(c) = expected.cloud.as_mut() {
        c.has_password = true;
    }
    assert_eq!(back, expected);
}

#[test]
fn view_to_config_maps_off_and_manual_modes() {
    let mut v = base_view();
    let mut c = cloud_view();
    c.mirror_mode = "off".into();
    v.cloud = Some(c);
    assert_eq!(view_to_config(&v).unwrap().cloud.unwrap().mirror_mode, MirrorMode::Off);

    let mut v2 = base_view();
    let mut c2 = cloud_view();
    c2.mirror_mode = "manual".into();
    v2.cloud = Some(c2);
    assert_eq!(view_to_config(&v2).unwrap().cloud.unwrap().mirror_mode, MirrorMode::Manual);
}

#[test]
fn view_to_config_rejects_invalid_view() {
    let mut v = base_view();
    v.dest_root = String::new();
    assert!(view_to_config(&v).is_err());
}

#[test]
fn write_config_atomic_preserves_existing_credentials_table() {
    let seed = r#"
            dest_root = "/old/dest"
            filename_template = "{date}_{original}"
            include_proxies = false
            include_thumbnails = false
            layout = "Flat"
            verify = true
            space_headroom = 1073741824

            [credentials.nc1]
            username = "alice"
            app_password = "s3cret-app-pw"
        "#;
    let body = "dest_root = \"/new/dest\"\n";
    let raw = config_file_text(body, Some(seed));
    let doc: toml::Value = toml::from_str(&raw).unwrap();
    assert_eq!(doc.get("dest_root").and_then(|v| v.as_str()), Some("/new/dest"));
    let creds = doc
        .get("credentials")
        .and_then(|c| c.get("nc1"))
        .expect("[credentials.nc1] preserved");
    assert_eq!(creds.get("username").and_then(|v| v.as_str()), Some("alice"));
    assert_eq!(
        creds.get("app_password").and_then(|v| v.as_str()),
        Some("s3cret-app-pw")
    );
}

#[test]
fn write_config_atomic_no_credentials_when_none_existed() {
    let raw = config_file_text("dest_root = \"/d\"\n", None);
    let doc: toml::Value = toml::from_str(&raw).unwrap();
    assert!(doc.get("credentials").is_none(), "no credentials table fabricated");
    let unreadable = config_file_text("dest_root = \"/d\"\n", Some("not = = toml"));
    assert_eq!(unreadable, "dest_root = \"/d\"\n");
}

#[test]
fn plaintext_credential_ids_lists_entries_with_app_password() {
    let raw = "dest_root = \"/d\"\n\
         [credentials.nc1]\nusername=\"a\"\napp_password=\"pw\"\n\
         [credentials.nc2]\nusername=\"b\"\napp_password=\"\"\n";
    let ids = plaintext_credential_ids(raw);
    assert_eq!(ids, vec!["nc1".to_string()]);
}

#[test]
fn plaintext_credential_ids_come_sorted() {
    let raw = "[credentials.zz]\nusername=\"a\"\napp_password=\"1\"\n\
         [credentials.aa]\nusername=\"b\"\napp_password=\"2\"\n\
         [credentials.mm]\nusername=\"b\"\napp_password=3\n";
    assert_eq!(plaintext_credential_ids(raw), vec!["aa".to_string(), "zz".to_string()]);
}

#[test]
fn plaintext_credential_ids_empty_when_absent_or_unreadable() {
    assert!(plaintext_credential_ids("dest_root = \"/d\"\n").is_empty());
    assert!(plaintext_credential_ids("dest_root = = ").is_empty());
}

#[test]
fn a_document_that_is_no_table_holds_no_password() {
    let raw = "\"$__toml_private_datetime\" = \"1979-05-27\"\n\
               [credentials.nc1]\napp_password = \"pw1\"\n";
    assert!(plaintext_credential_ids(raw).is_empty());
    assert_eq!(plaintext_app_password(raw, "nc1"), None);
    let kept = strip_credential_password("gpbeam.toml", raw, "nc1").unwrap();
    assert_eq!(kept, "\"$__toml_private_datetime\" = \"1979-05-27\"\n");
}

#[test]
fn strip_credential_password_keeps_username_drops_password() {
    let raw = strip_credential_password(
        "gpbeam.toml",
        "dest_root = \"/d\"\n[credentials.nc1]\nusername=\"alice\"\napp_password=\"pw1\"\n",
        "nc1",
    )
    .unwrap();
    assert!(plaintext_credential_ids(&raw).is_empty());
    assert!(raw.contains("alice"), "username preserved for resolution");
    assert!(!raw.contains("pw1"), "plaintext password removed");
    assert!(raw.contains("dest_root"), "other config survives");
}

#[test]
fn strip_credential_password_leaves_other_entries_and_keeps_0600() {
    let raw = strip_credential_password(
        "gpbeam.toml",
        "dest_root = \"/d\"\n\
             [credentials.nc1]\nusername=\"a\"\napp_password=\"pw1\"\n\
             [credentials.nc2]\nusername=\"b\"\napp_password=\"pw2\"\n",
        "nc1",
    )
    .unwrap();
    assert_eq!(plaintext_credential_ids(&raw), vec!["nc2".to_string()]);
}

#[test]
fn strip_credential_password_drops_empty_entry_and_table() {
    let raw = strip_credential_password(
        "gpbeam.toml",
        "dest_root = \"/d\"\n[credentials.nc1]\napp_password=\"pw\"\n",
        "nc1",
    )
    .unwrap();
    assert!(!raw.contains("credentials"), "empty entry and table dropped");
}

#[test]
fn strip_credential_password_names_the_file_that_cannot_be_read() {
    let err = strip_credential_password("/c/gpbeam.toml", "a = = b", "nc1").unwrap_err();
    assert!(err.starts_with("parse /c/gpbeam.toml: "), "got: {err}");
}

#[test]
fn plaintext_app_password_reads_the_entry() {
    let raw =
        "dest_root = \"/d\"\n[credentials.nc1]\nusername=\"a\"\napp_password=\"sekret\"\n";
    assert_eq!(plaintext_app_password(raw, "nc1").as_deref(), Some("sekret"));
    assert_eq!(plaintext_app_password(raw, "nope"), None);
}

#[test]
fn credentials_are_taken_out_and_put_behind_a_body() {
    let creds = extract_credentials_table(
        "a = 1\n[credentials.nc1]\nusername=\"u\"\n[other]\nb = 2\n",
    )
    .unwrap();
    assert!(creds.contains("[credentials.nc1]"));
    assert!(!creds.contains("other"));
    assert_eq!(extract_credentials_table("a = 1\n"), None);
    assert_eq!(append_credentials("a = 1", Some("c")), "a = 1\n\nc");
    assert_eq!(append_credentials("a = 1\n", Some("c")), "a = 1\n\nc");
    assert_eq!(append_credentials("a = 1", None), "a = 1");
}

#[test]
fn mode_names_and_modes_agree() {
    for m in [MirrorMode::Off, MirrorMode::Manual, MirrorMode::Auto] {
        assert_eq!(parse_mirror_mode(mirror_mode_to_str(m)), Ok(m));
    }
    assert!(parse_mirror_mode("AUTO").is_err());
}

#[test]
fn every_fault_of_a_destination_has_its_message() {
    let fault = |f: fn(&mut CloudView)| {
        let mut v = base_view();
        let mut c = cloud_view();
        f(&mut c);
        v.cloud = Some(c);
        validate_view(&v).unwrap_err()
    };
    assert_eq!(
        fault(|c| c.destination_id = " ".into()),
        "cloud destination id must not be empty"
    );
    assert_eq!(fault(|c| c.base_url = " ".into()), "cloud base url must not be empty");
    assert!(fault(|c| c.base_url = "ftp://x".into()).contains("\"ftp://x\""));
    assert_eq!(fault(|c| c.remote_root = "".into()), "cloud remote root must not be empty");
    assert_eq!(fault(|c| c.username = "".into()), "cloud username must not be empty");
    assert_eq!(fault(|c| c.max_concurrency = 0), "cloud max concurrency must be at least 1");
    assert_eq!(fault(|c| c.max_attempts = 0), "cloud max attempts must be at least 1");
}

#[test]
fn texts_from_the_window_are_trimmed() {
    let mut v = base_view();
    v.dest_root = "  /d  ".into();
    let mut c = cloud_view();
    c.username = " alice ".into();
    v.cloud = Some(c);
    let cfg = view_to_config(&v).unwrap();
    assert_eq!(cfg.dest_root, "/d");
    assert_eq!(cfg.cloud.unwrap().username, "alice");
}
