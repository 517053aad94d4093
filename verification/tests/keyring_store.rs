use gpbeam::cloud::build_uploader;
use gpbeam::config::{CloudConfig, CloudKind, MirrorMode};
use gpbeam::config_io::{plaintext_credential_ids, strip_credential_password};
use gpbeam::credentials::{CredentialStore, EnvConfigStore, Secret};
use gpbeam::error::CoreError;
use gpbeam::keyring_store::{
    finish_move, has_one, migrate_plaintext_credentials, resolve, KeyringBackend,
    KeyringCredentialStore, MemoryKeyring,
};

fn cloud_cfg() -> CloudConfig {
    CloudConfig {
        kind: CloudKind::Nextcloud,
        destination_id: "home-nc".into(),
        base_url: "https://nc.example.com".into(),
        username: "alice".into(),
        remote_root: "GoPro".into(),
        mirror_mode: MirrorMode::Auto,
        chunk_threshold: 50 * 1024 * 1024,
        tls_ca_pem: None,
        max_concurrency: 2,
        max_attempts: 8,
    }
}

fn fallback_with_nc1() -> EnvConfigStore {
    let toml = r#"
[credentials.nc1]
username = "file-user"
app_password = "file-pw"
"#;
    EnvConfigStore::from_toml_str(toml, None, None).unwrap()
}

#[test]
fn memory_keyring_set_get_delete_roundtrip() {
    let mut kr = MemoryKeyring::new();
    assert_eq!(kr.get("svc", "acct").unwrap(), None);
    kr.set("svc", "acct", "secret-1").unwrap();
    assert_eq!(kr.get("svc", "acct").unwrap(), Some("secret-1".to_string()));
    kr.set("svc", "acct", "secret-2").unwrap();
    assert_eq!(kr.get("svc", "acct").unwrap(), Some("secret-2".to_string()));
    kr.set("svc", "other", "secret-x").unwrap();
    assert_eq!(kr.get("svc", "acct").unwrap(), Some("secret-2".to_string()));
    kr.delete("svc", "acct").unwrap();
    assert_eq!(kr.get("svc", "acct").unwrap(), None);
    kr.delete("svc", "acct").unwrap();
}



#[test]
fn get_returns_none_when_no_source_has_a_password() {
    let mut backend = MemoryKeyring::new();
    let store = KeyringCredentialStore::new("com.gpbeam.test", backend, None, None, None);
    assert!(store.get("nc1").unwrap().is_none());
}

#[test]
fn keychain_password_is_returned_with_empty_username() {
    let mut backend = MemoryKeyring::new();
    backend
        .set("com.gpbeam.test", "nc1", "keychain-pw")
        .unwrap();
    let store = KeyringCredentialStore::new(
        "com.gpbeam.test",
        backend,
        None,
        None,
        None,
    );
    let secret = store
        .get("nc1")
        .unwrap()
        .expect("keychain password present");
    assert_eq!(secret.username, "");
    assert_eq!(secret.app_password, "keychain-pw");
}

#[test]
fn env_password_wins_over_keychain_and_fallback() {
    let mut backend = MemoryKeyring::new();
    backend
        .set("com.gpbeam.test", "nc1", "keychain-pw")
        .unwrap();
    let store = KeyringCredentialStore::new(
        "com.gpbeam.test",
        backend,
        Some("env-user".to_string()),
        Some("env-pw".to_string()),
        Some(fallback_with_nc1()),
    );
    let secret = store.get("nc1").unwrap().expect("env produces a secret");
    assert_eq!(secret.username, "env-user");
    assert_eq!(secret.app_password, "env-pw");
}

#[test]
fn env_username_fills_username_when_keychain_supplies_password() {
    let mut backend = MemoryKeyring::new();
    backend
        .set("com.gpbeam.test", "nc1", "keychain-pw")
        .unwrap();
    let store = KeyringCredentialStore::new(
        "com.gpbeam.test",
        backend,
        Some("env-user".to_string()),
        None,
        None,
    );
    let secret = store.get("nc1").unwrap().expect("present");
    assert_eq!(secret.username, "env-user");
    assert_eq!(secret.app_password, "keychain-pw");
}

#[test]
fn fallback_used_when_keychain_empty_filling_username_and_password() {
    let backend = MemoryKeyring::new();
    let store = KeyringCredentialStore::new(
        "com.gpbeam.test",
        backend,
        None,
        None,
        Some(fallback_with_nc1()),
    );
    let secret = store.get("nc1").unwrap().expect("fallback present");
    assert_eq!(secret.username, "file-user");
    assert_eq!(secret.app_password, "file-pw");
}

#[test]
fn keychain_password_beats_fallback_password() {
    let mut backend = MemoryKeyring::new();
    backend
        .set("com.gpbeam.test", "nc1", "keychain-pw")
        .unwrap();
    let store = KeyringCredentialStore::new(
        "com.gpbeam.test",
        backend,
        None,
        None,
        Some(fallback_with_nc1()),
    );
    let secret = store.get("nc1").unwrap().expect("present");
    assert_eq!(secret.app_password, "keychain-pw");
    assert_eq!(secret.username, "file-user");
}

#[test]
fn set_password_then_get_returns_it() {
    let mut store =
        KeyringCredentialStore::new("com.gpbeam.test", MemoryKeyring::new(), None, None, None);
    assert!(store.get("nc1").unwrap().is_none());
    store.set_password("nc1", "stored-pw").unwrap();
    let secret = store.get("nc1").unwrap().expect("stored");
    assert_eq!(secret.app_password, "stored-pw");
    assert_eq!(
        store.backend().get("com.gpbeam.test", "nc1").unwrap(),
        Some("stored-pw".to_string())
    );
}

#[test]
fn delete_password_clears_keychain_entry() {
    let mut store =
        KeyringCredentialStore::new("com.gpbeam.test", MemoryKeyring::new(), None, None, None);
    store.set_password("nc1", "stored-pw").unwrap();
    assert!(store.has_password("nc1"));
    store.delete_password("nc1").unwrap();
    assert_eq!(store.backend().get("com.gpbeam.test", "nc1").unwrap(), None);
    assert!(!store.has_password("nc1"));
    store.delete_password("nc1").unwrap();
}

#[test]
fn a_password_is_had_exactly_if_it_resolves() {
    let only_username = "[credentials.nc1]\nusername = \"alice\"\n";
    let with_password = "[credentials.nc1]\nusername = \"alice\"\napp_password = \"pw\"\n";
    for env in [None, Some("env-pw".to_string())] {
        for stored in [false, true] {
            for file in [None, Some(only_username), Some(with_password)] {
                let mut keychain = MemoryKeyring::new();
                if stored {
                    keychain.set("s", "nc1", "kc-pw").unwrap();
                }
                let fallback = file.map(|t| {
                    EnvConfigStore::from_toml_str(t, None, env.clone()).unwrap()
                });
                let store =
                    KeyringCredentialStore::new("s", keychain, None, env.clone(), fallback);
                let has = env.is_some() || stored || file == Some(with_password);
                assert_eq!(store.has_password("nc1"), has);
                assert_eq!(store.get("nc1").unwrap().is_some(), has);
            }
        }
    }
}

#[test]
fn has_password_reflects_each_source() {
    let empty = KeyringCredentialStore::new(
        "com.gpbeam.test",
        MemoryKeyring::new(),
        None,
        None,
        None,
    );
    assert!(!empty.has_password("nc1"));

    let env_store = KeyringCredentialStore::new(
        "com.gpbeam.test",
        MemoryKeyring::new(),
        None,
        Some("env-pw".to_string()),
        None,
    );
    assert!(env_store.has_password("nc1"));

    let mut kc_backend = MemoryKeyring::new();
    kc_backend.set("com.gpbeam.test", "nc1", "kc-pw").unwrap();
    let kc_store = KeyringCredentialStore::new("com.gpbeam.test", kc_backend, None, None, None);
    assert!(kc_store.has_password("nc1"));
    assert!(!kc_store.has_password("other"));

    let fb_store = KeyringCredentialStore::new(
        "com.gpbeam.test",
        MemoryKeyring::new(),
        None,
        None,
        Some(fallback_with_nc1()),
    );
    assert!(fb_store.has_password("nc1"));
    assert!(!fb_store.has_password("unknown"));
}





#[test]
fn build_uploader_fails_when_no_password_anywhere() {
    let store = KeyringCredentialStore::new(
        "com.gpbeam.app",
        MemoryKeyring::new(),
        None,
        None,
        None,
    );
    match build_uploader(&cloud_cfg(), &store) {
        Err(CoreError::Config(msg)) => {
            assert!(
                msg.contains("home-nc"),
                "message names the destination: {msg}"
            );
        }
        Err(other) => panic!("expected Config error, got {other:?}"),
        Ok(_) => panic!("expected a Config error, got an uploader"),
    }
}

/// A keychain that lets nobody in.
struct LockedKeyring;

impl KeyringBackend for LockedKeyring {
    fn get(&self, _service: &str, _account: &str) -> Result<Option<String>, String> {
        Err("locked".to_string())
    }

    fn set(&mut self, _service: &str, _account: &str, _secret: &str) -> Result<(), String> {
        Err("locked".to_string())
    }

    fn delete(&mut self, _service: &str, _account: &str) -> Result<(), String> {
        Err("locked".to_string())
    }
}

#[test]
fn a_locked_keychain_moves_no_password() {
    let raw = "[credentials.nc1]\nusername = \"alice\"\napp_password = \"pw\"\n";
    let mut store = KeyringCredentialStore::new("s", LockedKeyring, None, None, None);
    store.refresh_fallback_from_file(Some(raw));
    assert!(store.set_password("nc1", "new").is_err());
    assert!(store.delete_password("nc1").is_err());
    assert_eq!(
        migrate_plaintext_credentials(&mut store, "/c.toml", raw, "nc1"),
        Err("locked".to_string())
    );
    assert!(store.has_password("nc1"), "the file still has the password");
}

fn backend() -> impl KeyringBackend {
    MemoryKeyring::new()
}

#[test]
fn memory_keyring_is_object_safe_behind_arc() {
    let mut kr = backend();
    kr.set("s", "a", "p").unwrap();
    assert_eq!(kr.get("s", "a").unwrap(), Some("p".to_string()));
}

#[test]
fn build_uploader_succeeds_with_keychain_backed_secret() {
    let mut backend = MemoryKeyring::new();
    backend.set("com.gpbeam.app", "home-nc", "abcd-efgh-ijkl").unwrap();
    let store = KeyringCredentialStore::new("com.gpbeam.app", backend, None, None, None);
    match build_uploader(&cloud_cfg(), &store) {
        Ok(up) => {
            assert_eq!(up.app_password, "abcd-efgh-ijkl");
            assert_eq!(up.username, "alice");
        }
        Err(e) => panic!("expected an uploader, got error: {e:?}"),
    }
}

#[test]
fn refresh_fallback_tracks_the_rewritten_config_file() {
    let raw =
        "dest_root = \"/d\"\n[credentials.nc1]\nusername=\"alice\"\napp_password=\"old-pw\"\n";
    let initial = EnvConfigStore::from_toml_str(raw, None, None).ok();
    assert!(initial.is_some());
    let mut store =
        KeyringCredentialStore::new("svc", MemoryKeyring::new(), None, None, initial);
    assert!(store.has_password("nc1"), "startup snapshot resolves the file pw");

    let stripped = strip_credential_password("gpbeam.toml", raw, "nc1").unwrap();
    store.refresh_fallback_from_file(Some(&stripped));

    assert!(
        !store.has_password("nc1"),
        "after refresh the stripped password is no longer resolvable"
    );
    assert!(store.get("nc1").unwrap().is_none(), "no source supplies a password");
}

#[test]
fn refresh_fallback_clears_when_file_is_missing() {
    let mut store = KeyringCredentialStore::new(
        "svc",
        MemoryKeyring::new(),
        None,
        None,
        Some(fallback_with_nc1()),
    );
    assert!(store.has_password("nc1"));
    store.refresh_fallback_from_file(None);
    assert!(!store.has_password("nc1"), "missing file -> no fallback at all");
}

#[test]
fn refresh_fallback_clears_when_file_cannot_be_read() {
    for text in ["a = = b", "[credentials.nc1]\napp_password=\"x\"\n", "credentials = 3\n"] {
        let mut store = KeyringCredentialStore::new(
            "svc",
            MemoryKeyring::new(),
            None,
            None,
            Some(fallback_with_nc1()),
        );
        store.refresh_fallback_from_file(Some(text));
        assert!(!store.has_password("nc1"), "{text:?}");
    }
}

#[test]
fn refresh_fallback_picks_up_a_newly_written_credential() {
    let mut store = KeyringCredentialStore::new("svc", MemoryKeyring::new(), None, None, None);
    assert!(!store.has_password("nc1"));
    store.refresh_fallback_from_file(Some(
        "[credentials.nc1]\nusername=\"a\"\napp_password=\"new-pw\"\n",
    ));
    let secret = store.get("nc1").unwrap().expect("resolvable after refresh");
    assert_eq!(secret.app_password, "new-pw");
}

#[test]
fn migrate_moves_password_to_keychain_then_strips_file() {
    let raw =
        "dest_root = \"/d\"\n[credentials.nc1]\nusername=\"a\"\napp_password=\"plain-pw\"\n";
    let mut store =
        KeyringCredentialStore::new("com.gpbeam.test", MemoryKeyring::new(), None, None, None);
    let text = migrate_plaintext_credentials(&mut store, "gpbeam.toml", raw, "nc1").unwrap();
    assert_eq!(
        store.backend().get("com.gpbeam.test", "nc1").unwrap(),
        Some("plain-pw".into())
    );
    assert!(plaintext_credential_ids(&text).is_empty());
}

#[test]
fn migrate_refreshes_the_fallback_so_revocation_is_immediate() {
    let raw =
        "dest_root = \"/d\"\n[credentials.nc1]\nusername=\"a\"\napp_password=\"plain-pw\"\n";
    let fallback = EnvConfigStore::from_toml_str(raw, None, None).ok();
    let mut store = KeyringCredentialStore::new("svc", MemoryKeyring::new(), None, None, fallback);

    let text = migrate_plaintext_credentials(&mut store, "gpbeam.toml", raw, "nc1").unwrap();
    store.refresh_fallback_from_file(Some(&text));
    assert!(store.has_password("nc1"));

    store.delete_password("nc1").unwrap();
    assert!(
        !store.has_password("nc1"),
        "stale startup fallback must not resurrect the stripped password"
    );
    assert!(store.get("nc1").unwrap().is_none());
}

#[test]
fn migrate_preserves_username_for_resolution_after_restart() {
    let raw =
        "dest_root = \"/d\"\n[credentials.nc1]\nusername=\"alice\"\napp_password=\"plain-pw\"\n";
    let mut store = KeyringCredentialStore::new("svc", MemoryKeyring::new(), None, None, None);
    let text = migrate_plaintext_credentials(&mut store, "gpbeam.toml", raw, "nc1").unwrap();

    let fallback = EnvConfigStore::from_toml_str(&text, None, None).ok();
    let mut backend = MemoryKeyring::new();
    backend.set("svc", "nc1", &store.backend().get("svc", "nc1").unwrap().unwrap()).unwrap();
    let restarted = KeyringCredentialStore::new("svc", backend, None, None, fallback);
    let secret = restarted.get("nc1").unwrap().expect("resolvable after migrate");
    assert_eq!(secret.username, "alice", "username must survive migrate");
    assert_eq!(secret.app_password, "plain-pw", "password resolves from keychain");
}

#[test]
fn migrate_errors_when_no_plaintext_entry() {
    let mut store =
        KeyringCredentialStore::new("com.gpbeam.test", MemoryKeyring::new(), None, None, None);
    let err =
        migrate_plaintext_credentials(&mut store, "gpbeam.toml", "dest_root = \"/d\"\n", "nc1")
            .unwrap_err();
    assert_eq!(err, "no plaintext password for \"nc1\" in config");
}

#[test]
fn a_keychain_that_cannot_be_read_is_an_error() {
    let r = resolve(&None, &Some("env-pw".to_string()), Err("locked".to_string()), None);
    assert!(matches!(r, Err(CoreError::Config(m)) if m == "locked"));
    assert!(!has_one(&Err("locked".to_string()), &None));
    assert_eq!(
        finish_move("p", "a = 1", "nc1", Err("locked".to_string())),
        Err("locked".to_string())
    );
}

#[test]
fn an_empty_password_in_the_file_counts_as_none() {
    let empty = Secret { username: "u".to_string(), app_password: String::new() };
    assert!(!has_one(&Ok(None), &Some(empty.clone())));
    assert!(resolve(&None, &None, Ok(None), Some(empty.clone())).unwrap().is_none());
    let kept = resolve(&None, &None, Ok(Some("k".to_string())), Some(empty)).unwrap().unwrap();
    assert_eq!(kept.username, "u");
    assert_eq!(kept.app_password, "k");
}
