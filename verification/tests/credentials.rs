use gpbeam::credentials::{CredentialStore, EnvConfigStore, Secret};
use gpbeam::error::CoreError;

const SAMPLE: &str = r#"
    [credentials.nc1]
    username = "alice"
    app_password = "file-pw-aaaa"

    [credentials.nc2]
    username = "bob"
    app_password = "file-pw-bbbb"
"#;

#[test]
fn secret_debug_redacts_app_password() {
    let s = Secret {
        username: "alice".into(),
        app_password: "super-secret-pw".into(),
    };
    let dbg = s.redacted();
    assert!(
        !dbg.contains("super-secret-pw"),
        "Debug leaked the password: {dbg}"
    );
    assert!(
        dbg.contains("[redacted]"),
        "Debug should mark the redaction: {dbg}"
    );
    assert!(dbg.contains("alice"), "username stays visible: {dbg}");
}


fn wiped_on_drop<T: zeroize::ZeroizeOnDrop>() -> bool {
    std::mem::needs_drop::<T>()
}

#[test]
fn secret_zeroizes_on_drop() {
    assert!(wiped_on_drop::<Secret>());
}

#[test]
fn known_id_returns_file_secret() {
    let store = EnvConfigStore::from_toml_str(SAMPLE, None, None).unwrap();
    let s = store.get("nc1").unwrap().expect("nc1 present");
    assert_eq!(s.username, "alice");
    assert_eq!(s.app_password, "file-pw-aaaa");
}

#[test]
fn missing_id_returns_none() {
    let store = EnvConfigStore::from_toml_str(SAMPLE, None, None).unwrap();
    assert!(store.get("does-not-exist").unwrap().is_none());
}

#[test]
fn env_app_password_overrides_file() {
    let store =
        EnvConfigStore::from_toml_str(SAMPLE, None, Some("env-pw-zzzz".into())).unwrap();
    let s = store.get("nc1").unwrap().expect("nc1 present");
    assert_eq!(s.username, "alice");
    assert_eq!(s.app_password, "env-pw-zzzz");
}

#[test]
fn env_username_and_password_both_override() {
    let store = EnvConfigStore::from_toml_str(
        SAMPLE,
        Some("env-user".into()),
        Some("env-pw-zzzz".into()),
    )
    .unwrap();
    let s = store.get("nc1").unwrap().expect("nc1 present");
    assert_eq!(s.username, "env-user");
    assert_eq!(s.app_password, "env-pw-zzzz");
}

#[test]
fn empty_store_with_env_yields_secret() {
    let store = EnvConfigStore::empty(Some("env-user".into()), Some("env-pw-zzzz".into()));
    let s = store
        .get("anything")
        .unwrap()
        .expect("env produces a secret");
    assert_eq!(s.username, "env-user");
    assert_eq!(s.app_password, "env-pw-zzzz");
}

#[test]
fn empty_store_no_env_returns_none() {
    let store = EnvConfigStore::empty(None, None);
    assert!(store.get("nc1").unwrap().is_none());
}

#[test]
fn entry_without_app_password_parses_with_empty_password() {
    let store =
        EnvConfigStore::from_toml_str("[credentials.nc1]\nusername = \"alice\"\n", None, None)
            .unwrap();
    let s = store.get("nc1").unwrap().expect("nc1 present");
    assert_eq!(s.username, "alice");
    assert_eq!(s.app_password, "");
}

#[test]
fn invalid_toml_maps_to_config_error() {
    let err = EnvConfigStore::from_toml_str("= = bad", None, None).err().unwrap();
    assert!(matches!(err, CoreError::Config(_)));
}

#[test]
fn credentials_of_the_wrong_shape_are_a_config_error() {
    for (text, fault) in [
        ("credentials = 3", "invalid type for `credentials`: expected a table"),
        ("[credentials]\nnc1 = \"x\"", "invalid type: expected a table of credentials"),
        ("[credentials.nc1]\napp_password = \"x\"", "missing field `username`"),
        (
            "[credentials.nc1]\nusername = 3",
            "invalid type for `username`: expected a string",
        ),
        (
            "[credentials.nc1]\nusername = \"a\"\napp_password = 3",
            "invalid type for `app_password`: expected a string",
        ),
        (
            "[credentials.b]\nusername = 3\n[credentials.a]\n",
            "missing field `username`",
        ),
    ] {
        let err = EnvConfigStore::from_toml_str(text, None, None).err().unwrap();
        assert_eq!(err, CoreError::Config(fault.to_string()), "{text:?}");
    }
}

#[test]
fn an_empty_document_has_no_credentials() {
    let store = EnvConfigStore::from_toml_str("", None, None).unwrap();
    assert!(store.get("nc1").unwrap().is_none());
}

#[test]
fn the_first_entry_of_an_id_counts() {
    let entry = |p: &str| {
        (
            "nc1".to_string(),
            Secret { username: "u".to_string(), app_password: p.to_string() },
        )
    };
    let store = EnvConfigStore::with_entries(vec![entry("1"), entry("2")], None, None);
    assert_eq!(store.get("nc1").unwrap().unwrap().app_password, "1");
}
