use gpbeam::error::{is_retryable, CoreError};

#[test]
fn http_display_includes_status_and_msg() {
    let e = CoreError::Http {
        status: Some(500),
        msg: "boom".into(),
    };
    assert_eq!(e.to_string(), "http error Some(500): boom");
    let e = CoreError::Http {
        status: None,
        msg: "transport".into(),
    };
    assert_eq!(e.to_string(), "http error None: transport");
}

#[test]
fn server_errors_are_retryable() {
    for s in [500u16, 502, 503, 408, 429] {
        let e = CoreError::Http {
            status: Some(s),
            msg: "x".into(),
        };
        assert!(is_retryable(&e), "status {s} should be retryable");
    }
}

#[test]
fn transport_error_is_retryable() {
    let e = CoreError::Http {
        status: None,
        msg: "connection reset".into(),
    };
    assert!(is_retryable(&e));
}

#[test]
fn client_errors_are_not_retryable() {
    for s in [400u16, 401, 403, 404, 409, 412] {
        let e = CoreError::Http {
            status: Some(s),
            msg: "x".into(),
        };
        assert!(!is_retryable(&e), "status {s} should NOT be retryable");
    }
}

#[test]
fn run_aborted_is_not_retryable_and_displays_bare_message() {
    let e = CoreError::RunAborted("camera offline: aborting run".into());
    assert!(!is_retryable(&e));
    assert_eq!(e.to_string(), "camera offline: aborting run");
}

#[test]
fn auth_config_db_io_are_not_retryable() {
    assert!(!is_retryable(&CoreError::CloudAuth("nope".into())));
    assert!(!is_retryable(&CoreError::Config("bad toml".into())));
    assert!(!is_retryable(&CoreError::VerifyFailed(
        "/x".to_string()
    )));
    let io = CoreError::Io {
        path: "/x".to_string(),
        source: "io".to_string(),
    };
    assert!(!is_retryable(&io));
}

#[test]
fn every_error_has_its_message() {
    let text = |e: CoreError| e.to_string();
    assert_eq!(
        text(CoreError::Io { path: "/x".into(), source: "denied".into() }),
        "io error at /x: denied"
    );
    assert_eq!(text(CoreError::Db("locked".into())), "db error: locked");
    assert_eq!(text(CoreError::NotGoProCard("/m".into())), "not a GoPro card: /m");
    assert_eq!(
        text(CoreError::InsufficientSpace { need: 10, have: 3 }),
        "insufficient space on destination: need 10 bytes, have 3"
    );
    assert_eq!(text(CoreError::VerifyFailed("/x".into())), "verification failed for /x");
    assert_eq!(text(CoreError::CloudAuth("no".into())), "cloud auth error: no");
    assert_eq!(text(CoreError::Config("bad".into())), "config error: bad");
}
