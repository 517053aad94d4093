use gpbeam::cloud::chunks::{chunk_name, chunk_range, count_chunks, pick_chunk_size};
use gpbeam::cloud::nextcloud::{
    assemble_request, file_question, listing_question, mkcol_request, mtime_secs,
    propfind_request, put_part_request, put_request, read_etag, DavBody, DavRequest,
    NextcloudUploader,
};
use gpbeam::cloud::upload::{
    already_present, fresh_upload_id, parent_paths, propfind_present, start_upload, ChunkAction,
    ChunkedUpload, PlainUpload, PutAction, Reply, Upload,
};
use gpbeam::cloud::webdav::{
    encode_path_segments, files_url, parse_chunk_listing, parse_first_contentlength, uploads_url,
};
use gpbeam::cloud::{build_uploader, is_valid_base_url, ResumeState};
use gpbeam::config::{CloudConfig, CloudKind, MirrorMode};
use gpbeam::credentials::{EnvConfigStore, Secret};
use gpbeam::error::CoreError;
use gpbeam::hashing::{md5_hex_of, Md5Stream};

const CHUNK: u64 = 5 * 1024 * 1024;

fn cfg() -> CloudConfig {
    CloudConfig {
        kind: CloudKind::Nextcloud,
        destination_id: "home-nc".into(),
        base_url: "https://cloud.example.com".into(),
        username: "alice".into(),
        remote_root: "GoPro".into(),
        mirror_mode: MirrorMode::Auto,
        chunk_threshold: 50 * 1024 * 1024,
        tls_ca_pem: None,
        max_concurrency: 2,
        max_attempts: 8,
    }
}

fn uploader() -> NextcloudUploader {
    let secret = Secret { username: "alice".into(), app_password: "app-pw-1234".into() };
    NextcloudUploader::new(&cfg(), &secret)
}

fn reply(status: u16) -> Reply {
    Reply { status, body: String::new(), etag: None }
}

fn tagged(status: u16, etag: &str) -> Reply {
    Reply { status, body: String::new(), etag: Some(etag.to_string()) }
}

fn with_body(status: u16, body: &str) -> Reply {
    Reply { status, body: body.to_string(), etag: None }
}

fn header<'a>(r: &'a DavRequest, name: &str) -> Option<&'a str> {
    r.headers.iter().find(|h| h.0 == name).map(|h| h.1.as_str())
}

fn listing(dir: &str, parts: &[(&str, u64)]) -> String {
    let mut s = String::from("<?xml version=\"1.0\"?>\n<d:multistatus xmlns:d=\"DAV:\">");
    for (name, len) in parts {
        s.push_str(&format!(
            "<d:response><d:href>/remote.php/dav/uploads/alice/{dir}/{name}</d:href>\
             <d:propstat><d:prop><d:getcontentlength>{len}</d:getcontentlength></d:prop>\
             <d:status>HTTP/1.1 200 OK</d:status></d:propstat></d:response>"
        ));
    }
    s.push_str("</d:multistatus>");
    s
}

#[test]
fn missing_secret_is_a_config_error() {
    let store = EnvConfigStore::empty(None, None);
    match build_uploader(&cfg(), &store) {
        Err(CoreError::Config(msg)) => {
            assert!(msg.contains("home-nc"), "message should name the destination: {msg}");
        }
        Err(other) => panic!("expected Config error, got {other:?}"),
        Ok(_) => panic!("expected a Config error, got an uploader"),
    }
}

fn store_with_password() -> EnvConfigStore {
    EnvConfigStore::from_toml_str(
        "[credentials.home-nc]\nusername = \"alice\"\napp_password = \"pw\"\n",
        None,
        None,
    )
    .unwrap()
}

#[test]
fn present_secret_builds_an_uploader() {
    let toml = r#"
[credentials.home-nc]
username = "alice"
app_password = "abcd-efgh-ijkl"
"#;
    let store = EnvConfigStore::from_toml_str(toml, None, None).unwrap();
    let up = match build_uploader(&cfg(), &store) {
        Ok(up) => up,
        Err(e) => panic!("uploader builds with a present secret: {e:?}"),
    };
    assert_eq!(up.app_password, "abcd-efgh-ijkl");
}

#[test]
fn http_non_loopback_base_url_is_a_config_error() {
    let mut c = cfg();
    c.base_url = "http://nas.example.com".into();
    match build_uploader(&c, &store_with_password()) {
        Err(CoreError::Config(msg)) => {
            assert!(msg.contains("https"), "message should point the user at https: {msg}");
        }
        Err(other) => panic!("expected Config error, got {other:?}"),
        Ok(_) => panic!("expected a Config error, got an uploader"),
    }
}

#[test]
fn http_loopback_base_url_still_builds() {
    for base in ["http://127.0.0.1:8080", "http://localhost", "http://[::1]:9000"] {
        let mut c = cfg();
        c.base_url = base.into();
        assert!(
            build_uploader(&c, &store_with_password()).is_ok(),
            "loopback http base_url {base} must build"
        );
    }
}

#[test]
fn core_is_valid_base_url_matches_gui_contract() {
    assert!(is_valid_base_url("https://cloud.example.com"));
    assert!(is_valid_base_url("https://192.168.1.10:8443/nextcloud"));
    assert!(is_valid_base_url("http://localhost:8080"));
    assert!(is_valid_base_url("http://127.0.0.1"));
    assert!(is_valid_base_url("http://[::1]:8080/nextcloud"));
    assert!(!is_valid_base_url("http://cloud.example.com"));
    assert!(!is_valid_base_url("http://192.168.1.10:8080"));
    assert!(!is_valid_base_url("ftp://cloud.example.com"));
    assert!(!is_valid_base_url("https://"));
    assert!(!is_valid_base_url("http://[::1]@evil.com"));
    assert!(!is_valid_base_url("http://127.0.0.1@evil.com"));
    assert!(is_valid_base_url("http://user@127.0.0.1"));
}

#[test]
fn empty_secret_username_falls_back_to_cloud_config_username() {
    let store = EnvConfigStore::from_toml_str(
        "[credentials.home-nc]\nusername = \"\"\napp_password = \"pw\"\n",
        None,
        None,
    )
    .unwrap();
    let up = build_uploader(&cfg(), &store).ok().unwrap();
    assert_eq!(up.username, "alice");
}

#[test]
fn new_ok_without_ca() {
    let up = uploader();
    assert_eq!(up.base_url, "https://cloud.example.com");
    assert_eq!(up.username, "alice");
    assert_eq!(up.chunk_threshold, 50 * 1024 * 1024);
}

#[test]
fn remote_rel_joins_root() {
    let up = uploader();
    assert_eq!(up.remote_rel("clip.mp4"), "GoPro/clip.mp4");
    assert_eq!(up.remote_rel("/clip.mp4"), "GoPro/clip.mp4");
}

#[test]
fn encodes_spaces_and_hash_per_segment_keeps_slash() {
    assert_eq!(
        encode_path_segments("GoPro Clips/my #1 video.mp4"),
        "GoPro%20Clips/my%20%231%20video.mp4"
    );
}

#[test]
fn keeps_unreserved_bytes_verbatim() {
    assert_eq!(encode_path_segments("a-b_c.d~e/f"), "a-b_c.d~e/f");
}

#[test]
fn encodes_plus_and_question_mark() {
    assert_eq!(encode_path_segments("a+b?c"), "a%2Bb%3Fc");
}

#[test]
fn encodes_every_byte_of_other_characters() {
    assert_eq!(encode_path_segments("ä/€"), "%C3%A4/%E2%82%AC");
}

/// The bytes that a percent-encoded text stands for.
fn decode(s: &str) -> Vec<u8> {
    let mut out = Vec::new();
    let mut rest = s.as_bytes();
    while let Some((&b, tail)) = rest.split_first() {
        if b == b'%' {
            let digits = std::str::from_utf8(&tail[..2]).unwrap();
            out.push(u8::from_str_radix(digits, 16).unwrap());
            rest = &tail[2..];
        } else {
            out.push(b);
            rest = tail;
        }
    }
    out
}

#[test]
fn an_encoded_path_can_be_decoded() {
    for rel in ["", "/", "a//b/", "100%25/x y", "a+b?c#d", "ä/€/😀", "A-z_0.9~"] {
        let encoded = encode_path_segments(rel);
        assert_eq!(decode(&encoded), rel.as_bytes(), "{rel}");
        assert_eq!(encoded.matches('/').count(), rel.matches('/').count(), "{rel}");
    }
    assert_ne!(encode_path_segments("a b"), encode_path_segments("a%20b"));
    assert_eq!(encode_path_segments("a+b?c"), "a%2Bb%3Fc");
}

#[test]
fn files_url_shape_matches_contract() {
    assert_eq!(
        files_url("https://cloud.example.com", "alice", "GoPro/clip 1.mp4"),
        "https://cloud.example.com/remote.php/dav/files/alice/GoPro/clip%201.mp4"
    );
}

#[test]
fn files_url_trims_trailing_slash_on_base() {
    assert_eq!(
        files_url("https://cloud.example.com/", "alice", "x.mp4"),
        "https://cloud.example.com/remote.php/dav/files/alice/x.mp4"
    );
}

#[test]
fn uploads_url_dir_and_part_shapes() {
    assert_eq!(
        uploads_url("https://c.example.com", "bob", "gpbeam-123", None),
        "https://c.example.com/remote.php/dav/uploads/bob/gpbeam-123"
    );
    assert_eq!(
        uploads_url("https://c.example.com", "bob", "gpbeam-123", Some("00001")),
        "https://c.example.com/remote.php/dav/uploads/bob/gpbeam-123/00001"
    );
}

#[test]
fn already_present_false_on_404() {
    assert_eq!(already_present("u", 1024, &reply(404)), Ok(false));
}

#[test]
fn already_present_true_on_207_with_size() {
    let xml = r#"<?xml version="1.0"?>
<d:multistatus xmlns:d="DAV:">
  <d:response>
    <d:href>/remote.php/dav/files/alice/GoPro/clip.mp4</d:href>
    <d:propstat>
      <d:prop><d:getcontentlength>2048</d:getcontentlength></d:prop>
      <d:status>HTTP/1.1 200 OK</d:status>
    </d:propstat>
  </d:response>
</d:multistatus>"#;
    assert_eq!(propfind_present("u", &with_body(207, xml)), Ok(Some(2048)));
    assert_eq!(already_present("u", 2048, &with_body(207, xml)), Ok(true));
    assert_eq!(already_present("u", 2047, &with_body(207, xml)), Ok(false));
    assert!(matches!(already_present("u", 1, &reply(401)), Err(CoreError::CloudAuth(_))));
    assert!(matches!(
        already_present("u", 1, &reply(500)),
        Err(CoreError::Http { status: Some(500), .. })
    ));
}

#[test]
fn parse_contentlength_extracts_size() {
    let xml = r#"<d:multistatus xmlns:d="DAV:"><d:response>
            <d:prop><d:getcontentlength>4096</d:getcontentlength></d:prop>
        </d:response></d:multistatus>"#;
    assert_eq!(parse_first_contentlength(xml), Some(4096));
    assert_eq!(parse_first_contentlength("<empty/>"), None);
}

#[test]
fn put_simple_201_returns_etag() {
    let total = b"hello gopro".len() as u64;
    let (mut up, first) = PlainUpload::start(&uploader(), "GoPro/clip.mp4", total);
    let url = "https://cloud.example.com/remote.php/dav/files/alice/GoPro/clip.mp4";
    assert_eq!(first, PutAction::Send { url: url.to_string() });
    let request = put_request(url, total, &md5_hex_of(b"hello gopro"), None);
    assert_eq!(request.method, "PUT");
    assert_eq!(header(&request, "X-NC-WebDAV-AutoMkcol"), Some("1"));
    assert_eq!(header(&request, "Content-Length"), Some("11"));
    match up.step(&tagged(201, "\"etag-1\"")) {
        PutAction::Finished(out) => {
            assert_eq!(out.remote_ref, "GoPro/clip.mp4");
            assert_eq!(out.bytes, total);
            assert_eq!(out.etag.as_deref(), Some("\"etag-1\""));
        }
        other => panic!("got {other:?}"),
    }
}

#[test]
fn put_simple_409_then_mkcol_then_retry_ok() {
    let (mut up, _) = PlainUpload::start(&uploader(), "GoPro/sub/clip.mp4", 4);
    let dir = |rel: &str| PutAction::MakeDir {
        url: format!("https://cloud.example.com/remote.php/dav/files/alice/{rel}"),
    };
    assert_eq!(up.step(&reply(409)), dir("GoPro"));
    assert_eq!(up.step(&reply(405)), dir("GoPro/sub"));
    assert!(matches!(up.step(&reply(201)), PutAction::Send { .. }));
    match up.step(&tagged(201, "\"e2\"")) {
        PutAction::Finished(out) => assert_eq!(out.etag.as_deref(), Some("\"e2\"")),
        other => panic!("got {other:?}"),
    }
}

#[test]
fn a_second_conflict_is_a_failure() {
    let (mut up, _) = PlainUpload::start(&uploader(), "GoPro/clip.mp4", 4);
    up.step(&reply(409));
    up.step(&reply(201));
    assert!(matches!(
        up.step(&reply(409)),
        PutAction::Failed(CoreError::Http { status: Some(409), .. })
    ));
}

#[test]
fn put_chunked_mkcol_put_move_201() {
    let total: u64 = 12 * 1024 * 1024;
    let (mut up, first) =
        ChunkedUpload::start(&uploader(), "GoPro/big.mp4", total, &None, "gpbeam-new");
    let dest = "https://cloud.example.com/remote.php/dav/files/alice/GoPro/big.mp4";
    let dir = "https://cloud.example.com/remote.php/dav/uploads/alice/gpbeam-new";
    assert_eq!(
        first,
        ChunkAction::MakeDir { dir: dir.to_string(), dest: dest.to_string() }
    );
    let mut last = 0u64;
    let mut sent = 0;
    let (_, mut action) = up.step(&reply(201));
    loop {
        let (reports, next) = match &action {
            ChunkAction::Send { url, dest: d, offset, len, total: t } => {
                sent += 1;
                assert_eq!(d, dest);
                assert_eq!(*t, total);
                let request = put_part_request(url, d, *offset, *len, *t);
                assert_eq!(header(&request, "Destination"), Some(dest));
                assert_eq!(header(&request, "OC-Total-Length"), Some("12582912"));
                assert_eq!(request.body, DavBody::File { offset: *offset, len: *len });
                up.step(&reply(201))
            }
            ChunkAction::Assemble { url, dest: d, total: t } => {
                assert_eq!(url, &format!("{dir}/.file"));
                let request = assemble_request(url, d, *t, &None, Some(7));
                assert_eq!(request.method, "MOVE");
                assert_eq!(header(&request, "X-OC-Mtime"), Some("7"));
                up.step(&tagged(201, "\"chunked-etag\""))
            }
            ChunkAction::Finished(out) => {
                assert_eq!(out.bytes, total);
                assert_eq!(out.etag.as_deref(), Some("\"chunked-etag\""));
                break;
            }
            other => panic!("got {other:?}"),
        };
        for n in reports {
            assert!(n >= last);
            last = n;
        }
        action = next;
    }
    assert_eq!(sent, 3);
    assert_eq!(last, total, "progress reached total");
}

#[test]
fn put_chunked_move_carries_oc_checksum() {
    let content = vec![7u8; 1000];
    let expected_md5 = md5_hex_of(&content);
    let request = assemble_request("u", "d", 1000, &Some(expected_md5.clone()), None);
    assert_eq!(
        header(&request, "OC-Checksum"),
        Some(format!("md5:{expected_md5}").as_str())
    );
}

#[test]
fn md5_hex_of_matches_known_digest() {
    assert_eq!(md5_hex_of(b"abc"), "900150983cd24fb0d6963f7d28e17f72");
    let mut s = Md5Stream::new();
    s.update(b"a");
    s.update(b"bc");
    assert_eq!(s.hex(), "900150983cd24fb0d6963f7d28e17f72");
}

#[test]
fn put_chunked_assembles_without_checksum_when_local_unreadable() {
    let total: u64 = 10 * 1024 * 1024;
    let resume = Some(ResumeState {
        upload_id: Some("gpbeam-resume-2".into()),
        uploaded_bytes: total,
    });
    let (mut up, first) =
        ChunkedUpload::start(&uploader(), "GoPro/big.mp4", total, &resume, "gpbeam-new");
    assert!(matches!(first, ChunkAction::List { .. }));
    let body = listing("gpbeam-resume-2", &[("00001", CHUNK), ("00002", CHUNK)]);
    let (_, action) = up.step(&with_body(207, &body));
    match &action {
        ChunkAction::Assemble { url, dest, total: t } => {
            let request = assemble_request(url, dest, *t, &None, None);
            assert_eq!(header(&request, "OC-Checksum"), None);
        }
        other => panic!("nothing is left to send, got {other:?}"),
    }
    match up.step(&tagged(201, "\"e\"")).1 {
        ChunkAction::Finished(out) => assert_eq!(out.etag.as_deref(), Some("\"e\"")),
        other => panic!("got {other:?}"),
    }
}

#[test]
fn put_chunked_resumes_skipping_present_part1() {
    let total: u64 = 10 * 1024 * 1024;
    let resume = Some(ResumeState {
        upload_id: Some("gpbeam-resume-1".into()),
        uploaded_bytes: CHUNK,
    });
    let (mut up, first) =
        ChunkedUpload::start(&uploader(), "GoPro/big.mp4", total, &resume, "gpbeam-new");
    assert_eq!(
        first,
        ChunkAction::List {
            dir: "https://cloud.example.com/remote.php/dav/uploads/alice/gpbeam-resume-1"
                .to_string()
        }
    );
    let (_, action) = up.step(&with_body(207, &listing("gpbeam-resume-1", &[("00001", CHUNK)])));
    match &action {
        ChunkAction::Send { url, offset, len, .. } => {
            assert!(url.ends_with("/gpbeam-resume-1/00002"), "{url}");
            assert_eq!((*offset, *len), (CHUNK, CHUNK));
        }
        other => panic!("got {other:?}"),
    }
    let (reports, action) = up.step(&reply(201));
    assert_eq!(reports.last(), Some(&total));
    match &action {
        ChunkAction::Assemble { url, .. } => {
            assert!(url.ends_with("/gpbeam-resume-1/.file"), "{url}");
        }
        other => panic!("got {other:?}"),
    }
    match up.step(&reply(201)).1 {
        ChunkAction::Finished(out) => assert_eq!(out.bytes, total),
        other => panic!("got {other:?}"),
    }
}

#[test]
fn an_interrupted_upload_goes_on_in_its_directory() {
    let total: u64 = 10 * 1024 * 1024;
    let resume = Some(ResumeState { upload_id: Some("gpbeam-7-abc".into()), uploaded_bytes: 0 });
    let dir = "https://cloud.example.com/remote.php/dav/uploads/alice/gpbeam-7-abc";

    // The first attempt finds no directory, creates it, and fails at the second part.
    for gone in [reply(404), with_body(207, &listing("gpbeam-7-abc", &[]))] {
        let (mut up, first) =
            ChunkedUpload::start(&uploader(), "GoPro/big.mp4", total, &resume, "gpbeam-new-1");
        assert_eq!(first, ChunkAction::List { dir: dir.to_string() });
        match up.step(&gone).1 {
            ChunkAction::MakeDir { dir: made, .. } => assert_eq!(made, dir),
            other => panic!("got {other:?}"),
        }
        match up.step(&reply(201)).1 {
            ChunkAction::Send { url, .. } => assert_eq!(url, format!("{dir}/00001")),
            other => panic!("got {other:?}"),
        }
        match up.step(&reply(201)).1 {
            ChunkAction::Send { url, .. } => assert_eq!(url, format!("{dir}/00002")),
            other => panic!("got {other:?}"),
        }
        assert!(matches!(up.step(&reply(503)).1, ChunkAction::Failed(_)));
    }

    // The second attempt finds the first part there and sends only the second.
    let (mut up, first) =
        ChunkedUpload::start(&uploader(), "GoPro/big.mp4", total, &resume, "gpbeam-new-2");
    assert_eq!(first, ChunkAction::List { dir: dir.to_string() });
    let (reports, action) =
        up.step(&with_body(207, &listing("gpbeam-7-abc", &[("00001", CHUNK)])));
    assert_eq!(reports, vec![CHUNK]);
    match action {
        ChunkAction::Send { url, .. } => assert_eq!(url, format!("{dir}/00002")),
        other => panic!("got {other:?}"),
    }
}

#[test]
fn a_part_of_the_wrong_size_is_sent_again() {
    let total: u64 = 10 * 1024 * 1024;
    let resume = Some(ResumeState { upload_id: Some("r".into()), uploaded_bytes: 0 });
    let (mut up, _) = ChunkedUpload::start(&uploader(), "GoPro/b", total, &resume, "n");
    let (_, action) = up.step(&with_body(207, &listing("r", &[("00001", 17)])));
    assert!(matches!(action, ChunkAction::Send { offset: 0, .. }), "got {action:?}");
}

#[test]
fn upload_small_uses_simple_put() {
    match start_upload(&uploader(), "small.mp4", 4, &None, "gpbeam-x") {
        Upload::Plain(mut up, first) => {
            assert_eq!(
                first,
                PutAction::Send {
                    url: "https://cloud.example.com/remote.php/dav/files/alice/GoPro/small.mp4"
                        .to_string()
                }
            );
            match up.step(&tagged(201, "\"s1\"")) {
                PutAction::Finished(out) => {
                    assert_eq!(out.remote_ref, "GoPro/small.mp4");
                    assert_eq!(out.etag.as_deref(), Some("\"s1\""));
                }
                other => panic!("got {other:?}"),
            }
        }
        Upload::Chunked(..) => panic!("no chunk dance should occur"),
    }
}

#[test]
fn upload_large_uses_chunk_dance() {
    let mut up = uploader();
    up.chunk_threshold = 1024;
    let total: u64 = 6 * 1024 * 1024;
    match start_upload(&up, "big.mp4", total, &None, "gpbeam-x") {
        Upload::Chunked(mut machine, first) => {
            assert!(matches!(first, ChunkAction::MakeDir { .. }));
            assert!(matches!(machine.step(&reply(201)).1, ChunkAction::Send { .. }));
            assert!(matches!(machine.step(&reply(201)).1, ChunkAction::Send { .. }));
            assert!(matches!(machine.step(&reply(201)).1, ChunkAction::Assemble { .. }));
            match machine.step(&tagged(201, "\"big\"")).1 {
                ChunkAction::Finished(out) => {
                    assert_eq!(out.bytes, total);
                    assert_eq!(out.etag.as_deref(), Some("\"big\""));
                }
                other => panic!("got {other:?}"),
            }
        }
        Upload::Plain(..) => panic!("the file is over the threshold"),
    }
}

#[test]
fn upload_401_maps_to_cloud_auth() {
    match start_upload(&uploader(), "x.mp4", 1, &None, "gpbeam-x") {
        Upload::Plain(mut up, _) => {
            let action = up.step(&reply(401));
            assert!(matches!(action, PutAction::Failed(CoreError::CloudAuth(_))), "{action:?}");
        }
        Upload::Chunked(..) => panic!("the file is small"),
    }
    let (mut chunked, _) = ChunkedUpload::start(&uploader(), "a", CHUNK, &None, "n");
    let (_, action) = chunked.step(&reply(401));
    assert!(matches!(action, ChunkAction::Failed(CoreError::CloudAuth(_))), "{action:?}");
}

#[test]
fn parts_cover_the_file() {
    let total = 12 * 1024 * 1024;
    assert_eq!(pick_chunk_size(total), CHUNK);
    assert_eq!(count_chunks(total), 3);
    assert_eq!(chunk_range(total, 1), (0, CHUNK));
    assert_eq!(chunk_range(total, 3), (2 * CHUNK, 2 * 1024 * 1024));
    assert_eq!(chunk_name(1), "00001");
    assert_eq!(chunk_name(10_000), "10000");
    let huge = 10_000 * CHUNK + 1;
    assert!(pick_chunk_size(huge) > CHUNK);
    assert!(count_chunks(huge) <= 10_000);
}

#[test]
fn listings_are_read_by_part() {
    let parts = parse_chunk_listing(&listing("d", &[("00001", 5), ("00002", 6), (".file", 7)]));
    assert_eq!(parts.len(), 2);
    assert_eq!(parts.get(&1), Some(&5));
    assert_eq!(parts.get(&2), Some(&6));
    assert!(parse_chunk_listing("not xml <").is_empty());
}

#[test]
fn requests_have_their_methods() {
    let p = propfind_request("u", "0", "<x/>");
    assert_eq!(p.method, "PROPFIND");
    assert_eq!(header(&p, "Depth"), Some("0"));
    assert_eq!(p.body, DavBody::Text("<x/>".to_string()));
    let q = file_question("u");
    assert_eq!(q.method, "PROPFIND");
    assert_eq!(header(&q, "Depth"), Some("0"));
    assert_eq!(
        q.body,
        DavBody::Text(
            r#"<?xml version="1.0" encoding="UTF-8"?>
<d:propfind xmlns:d="DAV:" xmlns:oc="http://owncloud.org/ns">
  <d:prop>
    <d:getcontentlength/>
    <d:getetag/>
    <d:resourcetype/>
  </d:prop>
</d:propfind>"#
                .to_string()
        )
    );
    let l = listing_question("d");
    assert_eq!(header(&l, "Depth"), Some("1"));
    assert_eq!(header(&l, "Content-Type"), Some("application/xml; charset=utf-8"));
    let m = mkcol_request("u", Some("d"));
    assert_eq!(m.method, "MKCOL");
    assert_eq!(header(&m, "Destination"), Some("d"));
    assert_eq!(header(&mkcol_request("u", None), "Destination"), None);
}

#[test]
fn times_and_tags_are_read() {
    assert_eq!(mtime_secs(Some(7)), Some(7));
    assert_eq!(mtime_secs(Some(0)), None);
    assert_eq!(mtime_secs(Some(u64::MAX)), None);
    assert_eq!(mtime_secs(None), None);
    let some = |s: &str| Some(Some(s.to_string()));
    assert_eq!(read_etag(some("a"), some("b")).as_deref(), Some("a"));
    assert_eq!(read_etag(None, some("b")).as_deref(), Some("b"));
    assert_eq!(read_etag(Some(None), some("b")), None);
    assert_eq!(read_etag(None, None), None);
}

#[test]
fn parents_come_from_the_top_down() {
    assert_eq!(parent_paths("a/b/c.mp4"), vec!["a".to_string(), "a/b".to_string()]);
    assert!(parent_paths("c.mp4").is_empty());
}

#[test]
fn fresh_ids_differ() {
    let a = fresh_upload_id();
    assert!(a.starts_with("gpbeam-"));
    assert_eq!(a.len(), 43);
    assert_eq!(&a[21..22], "4", "{a}");
    assert!("89ab".contains(&a[26..27]), "{a}");
    assert_ne!(a, fresh_upload_id());
}
