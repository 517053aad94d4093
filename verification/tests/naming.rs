use gpbeam::capture::Captured;
use gpbeam::naming::{render_name, resolve_collision, sanitize_file_name};

fn cap() -> Captured {
    Captured {
        date: "2026-06-01".into(),
        time: "143055".into(),
    }
}

#[test]
fn renders_default_template() {
    let n = render_name(
        "{date}_{original}",
        "GX010001.MP4",
        &cap(),
        Some("C346"),
        Some("HERO11"),
    );
    assert_eq!(n, "2026-06-01_GX010001.MP4");
}

#[test]
fn renders_all_tokens() {
    let n = render_name(
        "{date}_{time}_{model}_{camera}_{original}",
        "GX010001.MP4",
        &cap(),
        Some("C346"),
        Some("HERO11"),
    );
    assert_eq!(n, "2026-06-01_143055_HERO11_C346_GX010001.MP4");
}

#[test]
fn traversal_camera_serial_is_neutralized() {
    let n = render_name(
        "{camera}_{original}",
        "GX010001.MP4",
        &cap(),
        Some("../../../tmp/evil"),
        Some("HERO11"),
    );
    assert!(!n.contains('/'), "no path separators survive: {n:?}");
    assert!(!n.contains('\\'));
    let joined = std::path::Path::new("/dest").join(&n);
    assert!(joined.starts_with("/dest"));
    assert!(
        !joined
            .components()
            .any(|c| matches!(c, std::path::Component::ParentDir)),
        "no `..` component survives: {joined:?}"
    );
}

#[test]
fn traversal_model_with_backslashes_is_neutralized() {
    let n = render_name(
        "{model}_{original}",
        "a.MP4",
        &cap(),
        None,
        Some("..\\..\\evil"),
    );
    assert!(
        !n.contains('\\'),
        "windows-style separators neutralized: {n:?}"
    );
    assert!(!n.contains('/'));
}

#[test]
fn rendered_name_that_is_a_dot_component_is_replaced() {
    assert_eq!(render_name("{camera}", "x", &cap(), Some(".."), None), "_");
    assert_eq!(render_name("{camera}", "x", &cap(), Some("."), None), "_");
    assert_eq!(render_name("", "x", &cap(), None, None), "_");
}

#[test]
fn normal_names_are_unchanged_by_sanitization() {
    let n = render_name(
        "{date}_{time}_{model}_{camera}_{original}",
        "GX010001.MP4",
        &cap(),
        Some("C3461324500001"),
        Some("HERO11"),
    );
    assert_eq!(n, "2026-06-01_143055_HERO11_C3461324500001_GX010001.MP4");
}

fn texts(list: &[&str]) -> Vec<String> {
    list.iter().map(|s| s.to_string()).collect()
}

#[test]
fn collision_appends_suffix_when_target_exists() {
    let existing = texts(&["/d/2026-06-01_GX010001.MP4"]);
    let resolved = resolve_collision("/d", "2026-06-01_GX010001.MP4", &existing, &vec![]);
    assert_eq!(resolved, "/d/2026-06-01_GX010001_1.MP4");
}

#[test]
fn collision_returns_name_when_free() {
    let resolved = resolve_collision("/d", "GX010001.MP4", &vec![], &vec![]);
    assert_eq!(resolved, "/d/GX010001.MP4");
}

#[test]
fn collision_respects_reserved_paths() {
    let reserved = texts(&["/d/GX010001.MP4"]);
    let resolved = resolve_collision("/d", "GX010001.MP4", &vec![], &reserved);
    assert_eq!(resolved, "/d/GX010001_1.MP4");
}

#[test]
fn collision_takes_the_first_free_number() {
    let existing = texts(&["/d/a.MP4", "/d/a_2.MP4"]);
    let reserved = texts(&["/d/a_1.MP4"]);
    assert_eq!(resolve_collision("/d", "a.MP4", &existing, &reserved), "/d/a_3.MP4");
    assert_eq!(resolve_collision("/d", "a", &texts(&["/d/a"]), &vec![]), "/d/a_1");
}

#[test]
fn names_are_made_safe() {
    assert_eq!(sanitize_file_name("a/b\\c"), "a_b_c");
    assert_eq!(sanitize_file_name(".."), "_");
    assert_eq!(sanitize_file_name(""), "_");
    assert_eq!(sanitize_file_name("ok.MP4"), "ok.MP4");
}
