//! The configuration as the settings window shows it, and the credentials in the
//! configuration file.

use crate::cloud::{is_valid_base_url, valid_base_url};
use crate::config::{CloudConfig, CloudKind, Config, Layout, MirrorMode};
use crate::text::{
    clone_texts, debug_quoted, debug_text, lemma_push_contains, opt_str_view, opt_view, same_text,
    text_lt, to_chars, trim, trimmed, views, CharSet,
};
use crate::toml_tree::{
    branch, branch_of_with_branch, branch_of_without, empty_table, has_key, is_table, text_at_root,
    toml_content, toml_empty, toml_get, toml_insert, toml_keys, toml_parse, toml_parsed,
    toml_remove, toml_text, toml_write, toml_written, well_nested, with_branch, without,
    TomlMap,
};
use vstd::prelude::*;

verus! {

// ---- the views --------------------------------------------------------------

/// A cloud destination as the settings window shows it.
#[derive(Debug, PartialEq, Eq)]
pub struct CloudView<S = String> {
    pub destination_id: S,
    pub base_url: S,
    pub username: S,
    pub remote_root: S,
    /// `off`, `auto` or `manual`.
    pub mirror_mode: S,
    pub chunk_threshold: u64,
    pub max_concurrency: usize,
    pub max_attempts: u32,
    /// Whether a password is known. It is not part of the configuration.
    pub has_password: bool,
}

impl View for CloudView<String> {
    type V = CloudView<Seq<char>>;

    open spec fn view(&self) -> CloudView<Seq<char>> {
        CloudView {
            destination_id: self.destination_id@,
            base_url: self.base_url@,
            username: self.username@,
            remote_root: self.remote_root@,
            mirror_mode: self.mirror_mode@,
            chunk_threshold: self.chunk_threshold,
            max_concurrency: self.max_concurrency,
            max_attempts: self.max_attempts,
            has_password: self.has_password,
        }
    }
}

impl Clone for CloudView<String> {
    fn clone(&self) -> (r: Self)
        ensures
            r@ == self@,
    {
        CloudView {
            destination_id: self.destination_id.clone(),
            base_url: self.base_url.clone(),
            username: self.username.clone(),
            remote_root: self.remote_root.clone(),
            mirror_mode: self.mirror_mode.clone(),
            chunk_threshold: self.chunk_threshold,
            max_concurrency: self.max_concurrency,
            max_attempts: self.max_attempts,
            has_password: self.has_password,
        }
    }
}

/// The configuration as the settings window shows it.
#[derive(Debug, PartialEq, Eq)]
pub struct ConfigView<S = String, L = Vec<String>> {
    pub dest_root: S,
    pub filename_template: S,
    pub include_proxies: bool,
    pub include_thumbnails: bool,
    pub verify: bool,
    pub space_headroom: u64,
    pub delete_after_verify: bool,
    pub auto_eject: bool,
    pub wired_ingest: bool,
    pub cloud: Option<CloudView<S>>,
    /// The destinations whose password stands in the configuration file. They are
    /// not part of the configuration.
    pub plaintext_credential_ids: L,
}

/// The view of an optional destination.
pub open spec fn cloud_views(c: Option<CloudView>) -> Option<CloudView<Seq<char>>> {
    match c {
        Some(c) => Some(c@),
        None => None,
    }
}

impl View for ConfigView<String, Vec<String>> {
    type V = ConfigView<Seq<char>, Seq<Seq<char>>>;

    open spec fn view(&self) -> ConfigView<Seq<char>, Seq<Seq<char>>> {
        ConfigView {
            dest_root: self.dest_root@,
            filename_template: self.filename_template@,
            include_proxies: self.include_proxies,
            include_thumbnails: self.include_thumbnails,
            verify: self.verify,
            space_headroom: self.space_headroom,
            delete_after_verify: self.delete_after_verify,
            auto_eject: self.auto_eject,
            wired_ingest: self.wired_ingest,
            cloud: cloud_views(self.cloud),
            plaintext_credential_ids: views(self.plaintext_credential_ids@),
        }
    }
}

impl Clone for ConfigView<String, Vec<String>> {
    fn clone(&self) -> (r: Self)
        ensures
            r@ == self@,
    {
        ConfigView {
            dest_root: self.dest_root.clone(),
            filename_template: self.filename_template.clone(),
            include_proxies: self.include_proxies,
            include_thumbnails: self.include_thumbnails,
            verify: self.verify,
            space_headroom: self.space_headroom,
            delete_after_verify: self.delete_after_verify,
            auto_eject: self.auto_eject,
            wired_ingest: self.wired_ingest,
            cloud: match &self.cloud {
                Some(c) => Some(c.clone()),
                None => None,
            },
            plaintext_credential_ids: clone_texts(&self.plaintext_credential_ids),
        }
    }
}

/// The name of a mirror mode.
pub open spec fn mode_name(m: MirrorMode) -> Seq<char> {
    match m {
        MirrorMode::Off => "off"@,
        MirrorMode::Auto => "auto"@,
        MirrorMode::Manual => "manual"@,
    }
}

/// The name of a mirror mode.
pub fn mirror_mode_to_str(m: MirrorMode) -> (r: &'static str)
    ensures
        r@ == mode_name(m),
{
    match m {
        MirrorMode::Off => "off",
        MirrorMode::Auto => "auto",
        MirrorMode::Manual => "manual",
    }
}

/// The mirror mode of a name.
pub open spec fn mode_of(s: Seq<char>) -> Option<MirrorMode> {
    if s == "off"@ {
        Some(MirrorMode::Off)
    } else if s == "auto"@ {
        Some(MirrorMode::Auto)
    } else if s == "manual"@ {
        Some(MirrorMode::Manual)
    } else {
        None
    }
}

/// What is said of a name that is no mirror mode.
pub open spec fn bad_mode(s: Seq<char>) -> Seq<char> {
    "invalid mirror mode "@ + debug_quoted(s) + " (want off|auto|manual)"@
}

/// The mirror mode of a name, or what is wrong with it.
pub fn parse_mirror_mode(s: &str) -> (r: std::result::Result<MirrorMode, String>)
    ensures
        match r {
            Ok(m) => mode_of(s@) == Some(m),
            Err(e) => mode_of(s@) is None && e@ == bad_mode(s@),
        },
{
    if same_text(s, "off") {
        Ok(MirrorMode::Off)
    } else if same_text(s, "auto") {
        Ok(MirrorMode::Auto)
    } else if same_text(s, "manual") {
        Ok(MirrorMode::Manual)
    } else {
        let mut e = "invalid mirror mode ".to_owned();
        e.append(debug_text(s).as_str());
        e.append(" (want off|auto|manual)");
        Err(e)
    }
}

/// A destination as the settings window shows it.
pub open spec fn cloud_shown(c: CloudConfig<Seq<char>>, has_password: bool) -> CloudView<Seq<char>> {
    CloudView {
        destination_id: c.destination_id,
        base_url: c.base_url,
        username: c.username,
        remote_root: c.remote_root,
        mirror_mode: mode_name(c.mirror_mode),
        chunk_threshold: c.chunk_threshold,
        max_concurrency: c.max_concurrency,
        max_attempts: c.max_attempts,
        has_password,
    }
}

/// The configuration as the settings window shows it.
pub open spec fn shown(cfg: Config<Seq<char>>, has_password: bool) -> ConfigView<
    Seq<char>,
    Seq<Seq<char>>,
> {
    ConfigView {
        dest_root: cfg.dest_root,
        filename_template: cfg.filename_template,
        include_proxies: cfg.include_proxies,
        include_thumbnails: cfg.include_thumbnails,
        verify: cfg.verify,
        space_headroom: cfg.space_headroom,
        delete_after_verify: cfg.delete_after_verify,
        auto_eject: cfg.auto_eject,
        wired_ingest: cfg.wired_ingest,
        cloud: match cfg.cloud {
            Some(c) => Some(cloud_shown(c, has_password)),
            None => None,
        },
        plaintext_credential_ids: seq![],
    }
}

/// A destination as the settings window shows it.
fn cloud_to_view(c: &CloudConfig, has_password: bool) -> (r: CloudView)
    ensures
        r@ == cloud_shown(c@, has_password),
{
    CloudView {
        destination_id: c.destination_id.clone(),
        base_url: c.base_url.clone(),
        username: c.username.clone(),
        remote_root: c.remote_root.clone(),
        mirror_mode: mirror_mode_to_str(c.mirror_mode).to_owned(),
        chunk_threshold: c.chunk_threshold,
        max_concurrency: c.max_concurrency,
        max_attempts: c.max_attempts,
        has_password,
    }
}

/// The configuration as the settings window shows it. The caller knows whether
/// there is a password.
pub fn config_to_view(cfg: &Config, has_password: bool) -> (r: ConfigView)
    ensures
        r@ == shown(cfg@, has_password),
{
    let ids: Vec<String> = Vec::new();
    assert(views(ids@) =~= seq![]);
    ConfigView {
        dest_root: cfg.dest_root.clone(),
        filename_template: cfg.filename_template.clone(),
        include_proxies: cfg.include_proxies,
        include_thumbnails: cfg.include_thumbnails,
        verify: cfg.verify,
        space_headroom: cfg.space_headroom,
        delete_after_verify: cfg.delete_after_verify,
        auto_eject: cfg.auto_eject,
        wired_ingest: cfg.wired_ingest,
        cloud: match &cfg.cloud {
            Some(c) => Some(cloud_to_view(c, has_password)),
            None => None,
        },
        plaintext_credential_ids: ids,
    }
}

/// True of a text that is empty or blank.
pub open spec fn blank(s: Seq<char>) -> bool {
    trimmed(s, CharSet::Space).len() == 0
}

/// True of a text that is empty or blank.
fn is_blank(s: &str) -> (r: bool)
    ensures
        r == blank(s@),
{
    trim(s, CharSet::Space).as_str().is_empty()
}

/// What is wrong with a destination, if anything is. The first fault counts.
pub open spec fn cloud_fault(c: CloudView<Seq<char>>) -> Option<Seq<char>> {
    if mode_of(c.mirror_mode) is None {
        Some(bad_mode(c.mirror_mode))
    } else if blank(c.destination_id) {
        Some("cloud destination id must not be empty"@)
    } else if blank(c.base_url) {
        Some("cloud base url must not be empty"@)
    } else if !valid_base_url(c.base_url) {
        Some(
            "cloud base url "@ + debug_quoted(c.base_url)
                + " must be https:// with a host (http:// is allowed only for loopback hosts like localhost/127.0.0.1)"@,
        )
    } else if blank(c.remote_root) {
        Some("cloud remote root must not be empty"@)
    } else if blank(c.username) {
        Some("cloud username must not be empty"@)
    } else if c.max_concurrency == 0 {
        Some("cloud max concurrency must be at least 1"@)
    } else if c.max_attempts == 0 {
        Some("cloud max attempts must be at least 1"@)
    } else {
        None
    }
}

/// What is wrong with a configuration, if anything is. The first fault counts.
pub open spec fn view_fault(v: ConfigView<Seq<char>, Seq<Seq<char>>>) -> Option<Seq<char>> {
    if blank(v.dest_root) {
        Some("destination folder must not be empty"@)
    } else if blank(v.filename_template) {
        Some("filename template must not be empty"@)
    } else {
        match v.cloud {
            Some(c) => cloud_fault(c),
            None => None,
        }
    }
}

/// Checks a destination.
fn validate_cloud(c: &CloudView) -> (r: std::result::Result<(), String>)
    ensures
        match r {
            Ok(_) => cloud_fault(c@) is None,
            Err(e) => cloud_fault(c@) == Some(e@),
        },
{
    match parse_mirror_mode(c.mirror_mode.as_str()) {
        Ok(_) => {},
        Err(e) => return Err(e),
    }
    if is_blank(c.destination_id.as_str()) {
        return Err("cloud destination id must not be empty".to_owned());
    }
    if is_blank(c.base_url.as_str()) {
        return Err("cloud base url must not be empty".to_owned());
    }
    if !is_valid_base_url(c.base_url.as_str()) {
        let mut e = "cloud base url ".to_owned();
        e.append(debug_text(c.base_url.as_str()).as_str());
        e.append(
            " must be https:// with a host (http:// is allowed only for loopback hosts like localhost/127.0.0.1)",
        );
        return Err(e);
    }
    if is_blank(c.remote_root.as_str()) {
        return Err("cloud remote root must not be empty".to_owned());
    }
    if is_blank(c.username.as_str()) {
        return Err("cloud username must not be empty".to_owned());
    }
    if c.max_concurrency == 0 {
        return Err("cloud max concurrency must be at least 1".to_owned());
    }
    if c.max_attempts == 0 {
        return Err("cloud max attempts must be at least 1".to_owned());
    }
    Ok(())
}

/// Checks a configuration from the settings window; the error is for the user.
pub fn validate_view(view: &ConfigView) -> (r: std::result::Result<(), String>)
    ensures
        match r {
            Ok(_) => view_fault(view@) is None,
            Err(e) => view_fault(view@) == Some(e@),
        },
{
    if is_blank(view.dest_root.as_str()) {
        return Err("destination folder must not be empty".to_owned());
    }
    if is_blank(view.filename_template.as_str()) {
        return Err("filename template must not be empty".to_owned());
    }
    match &view.cloud {
        Some(c) => validate_cloud(c),
        None => Ok(()),
    }
}

/// The destination that the settings window stands for.
pub open spec fn cloud_meant(c: CloudView<Seq<char>>) -> CloudConfig<Seq<char>> {
    CloudConfig {
        kind: CloudKind::Nextcloud,
        destination_id: trimmed(c.destination_id, CharSet::Space),
        base_url: trimmed(c.base_url, CharSet::Space),
        username: trimmed(c.username, CharSet::Space),
        remote_root: trimmed(c.remote_root, CharSet::Space),
        mirror_mode: mode_of(c.mirror_mode)->0,
        chunk_threshold: c.chunk_threshold,
        tls_ca_pem: None,
        max_concurrency: c.max_concurrency,
        max_attempts: c.max_attempts,
    }
}

/// The configuration that the settings window stands for.
pub open spec fn meant(v: ConfigView<Seq<char>, Seq<Seq<char>>>) -> Config<Seq<char>> {
    Config {
        dest_root: trimmed(v.dest_root, CharSet::Space),
        filename_template: v.filename_template,
        include_proxies: v.include_proxies,
        include_thumbnails: v.include_thumbnails,
        layout: Layout::Flat,
        verify: v.verify,
        space_headroom: v.space_headroom,
        cloud: match v.cloud {
            Some(c) => Some(cloud_meant(c)),
            None => None,
        },
        delete_after_verify: v.delete_after_verify,
        auto_eject: v.auto_eject,
        wired_ingest: v.wired_ingest,
    }
}

/// The configuration that the settings window stands for, unless something is wrong
/// with it.
pub fn view_to_config(view: &ConfigView) -> (r: std::result::Result<Config, String>)
    ensures
        match r {
            Ok(cfg) => view_fault(view@) is None && cfg@ == meant(view@),
            Err(e) => view_fault(view@) == Some(e@),
        },
{
    match validate_view(view) {
        Ok(_) => {},
        Err(e) => return Err(e),
    }
    let cloud = match &view.cloud {
        None => None,
        Some(c) => {
            let mirror_mode = match parse_mirror_mode(c.mirror_mode.as_str()) {
                Ok(m) => m,
                Err(e) => return Err(e),
            };
            Some(
                CloudConfig {
                    kind: CloudKind::Nextcloud,
                    destination_id: trim(c.destination_id.as_str(), CharSet::Space),
                    base_url: trim(c.base_url.as_str(), CharSet::Space),
                    username: trim(c.username.as_str(), CharSet::Space),
                    remote_root: trim(c.remote_root.as_str(), CharSet::Space),
                    mirror_mode,
                    chunk_threshold: c.chunk_threshold,
                    tls_ca_pem: None,
                    max_concurrency: c.max_concurrency,
                    max_attempts: c.max_attempts,
                },
            )
        },
    };
    Ok(
        Config {
            dest_root: trim(view.dest_root.as_str(), CharSet::Space),
            filename_template: view.filename_template.clone(),
            include_proxies: view.include_proxies,
            include_thumbnails: view.include_thumbnails,
            layout: Layout::Flat,
            verify: view.verify,
            space_headroom: view.space_headroom,
            cloud,
            delete_after_verify: view.delete_after_verify,
            auto_eject: view.auto_eject,
            wired_ingest: view.wired_ingest,
        },
    )
}

// ---- laws -------------------------------------------------------------------

/// The name of a mirror mode stands for it, and for no other.
pub proof fn mode_names_read_back(m: MirrorMode)
    ensures
        mode_of(mode_name(m)) == Some(m),
{
    reveal_strlit("off");
    reveal_strlit("auto");
    reveal_strlit("manual");
    assert("off"@.len() == 3);
    assert("auto"@.len() == 4);
    assert("manual"@.len() == 6);
}

/// True of a text without blanks at its ends.
pub open spec fn tidy(s: Seq<char>) -> bool {
    trimmed(s, CharSet::Space) == s
}

/// What the settings window shows of a configuration stands for that configuration,
/// provided that its texts have no blanks at their ends. A certificate authority
/// is not shown, so it does not survive.
pub proof fn shown_configuration_is_meant(cfg: Config<Seq<char>>, has_password: bool)
    requires
        tidy(cfg.dest_root),
        cfg.cloud matches Some(c) ==> tidy(c.destination_id) && tidy(c.base_url) && tidy(c.username)
            && tidy(c.remote_root) && c.tls_ca_pem is None,
    ensures
        meant(shown(cfg, has_password)) == cfg,
{
    if let Some(c) = cfg.cloud {
        mode_names_read_back(c.mirror_mode);
        assert(cloud_meant(cloud_shown(c, has_password)) == c);
    }
}

// ---- credentials in the configuration file ----------------------------------

/// What stands under a key of what stands under `id` in the credentials of a
/// document, if it is a string.
pub open spec fn credential_field(doc: TomlMap, id: Seq<char>, field: Seq<char>) -> Option<
    Seq<char>,
> {
    let creds = branch(doc, "credentials"@);
    let entry = branch(creds, id);
    if has_key(doc, "credentials"@) && has_key(creds, id) && has_key(entry, field) {
        text_at_root(branch(entry, field))
    } else {
        None
    }
}

/// The password of `id` that stands in a document.
pub open spec fn password_in(doc: TomlMap, id: Seq<char>) -> Option<Seq<char>> {
    credential_field(doc, id, "app_password"@)
}

/// True if a password of `id` that is not empty stands in a document.
pub open spec fn exposed(doc: TomlMap, id: Seq<char>) -> bool {
    password_in(doc, id) is Some && password_in(doc, id)->0.len() > 0
}

/// True of texts that rise, so that none occurs twice.
pub open spec fn rising(v: Seq<Seq<char>>) -> bool {
    forall|i: int, j: int| 0 <= i < j < v.len() ==> text_lt(#[trigger] v[i], #[trigger] v[j])
}

/// The password of `id` that stands in a document.
pub fn app_password_in(doc: &toml::Value, id: &str) -> (r: Option<String>)
    ensures
        opt_view(r) == password_in(toml_content(*doc), id@),
{
    let creds = match toml_get(doc, "credentials") {
        Some(c) => c,
        None => return None,
    };
    let entry = match toml_get(&creds, id) {
        Some(e) => e,
        None => return None,
    };
    match toml_get(&entry, "app_password") {
        Some(p) => toml_text(&p),
        None => None,
    }
}

/// The password of `id` that stands in the text of a configuration file. A text that
/// cannot be read holds none.
pub fn plaintext_app_password(raw: &str, id: &str) -> (r: Option<String>)
    ensures
        match toml_parsed(raw@) {
            Ok(doc) => well_nested(doc) && opt_view(r) == password_in(doc, id@),
            Err(_) => r is None,
        },
{
    match toml_parse(raw) {
        Ok(doc) => app_password_in(&doc, id),
        Err(_) => None,
    }
}

/// The destinations whose password stands in a document, sorted.
pub fn exposed_ids(doc: &toml::Value) -> (r: Vec<String>)
    ensures
        forall|id: Seq<char>| #[trigger]
            views(r@).contains(id) <==> exposed(toml_content(*doc), id),
        rising(views(r@)),
{
    let ghost m = toml_content(*doc);
    let mut out: Vec<String> = Vec::new();
    let creds = match toml_get(doc, "credentials") {
        Some(c) => c,
        None => {
            assert(views(out@).len() == 0);
            return out;
        },
    };
    let keys = match toml_keys(&creds) {
        Some(k) => k,
        None => {
            proof {
                assert(views(out@).len() == 0);
                assert forall|id: Seq<char>| !exposed(m, id) by {
                    assert(!has_key(toml_content(creds), id));
                }
            }
            return out;
        },
    };
    let mut i: usize = 0;
    assert(views(out@).len() == 0);
    while i < keys.len()
        invariant
            i <= keys@.len(),
            m == toml_content(*doc),
            has_key(m, "credentials"@),
            toml_content(creds) == branch(m, "credentials"@),
            forall|k: Seq<char>| #[trigger]
                views(keys@).contains(k) <==> has_key(toml_content(creds), k),
            forall|a: int, b: int|
                0 <= a < b < keys@.len() ==> text_lt((#[trigger] keys@[a])@, (#[trigger] keys@[b])@),
            forall|id: Seq<char>| #[trigger]
                views(out@).contains(id) <==> views(keys@).take(i as int).contains(id) && exposed(
                    m,
                    id,
                ),
            rising(views(out@)),
        decreases keys.len() - i,
    {
        let ghost k = keys@[i as int]@;
        let ghost seen = views(keys@).take(i as int);
        let ghost now = views(keys@).take(i + 1);
        let ghost before = views(out@);
        proof {
            assert(now =~= seen.push(k));
        }
        let open = match app_password_in(doc, keys[i].as_str()) {
            Some(p) => !p.as_str().is_empty(),
            None => false,
        };
        assert(open == exposed(m, k));
        if open {
            let key = keys[i].clone();
            out.push(key);
            assert(views(out@) =~= before.push(k));
        }
        proof {
            assert forall|id: Seq<char>| #[trigger] views(out@).contains(id) <==> now.contains(id)
                && exposed(m, id) by {
                assert(before.contains(id) <==> seen.contains(id) && exposed(m, id));
                lemma_push_contains(seen, k, id);
                lemma_push_contains(before, k, id);
            }
            assert forall|a: int, b: int| 0 <= a < b < views(out@).len() implies text_lt(
                #[trigger] views(out@)[a],
                #[trigger] views(out@)[b],
            ) by {
                if open && b == before.len() {
                    assert(before.contains(before[a]));
                    assert(seen.contains(before[a]));
                    let j = choose|j: int| 0 <= j < seen.len() && seen[j] == before[a];
                    assert(keys@[j]@ == before[a]);
                } else {
                    assert(views(out@)[a] == before[a] && views(out@)[b] == before[b]);
                }
            }
        }
        i += 1;
    }
    proof {
        assert(views(keys@).take(i as int) =~= views(keys@));
        assert forall|id: Seq<char>| #[trigger] views(out@).contains(id) <==> exposed(m, id) by {
            assert(views(keys@).contains(id) <==> has_key(toml_content(creds), id));
        }
    }
    out
}

/// The destinations whose password stands in the text of a configuration file,
/// sorted. A text that cannot be read holds none.
pub fn plaintext_credential_ids(raw: &str) -> (r: Vec<String>)
    ensures
        match toml_parsed(raw@) {
            Ok(doc) => (forall|id: Seq<char>| #[trigger]
                views(r@).contains(id) <==> exposed(doc, id)) && rising(views(r@)),
            Err(_) => r@.len() == 0,
        },
{
    match toml_parse(raw) {
        Ok(doc) => exposed_ids(&doc),
        Err(_) => Vec::new(),
    }
}

/// True of a document without keys.
pub open spec fn keyless(m: TomlMap) -> bool {
    forall|k: Seq<char>| !(#[trigger] has_key(m, k))
}

/// The credentials without the password of `id`. An entry that held nothing else is
/// dropped.
pub open spec fn creds_stripped(creds: TomlMap, id: Seq<char>) -> TomlMap {
    if has_key(creds, id) && is_table(branch(creds, id)) {
        let entry = without(branch(creds, id), "app_password"@);
        if keyless(entry) {
            without(creds, id)
        } else {
            with_branch(creds, id, entry)
        }
    } else {
        creds
    }
}

/// The document without the password of `id`. Credentials that are then empty are
/// dropped.
pub open spec fn stripped(doc: TomlMap, id: Seq<char>) -> TomlMap {
    if has_key(doc, "credentials"@) && is_table(branch(doc, "credentials"@)) {
        let creds = creds_stripped(branch(doc, "credentials"@), id);
        if keyless(creds) {
            without(doc, "credentials"@)
        } else {
            with_branch(doc, "credentials"@, creds)
        }
    } else {
        doc
    }
}

/// True of a table without keys.
fn is_keyless(v: &toml::Value) -> (r: bool)
    requires
        is_table(toml_content(*v)),
    ensures
        r == keyless(toml_content(*v)),
{
    match toml_keys(v) {
        Some(keys) => {
            let n: usize = keys.len();
            proof {
                if n > 0 {
                    assert(views(keys@)[0] == keys@[0]@);
                    assert(views(keys@).contains(keys@[0]@));
                    assert(has_key(toml_content(*v), keys@[0]@));
                } else {
                    assert(views(keys@).len() == 0);
                    assert forall|k: Seq<char>| !(#[trigger] has_key(toml_content(*v), k)) by {
                        assert(!views(keys@).contains(k));
                    }
                }
            }
            n == 0
        },
        None => true,
    }
}

/// Removes the password of `id` from credentials.
fn strip_entry(creds: &mut toml::Value, id: &str)
    requires
        is_table(toml_content(*old(creds))),
    ensures
        toml_content(*final(creds)) == creds_stripped(toml_content(*old(creds)), id@),
        is_table(toml_content(*final(creds))),
{
    let ghost c = toml_content(*creds);
    if let Some(entry) = toml_get(creds, id) {
        if toml_keys(&entry).is_some() {
            let mut rest = entry;
            proof {
                branch_of_without(toml_content(rest), "app_password"@, "app_password"@);
            }
            toml_remove(&mut rest, "app_password");
            if is_keyless(&rest) {
                proof {
                    branch_of_without(c, id@, id@);
                }
                toml_remove(creds, id);
            } else {
                proof {
                    branch_of_with_branch(c, id@, toml_content(rest), id@);
                }
                toml_insert(creds, id, rest);
            }
        }
    }
}

/// Removes the password of `id` from a document.
pub fn strip_password(doc: &mut toml::Value, id: &str)
    ensures
        toml_content(*final(doc)) == stripped(toml_content(*old(doc)), id@),
{
    if toml_keys(doc).is_none() {
        return;
    }
    if let Some(creds) = toml_get(doc, "credentials") {
        if toml_keys(&creds).is_some() {
            let mut rest = creds;
            strip_entry(&mut rest, id);
            if is_keyless(&rest) {
                toml_remove(doc, "credentials");
            } else {
                toml_insert(doc, "credentials", rest);
            }
        }
    }
}

/// What an attempt at a file came to: `what`, the path and the error.
pub open spec fn file_error(what: Seq<char>, path: Seq<char>, error: Seq<char>) -> Seq<char> {
    what + path + ": "@ + error
}

/// What an attempt at a file came to.
fn error_at(what: &str, path: &str, error: &str) -> (r: String)
    ensures
        r@ == file_error(what@, path@, error@),
{
    let mut s = what.to_owned();
    s.append(path);
    s.append(": ");
    s.append(error);
    s
}

/// The text of the configuration file at `path` without the password of `id`. The
/// user name stays, so that the credential still resolves once the password is in
/// the keychain.
pub fn strip_credential_password(path: &str, raw: &str, id: &str) -> (r: std::result::Result<
    String,
    String,
>)
    ensures
        match toml_parsed(raw@) {
            Ok(doc) => well_nested(doc) && match (toml_written(stripped(doc, id@)), r) {
                (Ok(t), Ok(body)) => body@ == t,
                (Err(t), Err(e)) => e@ == file_error("serialize "@, path@, t),
                _ => false,
            },
            Err(t) => r matches Err(e) && e@ == file_error("parse "@, path@, t),
        },
{
    match toml_parse(raw) {
        Ok(parsed) => {
            let mut doc = parsed;
            strip_password(&mut doc, id);
            match toml_write(&doc) {
                Ok(body) => Ok(body),
                Err(e) => Err(error_at("serialize ", path, e.as_str())),
            }
        },
        Err(e) => Err(error_at("parse ", path, e.as_str())),
    }
}

/// The document that holds nothing but the credentials of another one.
pub open spec fn credentials_only(doc: TomlMap) -> TomlMap {
    with_branch(empty_table(), "credentials"@, branch(doc, "credentials"@))
}

/// The credentials in the text of a configuration file, as a text of their own;
/// `None` if there are none or the text cannot be read.
pub fn extract_credentials_table(raw: &str) -> (r: Option<String>)
    ensures
        opt_view(r) == credentials_text(raw@),
{
    match toml_parse(raw) {
        Ok(doc) => match toml_get(&doc, "credentials") {
            Some(creds) => {
                let mut wrapper = toml_empty();
                assert(is_table(toml_content(wrapper)));
                toml_insert(&mut wrapper, "credentials", creds);
                match toml_write(&wrapper) {
                    Ok(t) => Some(t),
                    Err(_) => None,
                }
            },
            None => None,
        },
        Err(_) => None,
    }
}

/// The credentials in the text of a configuration file, as a text of their own.
pub open spec fn credentials_text(raw: Seq<char>) -> Option<Seq<char>> {
    match toml_parsed(raw) {
        Ok(doc) => if has_key(doc, "credentials"@) {
            match toml_written(credentials_only(doc)) {
                Ok(t) => Some(t),
                Err(_) => None,
            }
        } else {
            None
        },
        Err(_) => None,
    }
}

/// A configuration text with credentials behind it, an empty line between them.
pub open spec fn with_credentials(body: Seq<char>, creds: Option<Seq<char>>) -> Seq<char> {
    match creds {
        Some(c) => {
            let ended = if body.len() > 0 && body.last() == '\n' {
                body
            } else {
                body.push('\n')
            };
            ended.push('\n') + c
        },
        None => body,
    }
}

/// A configuration text with credentials behind it.
pub fn append_credentials(body: &str, creds: Option<&str>) -> (r: String)
    ensures
        r@ == with_credentials(body@, opt_str_view(creds)),
{
    let mut s = body.to_owned();
    if let Some(c) = creds {
        let v = to_chars(body);
        let n: usize = v.len();
        if n == 0 || v[n - 1] != '\n' {
            s.push('\n');
        }
        s.push('\n');
        s.append(c);
    }
    s
}

/// The text that is written to the configuration file: the configuration, and the
/// credentials that stood in the file before.
pub fn config_file_text(body: &str, existing: Option<&str>) -> (r: String)
    ensures
        r@ == with_credentials(
            body@,
            match existing {
                Some(raw) => credentials_text(raw@),
                None => None,
            },
        ),
{
    let creds = match existing {
        Some(raw) => extract_credentials_table(raw),
        None => None,
    };
    match creds {
        Some(c) => append_credentials(body, Some(c.as_str())),
        None => append_credentials(body, None),
    }
}

proof fn lemma_tables(doc: TomlMap, id: Seq<char>, field: Seq<char>)
    requires
        well_nested(doc),
        has_key(doc, "credentials"@),
    ensures
        has_key(branch(doc, "credentials"@), id) ==> is_table(branch(doc, "credentials"@)),
        has_key(branch(branch(doc, "credentials"@), id), field) ==> is_table(
            branch(branch(doc, "credentials"@), id),
        ),
{
    let root = seq!["credentials"@];
    let creds = branch(doc, "credentials"@);
    let entry = branch(creds, id);
    assert(root + Seq::<Seq<char>>::empty() =~= root);
    assert(root + seq![id] =~= root.push(id));
    assert(seq![id] + Seq::<Seq<char>>::empty() =~= seq![id]);
    assert(root + (seq![id] + seq![field]) =~= root.push(id).push(field));
    if has_key(creds, id) {
        assert(doc.dom().contains(root.push(id)));
    }
    if has_key(entry, field) {
        assert(creds.dom().contains(seq![id] + seq![field]));
        assert(doc.dom().contains(root.push(id).push(field)));
    }
}

/// Stripping takes away the password of `id` and nothing else: every other field of
/// its entry stays, and so do all fields of all other destinations.
pub proof fn stripping_takes_one_password(
    doc: TomlMap,
    id: Seq<char>,
    other: Seq<char>,
    field: Seq<char>,
)
    requires
        well_nested(doc),
    ensures
        password_in(stripped(doc, id), id) is None,
        field != "app_password"@ ==> credential_field(stripped(doc, id), id, field)
            == credential_field(doc, id, field),
        other != id ==> credential_field(stripped(doc, id), other, field) == credential_field(
            doc,
            other,
            field,
        ),
{
    let c = branch(doc, "credentials"@);
    let e = branch(c, id);
    let e2 = without(e, "app_password"@);
    let c2 = creds_stripped(c, id);
    branch_of_without(e, "app_password"@, field);
    branch_of_without(e, "app_password"@, "app_password"@);
    branch_of_without(c, id, other);
    branch_of_without(c, id, id);
    branch_of_with_branch(c, id, e2, other);
    branch_of_with_branch(c, id, e2, id);
    branch_of_without(doc, "credentials"@, "credentials"@);
    branch_of_with_branch(doc, "credentials"@, c2, "credentials"@);
    if has_key(doc, "credentials"@) {
        lemma_tables(doc, id, field);
        lemma_tables(doc, id, "app_password"@);
        lemma_tables(doc, other, field);
        if is_table(c) {
            if keyless(c2) {
                assert(!has_key(c2, other));
                assert(!has_key(c2, id));
            } else {
                assert(branch(stripped(doc, id), "credentials"@) == c2);
            }
            if has_key(c, id) && is_table(e) && keyless(e2) {
                assert(!has_key(e2, field));
            }
        }
    }
}

} // verus!
