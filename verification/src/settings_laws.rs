//! Laws of settings and credentials: which settings are accepted, what they stand for, and
//! where a credential comes from.

use crate::cloud::valid_base_url;
use crate::config::{CloudConfig, Config, MirrorMode};
use crate::config_io::{
    blank, cloud_meant, cloud_shown, credential_field, credentials_only, creds_stripped, exposed,
    keyless, meant, mode_name, mode_names_read_back, mode_of, password_in, shown, stripped,
    view_fault, with_credentials, CloudView, ConfigView,
};
use crate::credentials::{
    credential_in, credentials_readable, entry_of, entry_readable, overridden, Secret, SecretModel,
};
use crate::keyring_store::{offers_password, resolved};
use crate::text::{is_space, trimmed, CharSet};
use crate::text_laws::trimming_takes_the_ends;
use crate::toml_tree::{
    branch, branch_of_with_branch, branch_of_without, empty_table, has_key, is_table, with_branch,
    without, TomlMap,
};
use vstd::prelude::*;

verus! {

// ---- settings ---------------------------------------------------------------

/// A text is blank if and only if it holds nothing but white space.
pub proof fn a_blank_text_holds_only_spaces(s: Seq<char>)
    ensures
        blank(s) <==> forall|i: int| 0 <= i < s.len() ==> is_space(#[trigger] s[i]),
{
    trimming_takes_the_ends(s, CharSet::Space);
    let (a, b) = choose|a: int, b: int|
        0 <= a <= b <= s.len() && trimmed(s, CharSet::Space) == #[trigger] s.subrange(a, b) && (
        forall|i: int| 0 <= i < a ==> CharSet::Space.has(#[trigger] s[i])) && (forall|i: int|
            b <= i < s.len() ==> CharSet::Space.has(#[trigger] s[i])) && (a < b
            ==> !CharSet::Space.has(s[a]) && !CharSet::Space.has(s[b - 1]));
    if blank(s) {
        assert(a == b);
        assert forall|i: int| 0 <= i < s.len() implies is_space(#[trigger] s[i]) by {
            assert(CharSet::Space.has(s[i]));
        }
    }
    if forall|i: int| 0 <= i < s.len() ==> is_space(#[trigger] s[i]) {
        if a < b {
            assert(is_space(s[a]));
        }
    }
}

/// A name stands for a mirror mode if and only if it is the name of that mode.
pub proof fn a_mode_has_one_name(s: Seq<char>, m: MirrorMode)
    ensures
        mode_of(s) == Some(m) <==> s == mode_name(m),
        mode_name(MirrorMode::Off) == "off"@,
        mode_name(MirrorMode::Auto) == "auto"@,
        mode_name(MirrorMode::Manual) == "manual"@,
{
    mode_names_read_back(m);
}

/// Settings are accepted if and only if nothing that is needed is missing: a destination
/// folder and a template, and of a cloud destination a known mode, an id, an address that may
/// be used, a root, a user name, and at least one upload at a time and one attempt.
pub proof fn only_whole_settings_are_accepted(v: ConfigView<Seq<char>, Seq<Seq<char>>>)
    ensures
        view_fault(v) is None <==> {
            &&& !blank(v.dest_root)
            &&& !blank(v.filename_template)
            &&& v.cloud is Some ==> {
                let c = v.cloud->0;
                &&& c.mirror_mode == "off"@ || c.mirror_mode == "auto"@ || c.mirror_mode
                    == "manual"@
                &&& !blank(c.destination_id) && !blank(c.base_url) && valid_base_url(c.base_url)
                &&& !blank(c.remote_root) && !blank(c.username)
                &&& c.max_concurrency >= 1 && c.max_attempts >= 1
            }
        },
        blank(v.dest_root) ==> view_fault(v) == Some("destination folder must not be empty"@),
        !blank(v.dest_root) && blank(v.filename_template) ==> view_fault(v) == Some(
            "filename template must not be empty"@,
        ),
{
}

/// What is shown of settings is what they are, switch by switch.
pub proof fn each_setting_is_shown_as_it_is(
    cfg: Config<Seq<char>>,
    c: CloudConfig<Seq<char>>,
    has_password: bool,
)
    ensures
        ({
            let v = shown(cfg, has_password);
            let w = cloud_shown(c, has_password);
            &&& v.dest_root == cfg.dest_root && v.filename_template == cfg.filename_template
            &&& v.include_proxies == cfg.include_proxies && v.include_thumbnails
                == cfg.include_thumbnails
            &&& v.verify == cfg.verify && v.space_headroom == cfg.space_headroom
            &&& v.delete_after_verify == cfg.delete_after_verify && v.auto_eject == cfg.auto_eject
            &&& v.wired_ingest == cfg.wired_ingest && v.cloud is Some == cfg.cloud is Some
            &&& cfg.cloud == Some(c) ==> v.cloud == Some(w)
            &&& w.destination_id == c.destination_id && w.base_url == c.base_url
            &&& w.username == c.username && w.remote_root == c.remote_root
            &&& mode_of(w.mirror_mode) == Some(c.mirror_mode)
            &&& w.chunk_threshold == c.chunk_threshold && w.max_concurrency == c.max_concurrency
            &&& w.max_attempts == c.max_attempts && w.has_password == has_password
        }),
{
    mode_names_read_back(c.mirror_mode);
}

/// What settings stand for is what they say, switch by switch; only the blanks around texts
/// are left out.
pub proof fn each_setting_means_what_it_says(
    v: ConfigView<Seq<char>, Seq<Seq<char>>>,
    w: CloudView<Seq<char>>,
)
    ensures
        ({
            let cfg = meant(v);
            let c = cloud_meant(w);
            &&& cfg.dest_root == trimmed(v.dest_root, CharSet::Space)
            &&& cfg.filename_template == v.filename_template
            &&& cfg.include_proxies == v.include_proxies && cfg.include_thumbnails
                == v.include_thumbnails
            &&& cfg.verify == v.verify && cfg.space_headroom == v.space_headroom
            &&& cfg.delete_after_verify == v.delete_after_verify && cfg.auto_eject == v.auto_eject
            &&& cfg.wired_ingest == v.wired_ingest && cfg.cloud is Some == v.cloud is Some
            &&& v.cloud == Some(w) ==> cfg.cloud == Some(c)
            &&& c.destination_id == trimmed(w.destination_id, CharSet::Space)
            &&& c.base_url == trimmed(w.base_url, CharSet::Space)
            &&& c.username == trimmed(w.username, CharSet::Space)
            &&& c.remote_root == trimmed(w.remote_root, CharSet::Space)
            &&& w.mirror_mode == "auto"@ ==> c.mirror_mode == MirrorMode::Auto
            &&& w.mirror_mode == "manual"@ ==> c.mirror_mode == MirrorMode::Manual
            &&& w.mirror_mode == "off"@ ==> c.mirror_mode == MirrorMode::Off
            &&& c.chunk_threshold == w.chunk_threshold && c.max_concurrency == w.max_concurrency
            &&& c.max_attempts == w.max_attempts
        }),
{
    mode_names_read_back(MirrorMode::Auto);
    mode_names_read_back(MirrorMode::Manual);
    mode_names_read_back(MirrorMode::Off);
}

/// The text of a configuration file begins with the configuration and ends with the
/// credentials that it is to keep, an empty line between them; without any it is the
/// configuration alone.
pub proof fn credentials_stand_behind_the_configuration(body: Seq<char>, creds: Seq<char>)
    ensures
        with_credentials(body, None) == body,
        body.len() > 0 && body.last() == '\n' ==> with_credentials(body, Some(creds)) == body
            + seq!['\n'] + creds,
        body.len() == 0 || body.last() != '\n' ==> with_credentials(body, Some(creds)) == body
            + seq!['\n', '\n'] + creds,
{
    assert(body.push('\n') + creds =~= body + seq!['\n'] + creds);
    assert(body.push('\n').push('\n') + creds =~= body + seq!['\n', '\n'] + creds);
}

// ---- credentials ------------------------------------------------------------

/// The password of a destination is that of the environment, else that of the keychain, else
/// that of the configuration file; its user name is that of the environment, else that of the
/// file, else empty. An empty password in the file counts as none, and without a password
/// there is no credential. A keychain that cannot be read is an error.
pub proof fn a_credential_comes_from_the_first_source(
    env_username: Option<Seq<char>>,
    env_app_password: Option<Seq<char>>,
    stored: Option<Seq<char>>,
    fallback: Option<SecretModel>,
    error: Seq<char>,
)
    ensures
        ({
            let r = resolved(env_username, env_app_password, Ok(stored), fallback);
            let in_file = fallback is Some && fallback->0.app_password.len() > 0;
            &&& r is Ok
            &&& r->Ok_0 is Some <==> env_app_password is Some || stored is Some || in_file
            &&& r->Ok_0 matches Some(s) ==> {
                &&& env_app_password is Some ==> s.app_password == env_app_password->0
                &&& env_app_password is None && stored is Some ==> s.app_password == stored->0
                &&& env_app_password is None && stored is None ==> s.app_password
                    == fallback->0.app_password
                &&& env_username is Some ==> s.username == env_username->0
                &&& env_username is None && fallback is Some ==> s.username == fallback->0.username
                &&& env_username is None && fallback is None ==> s.username.len() == 0
            }
            &&& offers_password(Ok(stored), fallback) <==> stored is Some || in_file
            &&& offers_password(Err(error), fallback) <==> in_file
            &&& resolved(env_username, env_app_password, Err(error), fallback) is Err
        }),
{
}

/// Each part of a credential of the file that the environment does not override stays as it
/// is; a part that neither gives is empty; and without an override and an entry there is no
/// credential.
pub proof fn what_is_not_overridden_stays(
    base: SecretModel,
    env_username: Seq<char>,
    env_app_password: Seq<char>,
)
    ensures
        overridden(Some(base), Some(env_username), None) == Some(
            SecretModel { username: env_username, app_password: base.app_password },
        ),
        overridden(Some(base), None, Some(env_app_password)) == Some(
            SecretModel { username: base.username, app_password: env_app_password },
        ),
        overridden(Some(base), Some(env_username), Some(env_app_password)) == Some(
            SecretModel { username: env_username, app_password: env_app_password },
        ),
        overridden(Some(base), None, None) == Some(base),
        overridden(None, None, None) is None,
        overridden(None, Some(env_username), None) == Some(
            SecretModel { username: env_username, app_password: seq![] },
        ),
        overridden(None, None, Some(env_app_password)) == Some(
            SecretModel { username: seq![], app_password: env_app_password },
        ),
{
}

/// The credential of a destination in a document is made of the user name and the password
/// that stand under its id; a missing password is empty, and another id has no say.
pub proof fn a_credential_is_what_stands_under_its_id(doc: TomlMap, id: Seq<char>)
    requires
        credentials_readable(doc),
    ensures
        credential_in(doc, id) is Some <==> has_key(doc, "credentials"@) && has_key(
            branch(doc, "credentials"@),
            id,
        ),
        credential_in(doc, id) matches Some(s) ==> {
            &&& credential_field(doc, id, "username"@) == Some(s.username)
            &&& password_in(doc, id) is Some ==> s.app_password == password_in(doc, id)->0
            &&& password_in(doc, id) is None ==> s.app_password.len() == 0
            &&& exposed(doc, id) <==> s.app_password.len() > 0
        },
{
    if credential_in(doc, id) is Some {
        assert(entry_readable(branch(branch(doc, "credentials"@), id)));
    }
}

/// The first entry of an id is its credential, and an id without one has none.
pub proof fn the_first_entry_counts(
    before: Seq<(String, Secret)>,
    entry: (String, Secret),
    after: Seq<(String, Secret)>,
)
    requires
        forall|i: int| 0 <= i < before.len() ==> (#[trigger] before[i]).0@ != entry.0@,
    ensures
        entry_of(before + seq![entry] + after, entry.0@) == Some(entry.1@),
        entry_of(before, entry.0@) is None,
    decreases before.len(),
{
    let all = before + seq![entry] + after;
    if before.len() == 0 {
        assert(all[0] == entry);
    } else {
        let rest = before.skip(1);
        assert(all[0] == before[0]);
        assert(all.skip(1) =~= rest + seq![entry] + after);
        assert forall|i: int| 0 <= i < rest.len() implies (#[trigger] rest[i]).0@ != entry.0@ by {
            assert(rest[i] == before[i + 1]);
        }
        the_first_entry_counts(rest, entry, after);
    }
}

/// What is kept of a document for the next configuration file is its credentials, whole, and
/// nothing else.
pub proof fn the_credentials_are_kept_whole(doc: TomlMap, key: Seq<char>)
    ensures
        branch(credentials_only(doc), "credentials"@) == branch(doc, "credentials"@),
        key != "credentials"@ ==> !has_key(credentials_only(doc), key),
{
    branch_of_with_branch(
        empty_table(),
        "credentials"@,
        branch(doc, "credentials"@),
        "credentials"@,
    );
    branch_of_with_branch(empty_table(), "credentials"@, branch(doc, "credentials"@), key);
    assert(seq![key].len() == 1);
    assert(seq![key] != Seq::<Seq<char>>::empty());
}

/// Stripping leaves everything outside the credentials as it is, and all other entries of
/// them. Where no table stands under the id, a document with entries stays as it is, and so
/// does one without a table of credentials.
pub proof fn stripping_leaves_the_rest(
    doc: TomlMap,
    id: Seq<char>,
    key: Seq<char>,
    other: Seq<char>,
)
    ensures
        key != "credentials"@ ==> has_key(stripped(doc, id), key) == has_key(doc, key) && branch(
            stripped(doc, id),
            key,
        ) == branch(doc, key),
        !has_key(doc, "credentials"@) || !is_table(branch(doc, "credentials"@)) ==> stripped(
            doc,
            id,
        ) == doc,
        ({
            let creds = branch(doc, "credentials"@);
            &&& has_key(creds, other) && (!has_key(creds, id) || !is_table(branch(creds, id)))
                ==> stripped(doc, id) == doc
            &&& has_key(doc, "credentials"@) && is_table(creds) && has_key(creds, other) && other
                != id ==> branch(branch(stripped(doc, id), "credentials"@), other) == branch(
                creds,
                other,
            )
        }),
{
    let creds = branch(doc, "credentials"@);
    let entry = without(branch(creds, id), "app_password"@);
    let left = creds_stripped(creds, id);
    branch_of_without(doc, "credentials"@, key);
    branch_of_with_branch(doc, "credentials"@, left, key);
    branch_of_with_branch(doc, "credentials"@, left, "credentials"@);
    branch_of_without(creds, id, other);
    branch_of_with_branch(creds, id, entry, other);
    lemma_same_branch(doc, "credentials"@);
    if has_key(creds, other) {
        assert(!keyless(creds));
        if other != id {
            assert(has_key(left, other));
            assert(!keyless(left));
        }
    }
}

proof fn lemma_same_branch(m: TomlMap, key: Seq<char>)
    ensures
        with_branch(m, key, branch(m, key)) == m,
{
    let n = with_branch(m, key, branch(m, key));
    assert forall|p: Seq<Seq<char>>| #[trigger] n.dom().contains(p) == m.dom().contains(p) by {
        if p.len() > 0 && p[0] == key {
            assert(seq![key] + p.skip(1) =~= p);
        }
    }
    assert forall|p: Seq<Seq<char>>| #[trigger] m.dom().contains(p) implies n[p] == m[p] by {
        if p.len() > 0 && p[0] == key {
            assert(seq![key] + p.skip(1) =~= p);
        }
    }
    assert(n =~= m);
}

} // verus!
