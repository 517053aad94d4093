//! Mirroring to a cloud: the events, the destination's address and its uploader.

use crate::cloud::nextcloud::NextcloudUploader;
use crate::config::{clone_opt, CloudConfig};
use crate::credentials::{CredentialStore, Secret, SecretModel};
use crate::error::{CoreError, Result};
use crate::text::{
    cut_first, cut_last, debug_quoted, debug_text, first_index, is_digit, is_digit_char,
    last_index, lowered, opt_view, rsplit_once, same_text, split_once, strip_prefix, to_chars,
    to_lower, trim, trimmed, trimmed_end, trimmed_start, CharSet,
};
use vstd::prelude::*;

pub mod chunks;
pub mod nextcloud;
pub mod server_laws;
pub mod upload;
pub mod upload_laws;
pub mod webdav;
pub mod worker;
pub mod worker_laws;

verus! {

/// The resume cursor of a chunked upload.
#[derive(Debug, PartialEq, Eq)]
pub struct ResumeState<S = String> {
    /// The id of the upload directory on the server, once there is one.
    pub upload_id: Option<S>,
    /// The bytes that the server has confirmed.
    pub uploaded_bytes: u64,
}

impl View for ResumeState<String> {
    type V = ResumeState<Seq<char>>;

    open spec fn view(&self) -> ResumeState<Seq<char>> {
        ResumeState { upload_id: opt_view(self.upload_id), uploaded_bytes: self.uploaded_bytes }
    }
}

impl Clone for ResumeState<String> {
    fn clone(&self) -> (r: Self)
        ensures
            r@ == self@,
    {
        ResumeState {
            upload_id: clone_opt(&self.upload_id),
            uploaded_bytes: self.uploaded_bytes,
        }
    }
}

/// The view of an optional resume cursor.
pub open spec fn resume_view(r: Option<ResumeState>) -> Option<ResumeState<Seq<char>>> {
    match r {
        Some(r) => Some(r@),
        None => None,
    }
}

/// The outcome of an upload that succeeded.
#[derive(Debug, Clone, PartialEq, Eq)]
pub struct UploadOutcome<S = String> {
    /// The remote path at which the file now stands.
    pub remote_ref: S,
    /// The bytes of the file.
    pub bytes: u64,
    /// The entity tag, if the server gave one.
    pub etag: Option<S>,
}

impl View for UploadOutcome<String> {
    type V = UploadOutcome<Seq<char>>;

    open spec fn view(&self) -> UploadOutcome<Seq<char>> {
        UploadOutcome { remote_ref: self.remote_ref@, bytes: self.bytes, etag: opt_view(self.etag) }
    }
}

/// What the cloud worker reports.
#[derive(Debug, Clone, PartialEq, Eq)]
pub enum CloudEvent<S = String> {
    /// An upload begins, at `uploaded` bytes.
    Uploading { file: S, uploaded: u64, total: u64 },
    /// The remote copy is there.
    Mirrored { file: S },
    /// The worker has given up on the upload.
    CloudFailed { file: S, error: S },
    /// The file on the card was deleted after its upload.
    Deleted { file: S },
    /// The file on the card could not be deleted after its upload. The upload
    /// stands; this is no failed file.
    DeleteFailed { file: S, error: S },
}

impl View for CloudEvent<String> {
    type V = CloudEvent<Seq<char>>;

    open spec fn view(&self) -> CloudEvent<Seq<char>> {
        match *self {
            CloudEvent::Uploading { file, uploaded, total } => CloudEvent::Uploading {
                file: file@,
                uploaded,
                total,
            },
            CloudEvent::Mirrored { file } => CloudEvent::Mirrored { file: file@ },
            CloudEvent::CloudFailed { file, error } => CloudEvent::CloudFailed {
                file: file@,
                error: error@,
            },
            CloudEvent::Deleted { file } => CloudEvent::Deleted { file: file@ },
            CloudEvent::DeleteFailed { file, error } => CloudEvent::DeleteFailed {
                file: file@,
                error: error@,
            },
        }
    }
}

// ---- the address of a destination -------------------------------------------

/// True of zero or more digits.
pub open spec fn digits_only(s: Seq<char>) -> bool {
    forall|i: int| 0 <= i < s.len() ==> is_digit(#[trigger] s[i])
}

/// The host that an authority connects to: what follows the last `@`, without a
/// numeric port and without the brackets of an IPv6 address. `None` for brackets
/// that do not close or that anything but a port follows.
pub open spec fn host_of(authority: Seq<char>) -> Option<Seq<char>> {
    let a = match cut_last(authority, '@') {
        Some((_, host)) => host,
        None => authority,
    };
    if a.len() > 0 && a[0] == '[' {
        match cut_first(a.skip(1), ']') {
            Some((ipv6, suffix)) => {
                if suffix.len() == 0 || (suffix[0] == ':' && digits_only(suffix.skip(1))) {
                    Some(ipv6)
                } else {
                    None
                }
            },
            None => None,
        }
    } else {
        match cut_last(a, ':') {
            Some((host, port)) => {
                if !host.contains(':') && digits_only(port) {
                    Some(host)
                } else {
                    Some(a)
                }
            },
            None => Some(a),
        }
    }
}

/// True of an authority whose host is this machine.
pub open spec fn loopback(authority: Seq<char>) -> bool {
    match host_of(authority) {
        Some(host) => {
            let h = lowered(trimmed(host, CharSet::Space));
            h == "localhost"@ || h == "127.0.0.1"@ || h == "::1"@
        },
        None => false,
    }
}

/// What stands before the first `/`, or all of it.
pub open spec fn authority_of(rest: Seq<char>) -> Seq<char> {
    match cut_first(rest, '/') {
        Some((a, _)) => a,
        None => rest,
    }
}

/// True of an address that a mirror may use: `https://` with any host, or
/// `http://` with a host that is this machine. Anything else would send the
/// password and the footage in the clear.
pub open spec fn valid_base_url(url: Seq<char>) -> bool {
    if "https://"@.is_prefix_of(url) {
        trimmed(authority_of(url.skip("https://"@.len() as int)), CharSet::Space).len() > 0
    } else if "http://"@.is_prefix_of(url) {
        let a = authority_of(url.skip("http://"@.len() as int));
        trimmed(a, CharSet::Space).len() > 0 && loopback(a)
    } else {
        false
    }
}

/// True if `v[from..]` are digits.
fn digits_to_end(v: &[char], from: usize) -> (r: bool)
    requires
        from <= v@.len(),
    ensures
        r == digits_only(v@.skip(from as int)),
{
    let mut i: usize = from;
    while i < v.len()
        invariant
            from <= i <= v@.len(),
            forall|j: int| from <= j < i ==> is_digit(#[trigger] v@[j]),
        decreases v.len() - i,
    {
        if !is_digit_char(v[i]) {
            assert(v@.skip(from as int)[i - from] == v@[i as int]);
            return false;
        }
        i += 1;
    }
    assert forall|j: int| 0 <= j < v@.skip(from as int).len() implies is_digit(
        #[trigger] v@.skip(from as int)[j],
    ) by {
        assert(v@.skip(from as int)[j] == v@[from + j]);
    }
    true
}

/// The host that an authority connects to.
fn host_in(authority: &str) -> (r: Option<String>)
    ensures
        opt_view(r) == host_of(authority@),
{
    let a = match rsplit_once(authority, '@') {
        Some((_, host)) => host,
        None => authority.to_owned(),
    };
    let v = to_chars(a.as_str());
    if v.len() > 0 && v[0] == '[' {
        let inner = crate::text::from_chars(&v, 1, v.len());
        assert(inner@ =~= a@.skip(1));
        match split_once(inner.as_str(), ']') {
            Some((ipv6, suffix)) => {
                let w = to_chars(suffix.as_str());
                if w.len() == 0 {
                    return Some(ipv6);
                }
                if w[0] == ':' && digits_to_end(&w, 1) {
                    Some(ipv6)
                } else {
                    None
                }
            },
            None => None,
        }
    } else {
        match rsplit_once(a.as_str(), ':') {
            Some((host, port)) => {
                let p = to_chars(port.as_str());
                assert(p@.skip(0) =~= p@);
                if !crate::text::has_char(host.as_str(), ':') && digits_to_end(&p, 0) {
                    Some(host)
                } else {
                    Some(a)
                }
            },
            None => Some(a),
        }
    }
}

/// True for an authority whose host is this machine: `localhost`, `127.0.0.1` or
/// `::1`, with or without brackets and a port.
pub fn is_loopback_host(authority: &str) -> (r: bool)
    ensures
        r == loopback(authority@),
{
    match host_in(authority) {
        Some(host) => {
            let h = to_lower(trim(host.as_str(), CharSet::Space).as_str());
            same_text(h.as_str(), "localhost") || same_text(h.as_str(), "127.0.0.1") || same_text(
                h.as_str(),
                "::1",
            )
        },
        None => false,
    }
}

/// What stands before the first `/`, or all of it.
fn authority_in(rest: &str) -> (r: String)
    ensures
        r@ == authority_of(rest@),
{
    match split_once(rest, '/') {
        Some((a, _)) => a,
        None => rest.to_owned(),
    }
}

/// True if `url` is an address that a mirror may use.
pub fn is_valid_base_url(url: &str) -> (r: bool)
    ensures
        r == valid_base_url(url@),
{
    match strip_prefix(url, "https://") {
        Some(rest) => {
            let a = authority_in(rest.as_str());
            !trim(a.as_str(), CharSet::Space).as_str().is_empty()
        },
        None => match strip_prefix(url, "http://") {
            Some(rest) => {
                let a = authority_in(rest.as_str());
                !trim(a.as_str(), CharSet::Space).as_str().is_empty() && is_loopback_host(
                    a.as_str(),
                )
            },
            None => false,
        },
    }
}

/// An address that is accepted is encrypted or stays on this machine.
pub proof fn cleartext_stays_on_this_machine(url: Seq<char>)
    requires
        valid_base_url(url),
    ensures
        "https://"@.is_prefix_of(url) || ("http://"@.is_prefix_of(url) && loopback(
            authority_of(url.skip("http://"@.len() as int)),
        )),
{
}

/// What stands before an `@` has no say in which host is meant.
pub proof fn userinfo_does_not_matter(user: Seq<char>, host: Seq<char>)
    requires
        !host.contains('@'),
    ensures
        host_of(user + seq!['@'] + host) == host_of(host),
        loopback(user + seq!['@'] + host) == loopback(host),
{
    let a = user + seq!['@'] + host;
    crate::text::lemma_last_index(a, '@');
    crate::text::lemma_last_index(host, '@');
    let k = last_index(a, '@');
    let h = last_index(host, '@');
    if h >= 0 {
        assert(host.contains(host[h]));
    }
    assert(a[user.len() as int] == '@');
    if k > user.len() {
        assert(a[k] == host[k - user.len() - 1]);
        assert(host.contains(a[k]));
    }
    assert(k == user.len());
    assert(a.skip(k + 1) =~= host);
}

proof fn lemma_lowered_index(s: Seq<char>, c: char)
    requires
        !('a' <= c <= 'z') && !('A' <= c <= 'Z'),
    ensures
        first_index(lowered(s), c) == first_index(s, c),
    decreases s.len(),
{
    if s.len() > 0 && s[0] != c {
        lemma_lowered_index(s.skip(1), c);
        assert(lowered(s).skip(1) =~= lowered(s.skip(1)));
    }
}

proof fn lemma_lowered_last(s: Seq<char>, c: char)
    requires
        !('a' <= c <= 'z') && !('A' <= c <= 'Z'),
    ensures
        last_index(lowered(s), c) == last_index(s, c),
    decreases s.len(),
{
    if s.len() > 0 && s.last() != c {
        lemma_lowered_last(s.drop_last(), c);
        assert(lowered(s).drop_last() =~= lowered(s.drop_last()));
    }
}

proof fn lemma_lowered_start(s: Seq<char>)
    ensures
        trimmed_start(lowered(s), CharSet::Space) == lowered(trimmed_start(s, CharSet::Space)),
    decreases s.len(),
{
    if s.len() > 0 && CharSet::Space.has(s[0]) {
        lemma_lowered_start(s.skip(1));
        assert(lowered(s).skip(1) =~= lowered(s.skip(1)));
    }
}

proof fn lemma_lowered_end(s: Seq<char>)
    ensures
        trimmed_end(lowered(s), CharSet::Space) == lowered(trimmed_end(s, CharSet::Space)),
    decreases s.len(),
{
    if s.len() > 0 && CharSet::Space.has(s.last()) {
        lemma_lowered_end(s.drop_last());
        assert(lowered(s).drop_last() =~= lowered(s.drop_last()));
    }
}

proof fn lemma_lowered_digits(s: Seq<char>)
    ensures
        digits_only(lowered(s)) == digits_only(s),
{
    if digits_only(lowered(s)) {
        assert forall|i: int| 0 <= i < s.len() implies is_digit(#[trigger] s[i]) by {
            assert(is_digit(lowered(s)[i]));
        }
    }
}

proof fn lemma_lowered_contains(s: Seq<char>)
    ensures
        lowered(s).contains(':') == s.contains(':'),
{
    if s.contains(':') {
        let i = choose|i: int| 0 <= i < s.len() && s[i] == ':';
        assert(lowered(s)[i] == ':');
    }
    if lowered(s).contains(':') {
        let i = choose|i: int| 0 <= i < lowered(s).len() && lowered(s)[i] == ':';
        assert(s[i] == ':');
    }
}

proof fn lemma_lowered_host(authority: Seq<char>)
    ensures
        host_of(lowered(authority)) == (match host_of(authority) {
            Some(host) => Some(lowered(host)),
            None => None,
        }),
{
    let low = lowered(authority);
    lemma_lowered_last(authority, '@');
    let a = match cut_last(authority, '@') {
        Some((_, host)) => host,
        None => authority,
    };
    let k = last_index(authority, '@');
    crate::text::lemma_last_index(authority, '@');
    if k >= 0 {
        assert(low.skip(k + 1) =~= lowered(authority.skip(k + 1)));
    }
    if a.len() > 0 && a[0] == '[' {
        let inner = a.skip(1);
        assert(lowered(a).skip(1) =~= lowered(inner));
        lemma_lowered_index(inner, ']');
        let i = first_index(inner, ']');
        crate::text::lemma_first_index(inner, ']');
        if i < inner.len() {
            assert(lowered(inner).take(i) =~= lowered(inner.take(i)));
            let suffix = inner.skip(i + 1);
            assert(lowered(inner).skip(i + 1) =~= lowered(suffix));
            if suffix.len() > 0 {
                assert(lowered(suffix).skip(1) =~= lowered(suffix.skip(1)));
                lemma_lowered_digits(suffix.skip(1));
            }
        }
    } else {
        lemma_lowered_last(a, ':');
        let i = last_index(a, ':');
        crate::text::lemma_last_index(a, ':');
        if i >= 0 {
            assert(lowered(a).take(i) =~= lowered(a.take(i)));
            assert(lowered(a).skip(i + 1) =~= lowered(a.skip(i + 1)));
            lemma_lowered_contains(a.take(i));
            lemma_lowered_digits(a.skip(i + 1));
        }
    }
}

proof fn lemma_lowered_loopback(authority: Seq<char>)
    ensures
        loopback(lowered(authority)) == loopback(authority),
{
    lemma_lowered_host(authority);
    if let Some(host) = host_of(authority) {
        lemma_lowered_start(host);
        lemma_lowered_end(trimmed_start(host, CharSet::Space));
        let h = trimmed(host, CharSet::Space);
        assert(lowered(lowered(h)) =~= lowered(h));
    }
}

/// Upper and lower case of a host count the same: authorities that differ in nothing
/// but the case of their letters both mean this machine, or neither does.
pub proof fn case_does_not_matter(a: Seq<char>, b: Seq<char>)
    requires
        lowered(a) == lowered(b),
    ensures
        loopback(a) == loopback(b),
{
    lemma_lowered_loopback(a);
    lemma_lowered_loopback(b);
}

// ---- the uploader -----------------------------------------------------------

/// The uploader for a destination, given the outcome of the lookup of its
/// credential. A credential without a user name takes that of the destination.
pub open spec fn uploader_for(
    cfg: CloudConfig<Seq<char>>,
    found: std::result::Result<Option<SecretModel>, CoreError<Seq<char>>>,
) -> std::result::Result<NextcloudUploader<Seq<char>>, CoreError<Seq<char>>> {
    match found {
        Err(e) => Err(e),
        Ok(None) => Err(
            CoreError::Config(
                "no credentials configured for cloud destination '"@ + cfg.destination_id + "'"@,
            ),
        ),
        Ok(Some(secret)) => Ok(
            NextcloudUploader {
                base_url: cfg.base_url,
                username: if secret.username.len() == 0 {
                    cfg.username
                } else {
                    secret.username
                },
                app_password: secret.app_password,
                remote_root: cfg.remote_root,
                chunk_threshold: cfg.chunk_threshold,
                tls_ca_pem: cfg.tls_ca_pem,
            },
        ),
    }
}

/// The error for an address that a mirror may not use.
pub open spec fn bad_base_url(url: Seq<char>) -> CoreError<Seq<char>> {
    CoreError::Config(
        "cloud base_url "@ + debug_quoted(url)
            + " must be https:// with a host (http:// is allowed only for loopback hosts like localhost/127.0.0.1)"@,
    )
}

/// The view of an uploader or an error.
pub open spec fn uploader_result(r: Result<NextcloudUploader>) -> std::result::Result<
    NextcloudUploader<Seq<char>>,
    CoreError<Seq<char>>,
> {
    match r {
        Ok(u) => Ok(u@),
        Err(e) => Err(e@),
    }
}

/// Builds the uploader of a destination from the outcome of the lookup of its
/// credential.
pub fn uploader_from(cfg: &CloudConfig, found: Result<Option<Secret>>) -> (r: Result<
    NextcloudUploader,
>)
    ensures
        uploader_result(r) == uploader_for(cfg@, crate::credentials::lookup_view(found)),
{
    match found {
        Err(e) => Err(e),
        Ok(None) => {
            let mut m = "no credentials configured for cloud destination '".to_owned();
            m.append(cfg.destination_id.as_str());
            m.append("'");
            Err(CoreError::Config(m))
        },
        Ok(Some(secret)) => {
            let mut secret = secret;
            if secret.username.as_str().is_empty() {
                secret.username = cfg.username.clone();
            }
            Ok(NextcloudUploader::new(cfg, &secret))
        },
    }
}

/// Builds the uploader of a destination. Its address is checked first, so that a
/// configuration edited by hand cannot send a password in the clear; then its
/// credential is looked up in `store`.
pub fn build_uploader<C: CredentialStore>(cfg: &CloudConfig, store: &C) -> (r: Result<
    NextcloudUploader,
>)
    ensures
        !valid_base_url(cfg@.base_url) ==> uploader_result(r) == Err::<
            NextcloudUploader<Seq<char>>,
            CoreError<Seq<char>>,
        >(bad_base_url(cfg@.base_url)),
        valid_base_url(cfg@.base_url) ==> exists|found|
            store.answers(cfg@.destination_id, found) && uploader_result(r) == #[trigger] uploader_for(
                cfg@,
                found,
            ),
{
    if !is_valid_base_url(cfg.base_url.as_str()) {
        let mut m = "cloud base_url ".to_owned();
        m.append(debug_text(cfg.base_url.as_str()).as_str());
        m.append(
            " must be https:// with a host (http:// is allowed only for loopback hosts like localhost/127.0.0.1)",
        );
        return Err(CoreError::Config(m));
    }
    let found = store.get(cfg.destination_id.as_str());
    uploader_from(cfg, found)
}

} // verus!
