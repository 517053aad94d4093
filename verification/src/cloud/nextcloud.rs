//! Uploads to a Nextcloud server over WebDAV.

use crate::cloud::webdav::{file_address, upload_dir};
use crate::config::{clone_opt, CloudConfig};
use crate::credentials::Secret;
use crate::text::{
    decimal, decimal_int, opt_view, push_i64, push_u64, trim, trim_start, trimmed, trimmed_start,
    CharSet,
};
use vstd::prelude::*;

verus! {

/// What uploads to one Nextcloud destination need.
#[derive(PartialEq, Eq)]
pub struct NextcloudUploader<S = String> {
    pub base_url: S,
    pub username: S,
    pub app_password: S,
    pub remote_root: S,
    pub chunk_threshold: u64,
    /// The file with an extra certificate authority.
    pub tls_ca_pem: Option<S>,
}

impl View for NextcloudUploader<String> {
    type V = NextcloudUploader<Seq<char>>;

    open spec fn view(&self) -> NextcloudUploader<Seq<char>> {
        NextcloudUploader {
            base_url: self.base_url@,
            username: self.username@,
            app_password: self.app_password@,
            remote_root: self.remote_root@,
            chunk_threshold: self.chunk_threshold,
            tls_ca_pem: opt_view(self.tls_ca_pem),
        }
    }
}

impl NextcloudUploader<String> {
    /// The uploader of a destination with a credential.
    pub fn new(cfg: &CloudConfig, secret: &Secret) -> (r: Self)
        ensures
            r@ == (NextcloudUploader {
                base_url: cfg@.base_url,
                username: secret@.username,
                app_password: secret@.app_password,
                remote_root: cfg@.remote_root,
                chunk_threshold: cfg@.chunk_threshold,
                tls_ca_pem: cfg@.tls_ca_pem,
            }),
    {
        NextcloudUploader {
            base_url: cfg.base_url.clone(),
            username: secret.username.clone(),
            app_password: secret.app_password.clone(),
            remote_root: cfg.remote_root.clone(),
            chunk_threshold: cfg.chunk_threshold,
            tls_ca_pem: clone_opt(&cfg.tls_ca_pem),
        }
    }
}

/// The path of a file below the root of a destination.
pub open spec fn rel_path(root: Seq<char>, remote: Seq<char>) -> Seq<char> {
    let r = trimmed(root, CharSet::Only('/'));
    let file = trimmed_start(remote, CharSet::Only('/'));
    if r.len() == 0 {
        file
    } else {
        r + "/"@ + file
    }
}

impl NextcloudUploader<Seq<char>> {
    /// The address of a file, given its path on the server.
    pub open spec fn file_url(self, rel: Seq<char>) -> Seq<char> {
        file_address(self.base_url, self.username, rel)
    }

    /// The address of an upload directory.
    pub open spec fn dir_url(self, upload_id: Seq<char>) -> Seq<char> {
        upload_dir(self.base_url, self.username, upload_id)
    }
}

impl NextcloudUploader<String> {
    /// The path of a file on the server: the root of the destination, then the
    /// path of the file.
    pub fn remote_rel(&self, remote: &str) -> (r: String)
        ensures
            r@ == rel_path(self@.remote_root, remote@),
    {
        let root = trim(self.remote_root.as_str(), CharSet::Only('/'));
        let file = trim_start(remote, CharSet::Only('/'));
        if root.as_str().is_empty() {
            file
        } else {
            let mut s = root;
            s.append("/");
            s.append(file.as_str());
            s
        }
    }
}

/// The modification time that a request states: whole seconds after the epoch,
/// if they fit.
pub fn mtime_secs(since_epoch: Option<u64>) -> (r: Option<i64>)
    ensures
        r == (match since_epoch {
            Some(s) => if 0 < s <= i64::MAX {
                Some(s as i64)
            } else {
                None
            },
            None => None,
        }),
{
    match since_epoch {
        Some(s) => if 0 < s && s <= 9223372036854775807u64 {
            Some(s as i64)
        } else {
            None
        },
        None => None,
    }
}

/// The entity tag of an answer: the server's own header, or the standard one.
/// The outer `None` means that there is no such header, the inner one that it is
/// no text.
pub fn read_etag(oc_etag: Option<Option<String>>, etag: Option<Option<String>>) -> (r: Option<
    String,
>)
    ensures
        r == (match oc_etag {
            Some(v) => v,
            None => match etag {
                Some(v) => v,
                None => None,
            },
        }),
{
    match oc_etag {
        Some(v) => v,
        None => match etag {
            Some(v) => v,
            None => None,
        },
    }
}

// ---- requests ---------------------------------------------------------------

/// The body of a request.
#[derive(Debug, PartialEq, Eq)]
pub enum DavBody<S = String> {
    Empty,
    Text(S),
    /// `len` bytes of the local file from `offset` on.
    File { offset: u64, len: u64 },
}

/// A request to the server, without its credentials.
#[derive(Debug, PartialEq, Eq)]
pub struct DavRequest {
    pub method: String,
    pub url: String,
    pub headers: Vec<(String, String)>,
    pub body: DavBody,
}

/// What a request says.
pub struct DavModel {
    pub method: Seq<char>,
    pub url: Seq<char>,
    pub headers: Seq<(Seq<char>, Seq<char>)>,
    pub body: DavBody<Seq<char>>,
}

/// The views of headers.
pub open spec fn header_views(v: Seq<(String, String)>) -> Seq<(Seq<char>, Seq<char>)> {
    Seq::new(v.len(), |i: int| (v[i].0@, v[i].1@))
}

impl View for DavBody<String> {
    type V = DavBody<Seq<char>>;

    open spec fn view(&self) -> DavBody<Seq<char>> {
        match *self {
            DavBody::Empty => DavBody::Empty,
            DavBody::Text(t) => DavBody::Text(t@),
            DavBody::File { offset, len } => DavBody::File { offset, len },
        }
    }
}

impl View for DavRequest {
    type V = DavModel;

    open spec fn view(&self) -> DavModel {
        DavModel {
            method: self.method@,
            url: self.url@,
            headers: header_views(self.headers@),
            body: self.body@,
        }
    }
}

/// Adds a header.
fn add_header(headers: &mut Vec<(String, String)>, name: &str, value: String)
    ensures
        header_views(final(headers)@) == header_views(old(headers)@).push((name@, value@)),
{
    headers.push((name.to_owned(), value));
    assert(header_views(headers@) =~= header_views(old(headers)@).push((name@, value@)));
}

/// The digits of a number.
fn number_text(n: u64) -> (r: String)
    ensures
        r@ == decimal(n as nat),
{
    let mut s = String::new();
    push_u64(&mut s, n);
    assert(s@ =~= decimal(n as nat));
    s
}

/// The header that states when the file was modified, if that is known.
pub open spec fn mtime_headers(mtime: Option<i64>) -> Seq<(Seq<char>, Seq<char>)> {
    match mtime {
        Some(m) => seq![("X-OC-Mtime"@, decimal_int(m as int))],
        None => seq![],
    }
}

/// Adds the header that states when the file was modified.
fn add_mtime(headers: &mut Vec<(String, String)>, mtime: Option<i64>)
    ensures
        header_views(final(headers)@) == header_views(old(headers)@) + mtime_headers(mtime),
{
    let ghost before = header_views(headers@);
    match mtime {
        Some(m) => {
            let mut v = String::new();
            push_i64(&mut v, m);
            assert(v@ =~= decimal_int(m as int));
            add_header(headers, "X-OC-Mtime", v);
            assert(header_views(headers@) =~= before + mtime_headers(mtime));
        },
        None => {
            assert(header_views(headers@) =~= before + mtime_headers(mtime));
        },
    }
}

/// The request that asks for the length of a file, or of the files in a
/// directory.
pub open spec fn propfind(url: Seq<char>, depth: Seq<char>, body: Seq<char>) -> DavModel {
    DavModel {
        method: "PROPFIND"@,
        url,
        headers: seq![
            ("Depth"@, depth),
            ("Content-Type"@, "application/xml; charset=utf-8"@),
        ],
        body: DavBody::Text(body),
    }
}

/// The request that asks for the properties at `url`: of a file with depth `0`, of
/// what a directory holds with depth `1`.
pub fn propfind_request(url: &str, depth: &str, body: &str) -> (r: DavRequest)
    ensures
        r@ == propfind(url@, depth@, body@),
{
    let mut headers: Vec<(String, String)> = Vec::new();
    add_header(&mut headers, "Depth", depth.to_owned());
    add_header(&mut headers, "Content-Type", "application/xml; charset=utf-8".to_owned());
    let r = DavRequest {
        method: "PROPFIND".to_owned(),
        url: url.to_owned(),
        headers,
        body: DavBody::Text(body.to_owned()),
    };
    assert(r@.headers =~= propfind(url@, depth@, body@).headers);
    r
}

/// The properties that are asked for of a file.
pub open spec fn file_properties() -> Seq<char> {
    "<?xml version=\"1.0\" encoding=\"UTF-8\"?>\n<d:propfind xmlns:d=\"DAV:\" xmlns:oc=\"http://owncloud.org/ns\">\n  <d:prop>\n    <d:getcontentlength/>\n    <d:getetag/>\n    <d:resourcetype/>\n  </d:prop>\n</d:propfind>"@
}

/// The properties that are asked for of the parts in an upload directory.
pub open spec fn part_properties() -> Seq<char> {
    "<?xml version=\"1.0\"?><d:propfind xmlns:d=\"DAV:\"><d:prop><d:getcontentlength/></d:prop></d:propfind>"@
}

/// The request that asks whether a file stands at `url`, and how long it is.
pub fn file_question(url: &str) -> (r: DavRequest)
    ensures
        r@ == propfind(url@, "0"@, file_properties()),
{
    propfind_request(
        url,
        "0",
        "<?xml version=\"1.0\" encoding=\"UTF-8\"?>\n<d:propfind xmlns:d=\"DAV:\" xmlns:oc=\"http://owncloud.org/ns\">\n  <d:prop>\n    <d:getcontentlength/>\n    <d:getetag/>\n    <d:resourcetype/>\n  </d:prop>\n</d:propfind>",
    )
}

/// The request that asks which parts an upload directory holds, and how long they
/// are.
pub fn listing_question(dir: &str) -> (r: DavRequest)
    ensures
        r@ == propfind(dir@, "1"@, part_properties()),
{
    propfind_request(
        dir,
        "1",
        "<?xml version=\"1.0\"?><d:propfind xmlns:d=\"DAV:\"><d:prop><d:getcontentlength/></d:prop></d:propfind>",
    )
}

/// The request that creates a directory. An upload directory also names where
/// the file will stand.
pub open spec fn mkcol(url: Seq<char>, dest: Option<Seq<char>>) -> DavModel {
    DavModel {
        method: "MKCOL"@,
        url,
        headers: match dest {
            Some(d) => seq![("Destination"@, d)],
            None => seq![],
        },
        body: DavBody::Empty,
    }
}

/// The request that creates a directory.
pub fn mkcol_request(url: &str, dest: Option<&str>) -> (r: DavRequest)
    ensures
        r@ == mkcol(
            url@,
            match dest {
                Some(d) => Some(d@),
                None => None,
            },
        ),
{
    let mut headers: Vec<(String, String)> = Vec::new();
    if let Some(d) = dest {
        add_header(&mut headers, "Destination", d.to_owned());
    }
    let r = DavRequest {
        method: "MKCOL".to_owned(),
        url: url.to_owned(),
        headers,
        body: DavBody::Empty,
    };
    assert(r@.headers =~= mkcol(
        url@,
        match dest {
            Some(d) => Some(d@),
            None => None,
        },
    ).headers);
    r
}

/// The request that sends a whole file. It carries the length of the file, its
/// checksum and its time, and lets the server create missing directories.
pub open spec fn put_file(url: Seq<char>, total: u64, md5: Seq<char>, mtime: Option<i64>) -> DavModel {
    DavModel {
        method: "PUT"@,
        url,
        headers: seq![
            ("Content-Length"@, decimal(total as nat)),
            ("OC-Checksum"@, "md5:"@ + md5),
            ("X-NC-WebDAV-AutoMkcol"@, "1"@),
        ] + mtime_headers(mtime),
        body: DavBody::File { offset: 0, len: total },
    }
}

/// The request that sends a whole file.
pub fn put_request(url: &str, total: u64, md5: &str, mtime: Option<i64>) -> (r: DavRequest)
    ensures
        r@ == put_file(url@, total, md5@, mtime),
{
    let mut sum = "md5:".to_owned();
    sum.append(md5);
    let mut headers: Vec<(String, String)> = Vec::new();
    add_header(&mut headers, "Content-Length", number_text(total));
    add_header(&mut headers, "OC-Checksum", sum);
    add_header(&mut headers, "X-NC-WebDAV-AutoMkcol", "1".to_owned());
    add_mtime(&mut headers, mtime);
    let r = DavRequest {
        method: "PUT".to_owned(),
        url: url.to_owned(),
        headers,
        body: DavBody::File { offset: 0, len: total },
    };
    assert(r@.headers =~= put_file(url@, total, md5@, mtime).headers);
    r
}

/// The request that sends one part.
pub open spec fn put_part(
    url: Seq<char>,
    dest: Seq<char>,
    offset: u64,
    len: u64,
    total: u64,
) -> DavModel {
    DavModel {
        method: "PUT"@,
        url,
        headers: seq![
            ("Destination"@, dest),
            ("OC-Total-Length"@, decimal(total as nat)),
            ("Content-Length"@, decimal(len as nat)),
        ],
        body: DavBody::File { offset, len },
    }
}

/// The request that sends one part.
pub fn put_part_request(url: &str, dest: &str, offset: u64, len: u64, total: u64) -> (r: DavRequest)
    ensures
        r@ == put_part(url@, dest@, offset, len, total),
{
    let mut headers: Vec<(String, String)> = Vec::new();
    add_header(&mut headers, "Destination", dest.to_owned());
    add_header(&mut headers, "OC-Total-Length", number_text(total));
    add_header(&mut headers, "Content-Length", number_text(len));
    let r = DavRequest {
        method: "PUT".to_owned(),
        url: url.to_owned(),
        headers,
        body: DavBody::File { offset, len },
    };
    assert(r@.headers =~= put_part(url@, dest@, offset, len, total).headers);
    r
}

/// The request that puts the parts together. The checksum is left out where the
/// local file can no longer be read.
pub open spec fn assemble(
    url: Seq<char>,
    dest: Seq<char>,
    total: u64,
    md5: Option<Seq<char>>,
    mtime: Option<i64>,
) -> DavModel {
    DavModel {
        method: "MOVE"@,
        url,
        headers: seq![("Destination"@, dest), ("OC-Total-Length"@, decimal(total as nat))] + (
        match md5 {
            Some(m) => seq![("OC-Checksum"@, "md5:"@ + m)],
            None => seq![],
        }) + mtime_headers(mtime),
        body: DavBody::Empty,
    }
}

/// The request that puts the parts together.
pub fn assemble_request(
    url: &str,
    dest: &str,
    total: u64,
    md5: &Option<String>,
    mtime: Option<i64>,
) -> (r: DavRequest)
    ensures
        r@ == assemble(url@, dest@, total, opt_view(*md5), mtime),
{
    let mut headers: Vec<(String, String)> = Vec::new();
    add_header(&mut headers, "Destination", dest.to_owned());
    add_header(&mut headers, "OC-Total-Length", number_text(total));
    if let Some(m) = md5 {
        let mut sum = "md5:".to_owned();
        sum.append(m.as_str());
        add_header(&mut headers, "OC-Checksum", sum);
    }
    add_mtime(&mut headers, mtime);
    let r = DavRequest {
        method: "MOVE".to_owned(),
        url: url.to_owned(),
        headers,
        body: DavBody::Empty,
    };
    assert(r@.headers =~= assemble(url@, dest@, total, opt_view(*md5), mtime).headers);
    r
}

} // verus!
