//! The HTTP API of a USB-connected GoPro: addresses, answers, and the resumable
//! download.

use crate::error::{refusal, refused, CoreError, Result};
use crate::text::{
    cut_first, decimal, decimal_int, is_digit, lemma_decimal_value, lemma_first_index_is,
    lemma_trimmed_end_is, lemma_trimmed_start_is, number_up_to, padded_text, parse_i64, parse_up_to,
    push_u64, signed_number, split_once, strip_prefix, trim, trim_end, trim_start, trimmed,
    trimmed_end, trimmed_start, written_integers_read_back, written_numbers_read_back, zero_padded,
    CharSet,
};
use vstd::prelude::*;

verus! {

/// How long a connection may take, in milliseconds.
pub const CONNECT_TIMEOUT_MS: u64 = 2_000;

/// How long the answer to a short request may take, in milliseconds.
pub const CONTROL_TIMEOUT_MS: u64 = 10_000;

/// How long a download may go without a byte, in milliseconds.
pub const IDLE_TIMEOUT_MS: u64 = 30_000;

/// Which camera is connected.
#[derive(Debug, Clone, PartialEq, Eq)]
pub struct CameraInfo<S = String> {
    pub model: S,
    pub serial: S,
    pub firmware: S,
}

/// One file on the camera.
#[derive(Debug, PartialEq, Eq)]
pub struct RemoteMedia<S = String> {
    pub dir: S,
    pub name: S,
    pub size: u64,
    /// When it was created, in Unix seconds.
    pub captured_unix: i64,
}

impl View for RemoteMedia<String> {
    type V = RemoteMedia<Seq<char>>;

    open spec fn view(&self) -> RemoteMedia<Seq<char>> {
        RemoteMedia {
            dir: self.dir@,
            name: self.name@,
            size: self.size,
            captured_unix: self.captured_unix,
        }
    }
}

impl Clone for RemoteMedia<String> {
    fn clone(&self) -> (r: Self)
        ensures
            r@ == self@,
    {
        RemoteMedia {
            dir: self.dir.clone(),
            name: self.name.clone(),
            size: self.size,
            captured_unix: self.captured_unix,
        }
    }
}

/// The views of a list of files.
pub open spec fn media_views(v: Seq<RemoteMedia>) -> Seq<RemoteMedia<Seq<char>>> {
    Seq::new(v.len(), |i: int| v[i]@)
}

/// A camera at an address, with its time limits.
#[derive(Debug, PartialEq, Eq)]
pub struct GoProClient<S = String> {
    pub base: S,
    pub control_timeout_ms: u64,
    pub idle_timeout_ms: u64,
}

impl View for GoProClient<String> {
    type V = GoProClient<Seq<char>>;

    open spec fn view(&self) -> GoProClient<Seq<char>> {
        GoProClient {
            base: self.base@,
            control_timeout_ms: self.control_timeout_ms,
            idle_timeout_ms: self.idle_timeout_ms,
        }
    }
}

// ---- addresses with parameters ----------------------------------------------

/// What `url::Url::parse_with_params` makes of an address and one parameter: the
/// address with the parameter encoded behind it, or the text of the error.
pub uninterp spec fn url_with_param(
    base: Seq<char>,
    key: Seq<char>,
    value: Seq<char>,
) -> std::result::Result<Seq<char>, Seq<char>>;

/// `url::Url::parse_with_params`: an address with one parameter, or the text of
/// the error. Which one is a function of the three texts, named `url_with_param`.
#[verifier::external_body]
fn parse_with_param(base: &str, key: &str, value: &str) -> (r: std::result::Result<String, String>)
    ensures
        match r {
            Ok(u) => url_with_param(base@, key@, value@) == Ok::<Seq<char>, Seq<char>>(u@),
            Err(e) => url_with_param(base@, key@, value@) == Err::<Seq<char>, Seq<char>>(e@),
        },
{
    url::Url::parse_with_params(base, [(key, value)])
        .map(|u| u.into())
        .map_err(|e| e.to_string())
}

/// The address that comes of an encoding, or the failure.
pub open spec fn query_result(
    base: Seq<char>,
    encoded: std::result::Result<Seq<char>, Seq<char>>,
) -> std::result::Result<Seq<char>, CoreError<Seq<char>>> {
    match encoded {
        Ok(u) => Ok(u),
        Err(e) => Err(CoreError::Http { status: None, msg: "bad url "@ + base + ": "@ + e }),
    }
}

/// The address that comes of an encoding, or the failure.
pub fn encoded_query(base: &str, encoded: std::result::Result<String, String>) -> (r: Result<
    String,
>)
    ensures
        match (r, encoded) {
            (Ok(u), Ok(v)) => u@ == v@,
            (Err(e), Err(t)) => e@ == (CoreError::Http {
                status: None,
                msg: "bad url "@ + base@ + ": "@ + t@,
            }),
            _ => false,
        },
{
    match encoded {
        Ok(u) => Ok(u),
        Err(e) => {
            let mut msg = "bad url ".to_owned();
            msg.append(base);
            msg.append(": ");
            msg.append(e.as_str());
            Err(CoreError::Http { status: None, msg })
        },
    }
}

/// An address with one parameter.
pub fn with_query(base: &str, key: &str, value: &str) -> (r: Result<String>)
    ensures
        match r {
            Ok(u) => query_result(base@, url_with_param(base@, key@, value@)) == Ok::<
                Seq<char>,
                CoreError<Seq<char>>,
            >(u@),
            Err(e) => query_result(base@, url_with_param(base@, key@, value@)) == Err::<
                Seq<char>,
                CoreError<Seq<char>>,
            >(e@),
        },
{
    encoded_query(base, parse_with_param(base, key, value))
}

// ---- the client -------------------------------------------------------------

impl GoProClient<String> {
    /// A camera at an IP address.
    pub fn new(ip: &str) -> (r: Self)
        ensures
            r@ == (GoProClient {
                base: "http://"@ + ip@ + ":8080"@,
                control_timeout_ms: CONTROL_TIMEOUT_MS,
                idle_timeout_ms: IDLE_TIMEOUT_MS,
            }),
    {
        let mut base = "http://".to_owned();
        base.append(ip);
        base.append(":8080");
        proof {
            reveal_strlit(":8080");
            assert(base@.last() == '0');
        }
        GoProClient::with_base(base.as_str())
    }

    /// A camera at an address, which loses the separators at its end.
    pub fn with_base(base: &str) -> (r: Self)
        ensures
            r@ == (GoProClient {
                base: trimmed_end(base@, CharSet::Only('/')),
                control_timeout_ms: CONTROL_TIMEOUT_MS,
                idle_timeout_ms: IDLE_TIMEOUT_MS,
            }),
    {
        GoProClient {
            base: trim_end(base, CharSet::Only('/')),
            control_timeout_ms: CONTROL_TIMEOUT_MS,
            idle_timeout_ms: IDLE_TIMEOUT_MS,
        }
    }

    /// The same camera with other time limits.
    pub fn with_timeouts(self, control_ms: u64, idle_ms: u64) -> (r: Self)
        ensures
            r@ == (GoProClient {
                base: self@.base,
                control_timeout_ms: control_ms,
                idle_timeout_ms: idle_ms,
            }),
    {
        GoProClient { base: self.base, control_timeout_ms: control_ms, idle_timeout_ms: idle_ms }
    }

    /// The address of the camera.
    pub fn base(&self) -> (r: &str)
        ensures
            r@ == self@.base,
    {
        self.base.as_str()
    }

    /// An address of the camera.
    fn url(&self, path: &str) -> (r: String)
        ensures
            r@ == self@.base + path@,
    {
        let mut s = self.base.clone();
        s.append(path);
        s
    }

    /// The address that tells the version of the API.
    pub fn version_url(&self) -> (r: String)
        ensures
            r@ == self@.base + "/gopro/version"@,
    {
        self.url("/gopro/version")
    }

    /// The address that tells which camera it is.
    pub fn info_url(&self) -> (r: String)
        ensures
            r@ == self@.base + "/gopro/camera/info"@,
    {
        self.url("/gopro/camera/info")
    }

    /// The address that lists the files.
    pub fn media_list_url(&self) -> (r: String)
        ensures
            r@ == self@.base + "/gopro/media/list"@,
    {
        self.url("/gopro/media/list")
    }

    /// The address that enables the control over USB.
    pub fn wired_control_url(&self) -> (r: Result<String>)
        ensures
            ({
                let base = self@.base + "/gopro/camera/control/wired_usb"@;
                let q = query_result(base, url_with_param(base, "p"@, "1"@));
                match r {
                    Ok(u) => q == Ok::<Seq<char>, CoreError<Seq<char>>>(u@),
                    Err(e) => q == Err::<Seq<char>, CoreError<Seq<char>>>(e@),
                }
            }),
    {
        let base = self.url("/gopro/camera/control/wired_usb");
        with_query(base.as_str(), "p", "1")
    }

    /// The address that deletes a file.
    pub fn delete_url(&self, dir: &str, name: &str) -> (r: Result<String>)
        ensures
            ({
                let base = self@.base + "/gopro/media/delete"@;
                let q = query_result(base, url_with_param(base, "path"@, dir@ + "/"@ + name@));
                match r {
                    Ok(u) => q == Ok::<Seq<char>, CoreError<Seq<char>>>(u@),
                    Err(e) => q == Err::<Seq<char>, CoreError<Seq<char>>>(e@),
                }
            }),
    {
        let base = self.url("/gopro/media/delete");
        let mut path = dir.to_owned();
        path.append("/");
        path.append(name);
        with_query(base.as_str(), "path", path.as_str())
    }

    /// The address of a file: `<base>/videos/DCIM/<dir>/<name>`.
    pub fn media_url(&self, m: &RemoteMedia) -> (r: String)
        ensures
            r@ == media_address(self@.base, m@),
    {
        let mut s = self.base.clone();
        s.append("/videos/DCIM/");
        s.append(m.dir.as_str());
        s.append("/");
        s.append(m.name.as_str());
        s
    }
}

/// The address of a file.
pub open spec fn media_address(base: Seq<char>, m: RemoteMedia<Seq<char>>) -> Seq<char> {
    base + "/videos/DCIM/"@ + m.dir + "/"@ + m.name
}

/// Checks the answer to a short request: only 200 is a success.
pub fn expect_ok(url: &str, status: u16) -> (r: Result<()>)
    ensures
        match r {
            Ok(_) => status == 200,
            Err(e) => status != 200 && e@ == refused("GET "@, url@, status),
        },
{
    if status == 200 {
        Ok(())
    } else {
        Err(refusal("GET ", url, status))
    }
}

/// The failure to read the body of an answer.
pub fn parse_error(url: &str, error: &str) -> (r: CoreError)
    ensures
        r@ == (CoreError::Http {
            status: None,
            msg: "GET "@ + url@ + " parse error: "@ + error@,
        }),
{
    let mut msg = "GET ".to_owned();
    msg.append(url);
    msg.append(" parse error: ");
    msg.append(error);
    CoreError::Http { status: None, msg }
}

/// The failure to read the list of files.
pub fn media_list_error(error: &str) -> (r: CoreError)
    ensures
        r@ == (CoreError::Http { status: None, msg: "media list parse error: "@ + error@ }),
{
    let mut msg = "media list parse error: ".to_owned();
    msg.append(error);
    CoreError::Http { status: None, msg }
}

/// Thousandths behind a point, without zeros at the end; nothing if there are none.
pub open spec fn fraction_text(thousandths: nat) -> Seq<char> {
    if thousandths == 0 {
        seq![]
    } else if thousandths % 100 == 0 {
        "."@ + decimal(thousandths / 100)
    } else if thousandths % 10 == 0 {
        "."@ + zero_padded(decimal(thousandths / 10), 2)
    } else {
        "."@ + zero_padded(decimal(thousandths), 3)
    }
}

/// A duration of whole milliseconds: `250ms`, `30s` or `1.5s`, and `0ns` for none.
pub open spec fn duration_text(ms: nat) -> Seq<char> {
    if ms == 0 {
        "0ns"@
    } else if ms < 1000 {
        decimal(ms) + "ms"@
    } else {
        decimal(ms / 1000) + fraction_text(ms % 1000) + "s"@
    }
}

/// A duration of whole milliseconds, written as `Duration` is for debugging.
pub fn format_duration(ms: u64) -> (r: String)
    ensures
        r@ == duration_text(ms as nat),
{
    if ms == 0 {
        return "0ns".to_owned();
    }
    let mut s = String::new();
    if ms < 1000 {
        push_u64(&mut s, ms);
        s.append("ms");
        assert(s@ =~= duration_text(ms as nat));
        return s;
    }
    push_u64(&mut s, ms / 1000);
    let rest: u64 = ms % 1000;
    if rest != 0 {
        s.append(".");
        if rest % 100 == 0 {
            push_u64(&mut s, rest / 100);
        } else if rest % 10 == 0 {
            s.append(padded_text(rest / 10, 2).as_str());
        } else {
            s.append(padded_text(rest, 3).as_str());
        }
    }
    s.append("s");
    assert(s@ =~= duration_text(ms as nat));
    s
}

/// The failure of a request that took too long, as `what` says. `after` is the
/// limit. Such a failure is worth a retry.
pub open spec fn timed_out(url: Seq<char>, what: Seq<char>, after: Seq<char>) -> CoreError<
    Seq<char>,
> {
    CoreError::Http {
        status: None,
        msg: "GET "@ + url + ": "@ + what + " timed out after "@ + after,
    }
}

/// The failure of a request that took longer than the limit that `after` writes.
pub fn timeout_error(url: &str, what: &str, after: &str) -> (r: CoreError)
    ensures
        r@ == timed_out(url@, what@, after@),
        r@.retryable(),
{
    let mut msg = "GET ".to_owned();
    msg.append(url);
    msg.append(": ");
    msg.append(what);
    msg.append(" timed out after ");
    msg.append(after);
    CoreError::Http { status: None, msg }
}

/// The failure of a request that took longer than `after_ms` milliseconds.
pub fn timeout_err(url: &str, what: &str, after_ms: u64) -> (r: CoreError)
    ensures
        r@ == timed_out(url@, what@, duration_text(after_ms as nat)),
        r@.retryable(),
{
    timeout_error(url, what, format_duration(after_ms).as_str())
}

// ---- the list of files ------------------------------------------------------

/// One file as the camera lists it: the numbers are texts.
#[derive(Debug)]
pub struct ListedFile {
    pub n: String,
    pub s: String,
    pub cre: String,
}

/// One directory as the camera lists it.
#[derive(Debug)]
pub struct ListedDir {
    pub d: String,
    pub fs: Vec<ListedFile>,
}

/// The files of a directory whose size can be read, in their order. A creation
/// time that cannot be read is zero.
pub open spec fn readable(dir: Seq<char>, files: Seq<ListedFile>) -> Seq<RemoteMedia<Seq<char>>>
    decreases files.len(),
{
    if files.len() == 0 {
        seq![]
    } else {
        let rest = readable(dir, files.drop_last());
        let f = files.last();
        match number_up_to(f.s@, u64::MAX as nat) {
            Some(size) => rest.push(
                RemoteMedia {
                    dir,
                    name: f.n@,
                    size: size as u64,
                    captured_unix: match signed_number(f.cre@) {
                        Some(t) => t as i64,
                        None => 0,
                    },
                },
            ),
            None => rest,
        }
    }
}

/// The files of all directories, in their order.
pub open spec fn flattened(dirs: Seq<ListedDir>) -> Seq<RemoteMedia<Seq<char>>>
    decreases dirs.len(),
{
    if dirs.len() == 0 {
        seq![]
    } else {
        flattened(dirs.drop_last()) + readable(dirs.last().d@, dirs.last().fs@)
    }
}

/// Flattens the list of a camera. A file whose size cannot be read is left out:
/// with a made-up size it would be downloaded and refused at every connection.
pub fn parse_media_list(dirs: &Vec<ListedDir>) -> (r: Vec<RemoteMedia>)
    ensures
        media_views(r@) == flattened(dirs@),
{
    let mut out: Vec<RemoteMedia> = Vec::new();
    let mut i: usize = 0;
    assert(dirs@.take(0) =~= seq![]);
    assert(media_views(out@) =~= seq![]);
    while i < dirs.len()
        invariant
            i <= dirs@.len(),
            media_views(out@) == flattened(dirs@.take(i as int)),
        decreases dirs.len() - i,
    {
        let dir = &dirs[i];
        let ghost before = media_views(out@);
        let mut j: usize = 0;
        proof {
            assert(dirs@.take(i + 1).drop_last() =~= dirs@.take(i as int));
            assert(dirs@.take(i + 1).last() == *dir);
            assert(dir.fs@.take(0) =~= seq![]);
            assert(before + readable(dir.d@, dir.fs@.take(0)) =~= before);
        }
        while j < dir.fs.len()
            invariant
                j <= dir.fs@.len(),
                media_views(out@) == before + readable(dir.d@, dir.fs@.take(j as int)),
            decreases dir.fs.len() - j,
        {
            let f = &dir.fs[j];
            let ghost so_far = media_views(out@);
            proof {
                assert(dir.fs@.take(j + 1).drop_last() =~= dir.fs@.take(j as int));
                assert(dir.fs@.take(j + 1).last() == *f);
            }
            if let Some(size) = parse_up_to(f.s.as_str(), u64::MAX) {
                let captured_unix: i64 = match parse_i64(f.cre.as_str()) {
                    Some(t) => t,
                    None => 0,
                };
                let m = RemoteMedia { dir: dir.d.clone(), name: f.n.clone(), size, captured_unix };
                let ghost mv = m@;
                out.push(m);
                proof {
                    assert(media_views(out@) =~= so_far.push(mv));
                    assert(so_far.push(mv) =~= before + readable(
                        dir.d@,
                        dir.fs@.take(j as int),
                    ).push(mv));
                }
            }
            j += 1;
        }
        assert(dir.fs@.take(j as int) =~= dir.fs@);
        i += 1;
    }
    assert(dirs@.take(i as int) =~= dirs@);
    out
}

// ---- the download -----------------------------------------------------------

/// Where the range that a `Content-Range` header states begins:
/// `bytes <start>-<end>/<total>`.
pub open spec fn range_start(header: Seq<char>) -> Option<nat> {
    let h = trimmed(header, CharSet::Space);
    if "bytes"@.is_prefix_of(h) {
        let rest = trimmed_start(h.skip("bytes"@.len() as int), CharSet::Space);
        match cut_first(rest, '/') {
            Some((range, _)) => match cut_first(range, '-') {
                Some((start, _)) => number_up_to(trimmed(start, CharSet::Space), u64::MAX as nat),
                None => None,
            },
            None => None,
        }
    } else {
        None
    }
}

/// Where the range of a header begins; `None` without one that can be read.
pub open spec fn header_start(header: Option<Seq<char>>) -> Option<nat> {
    match header {
        Some(h) => range_start(h),
        None => None,
    }
}

/// Where the range of a `Content-Range` header begins; `None` without one that can
/// be read.
pub fn content_range_start(header: Option<&str>) -> (r: Option<u64>)
    ensures
        match r {
            Some(n) => header_start(crate::text::opt_str_view(header)) == Some(n as nat),
            None => header_start(crate::text::opt_str_view(header)) is None,
        },
{
    let h = match header {
        Some(h) => trim(h, CharSet::Space),
        None => return None,
    };
    let rest = match strip_prefix(h.as_str(), "bytes") {
        Some(r) => trim_start(r.as_str(), CharSet::Space),
        None => return None,
    };
    let range = match split_once(rest.as_str(), '/') {
        Some((range, _)) => range,
        None => return None,
    };
    match split_once(range.as_str(), '-') {
        Some((start, _)) => parse_up_to(trim(start.as_str(), CharSet::Space).as_str(), u64::MAX),
        None => None,
    }
}

/// What a download does with an answer.
#[derive(Debug)]
pub enum DownloadStep<S = String> {
    /// Discard the partial file and ask again, from the start.
    Restart,
    /// Take the body: behind the bytes on disk, or in place of them.
    Stream { resume: bool },
    /// The download has failed.
    Fail(CoreError<S>),
}

impl View for DownloadStep<String> {
    type V = DownloadStep<Seq<char>>;

    open spec fn view(&self) -> DownloadStep<Seq<char>> {
        match *self {
            DownloadStep::Restart => DownloadStep::Restart,
            DownloadStep::Stream { resume } => DownloadStep::Stream { resume },
            DownloadStep::Fail(e) => DownloadStep::Fail(e@),
        }
    }
}

/// A download of one file.
#[derive(Debug)]
pub struct Download<S = String> {
    pub url: S,
    /// The bytes on disk, and so the offset of the request.
    pub already: u64,
    /// True once the download was started over.
    pub restarted: bool,
}

impl View for Download<String> {
    type V = Download<Seq<char>>;

    open spec fn view(&self) -> Download<Seq<char>> {
        Download { url: self.url@, already: self.already, restarted: self.restarted }
    }
}

/// How an optional number is written for debugging.
pub open spec fn number_debug(n: Option<nat>) -> Seq<char> {
    match n {
        Some(n) => "Some("@ + decimal(n) + ")"@,
        None => "None"@,
    }
}

impl Download<Seq<char>> {
    /// What the download does with an answer.
    pub open spec fn answered(self, status: u16, content_range: Option<Seq<char>>) -> (
        Download<Seq<char>>,
        DownloadStep<Seq<char>>,
    ) {
        let over = Download { already: 0, restarted: true, ..self };
        if status == 416 && !self.restarted {
            (over, DownloadStep::Restart)
        } else if status != 200 && status != 206 {
            (
                self,
                DownloadStep::Fail(
                    CoreError::Http {
                        status: Some(status),
                        msg: "GET "@ + self.url + " (Range bytes="@ + decimal(self.already as nat)
                            + "-) -> "@ + decimal(status as nat),
                    },
                ),
            )
        } else if status == 206 && self.already > 0 {
            let start = header_start(content_range);
            if start == Some(self.already as nat) {
                (self, DownloadStep::Stream { resume: true })
            } else if !self.restarted {
                (over, DownloadStep::Restart)
            } else {
                (
                    self,
                    DownloadStep::Fail(
                        CoreError::Http {
                            status: Some(206),
                            msg: "GET "@ + self.url + ": Content-Range start "@ + number_debug(
                                start,
                            ) + " != resume offset "@ + decimal(self.already as nat),
                        },
                    ),
                )
            }
        } else {
            (self, DownloadStep::Stream { resume: false })
        }
    }
}

/// True if a partial file of `len` bytes cannot be extended to a file of `size`
/// bytes: it is longer, or it claims to be complete, which nothing can confirm.
pub open spec fn stale(len: u64, size: u64) -> bool {
    len > size || (len == size && len > 0)
}

impl Download<String> {
    /// Begins the download of a file of which `part_len` bytes lie on disk. The
    /// flag says that the partial file is to be discarded first.
    pub fn begin(client: &GoProClient, m: &RemoteMedia, part_len: Option<u64>) -> (r: (
        Download,
        bool,
    ))
        ensures
            ({
                let len = match part_len {
                    Some(n) => n,
                    None => 0,
                };
                &&& r.1 == stale(len, m@.size)
                &&& r.0@ == (Download {
                    url: media_address(client@.base, m@),
                    already: if stale(len, m@.size) {
                        0
                    } else {
                        len
                    },
                    restarted: false,
                })
            }),
    {
        let len: u64 = match part_len {
            Some(n) => n,
            None => 0,
        };
        let discard = len > m.size || (len == m.size && len > 0);
        let url = client.media_url(m);
        (Download { url, already: if discard { 0 } else { len }, restarted: false }, discard)
    }

    /// The value of the `Range` header of the request.
    pub fn range(&self) -> (r: String)
        ensures
            r@ == "bytes="@ + decimal(self@.already as nat) + "-"@,
    {
        let mut s = "bytes=".to_owned();
        push_u64(&mut s, self.already);
        s.append("-");
        s
    }

    /// Takes the answer to the request.
    pub fn answered(&mut self, status: u16, content_range: Option<&str>) -> (r: DownloadStep)
        ensures
            (final(self)@, r@) == old(self)@.answered(
                status,
                crate::text::opt_str_view(content_range),
            ),
    {
        if status == 416 && !self.restarted {
            self.restarted = true;
            self.already = 0;
            return DownloadStep::Restart;
        }
        if status != 200 && status != 206 {
            let mut msg = "GET ".to_owned();
            msg.append(self.url.as_str());
            msg.append(" (Range bytes=");
            push_u64(&mut msg, self.already);
            msg.append("-) -> ");
            push_u64(&mut msg, status as u64);
            return DownloadStep::Fail(CoreError::Http { status: Some(status), msg });
        }
        if status == 206 && self.already > 0 {
            let start = content_range_start(content_range);
            let matches = match start {
                Some(n) => n == self.already,
                None => false,
            };
            if matches {
                return DownloadStep::Stream { resume: true };
            }
            if !self.restarted {
                self.restarted = true;
                self.already = 0;
                return DownloadStep::Restart;
            }
            let mut msg = "GET ".to_owned();
            msg.append(self.url.as_str());
            msg.append(": Content-Range start ");
            let ghost head = msg@;
            match start {
                Some(n) => {
                    msg.append("Some(");
                    push_u64(&mut msg, n);
                    msg.append(")");
                    assert(msg@ =~= head + number_debug(Some(n as nat)));
                },
                None => {
                    msg.append("None");
                },
            }
            msg.append(" != resume offset ");
            push_u64(&mut msg, self.already);
            return DownloadStep::Fail(CoreError::Http { status: Some(206), msg });
        }
        DownloadStep::Stream { resume: false }
    }
}

/// Bytes are put behind those on disk only if the camera confirms that they begin
/// where those end; so a body never lands at a wrong place.
pub proof fn resumes_only_at_the_confirmed_offset(
    d: Download<Seq<char>>,
    status: u16,
    content_range: Option<Seq<char>>,
)
    ensures
        d.answered(status, content_range).1 matches DownloadStep::Stream { resume } ==> (resume
            ==> status == 206 && d.already > 0 && header_start(content_range) == Some(
            d.already as nat,
        )),
{
}

/// A download is started over at most once, and then from the start.
pub proof fn a_download_restarts_at_most_once(
    d: Download<Seq<char>>,
    status: u16,
    content_range: Option<Seq<char>>,
)
    ensures
        ({
            let (next, step) = d.answered(status, content_range);
            &&& step is Restart ==> !d.restarted && next.restarted && next.already == 0
            &&& !(step is Restart) ==> next == d
        }),
{
}

/// A partial file that is taken up is shorter than the file, so its offset never
/// points at or behind the end.
pub proof fn a_resumed_part_is_incomplete(len: u64, size: u64)
    requires
        !stale(len, size),
    ensures
        len == 0 || len < size,
{
}

/// A body is taken only with 200 or 206. A download is started over only with 416, or
/// with a 206 whose range does not begin where the bytes on disk end. Every other status
/// is a failure that carries it.
pub proof fn a_download_fails_with_its_status(
    d: Download<Seq<char>>,
    status: u16,
    content_range: Option<Seq<char>>,
)
    ensures
        ({
            let (next, step) = d.answered(status, content_range);
            &&& step is Stream ==> status == 200 || status == 206
            &&& step is Restart ==> !d.restarted && (status == 416 || (status == 206 && d.already
                > 0 && header_start(content_range) != Some(d.already as nat)))
            &&& step matches DownloadStep::Fail(e) ==> (e matches CoreError::Http {
                status: carried,
                msg,
            } && carried == Some(status))
            &&& status != 200 && status != 206 && (status != 416 || d.restarted) ==> step == (
            DownloadStep::Fail(
                CoreError::Http {
                    status: Some(status),
                    msg: "GET "@ + d.url + " (Range bytes="@ + decimal(d.already as nat) + "-) -> "@
                        + decimal(status as nat),
                },
            ))
            &&& next.url == d.url
        }),
{
}

/// Which bodies are taken, and where they go. With 200 the whole file comes and replaces
/// what is on disk. With 206 and nothing on disk the file comes from its start. With 206
/// and a range that begins where the bytes on disk end, the body goes behind them.
pub proof fn a_body_goes_where_it_belongs(
    d: Download<Seq<char>>,
    status: u16,
    content_range: Option<Seq<char>>,
)
    ensures
        status == 200 ==> d.answered(status, content_range).1 == (DownloadStep::<
            Seq<char>,
        >::Stream { resume: false }),
        status == 206 && d.already == 0 ==> d.answered(status, content_range).1 == (DownloadStep::<
            Seq<char>,
        >::Stream { resume: false }),
        status == 206 && d.already > 0 && header_start(content_range) == Some(d.already as nat)
            ==> d.answered(status, content_range).1 == (DownloadStep::<Seq<char>>::Stream {
            resume: true,
        }),
        status == 206 && d.already > 0 && header_start(content_range) != Some(d.already as nat)
            ==> !(d.answered(status, content_range).1 is Stream),
        (status == 416 || (status == 206 && d.already > 0 && header_start(content_range) != Some(
            d.already as nat,
        ))) && !d.restarted ==> d.answered(status, content_range).1 is Restart,
{
}

/// A partial file is discarded if and only if it has bytes, and as many as the file or
/// more.
pub proof fn a_full_part_is_discarded(len: u64, size: u64)
    ensures
        stale(len, size) <==> len > 0 && len >= size,
{
}

/// The start of a range reads back as it is written.
pub proof fn a_range_reads_back(start: u64, end: nat, total: nat)
    ensures
        header_start(
            Some(
                "bytes "@ + decimal(start as nat) + "-"@ + decimal(end) + "/"@ + decimal(total),
            ),
        ) == Some(start as nat),
        header_start(None) is None,
{
    reveal_strlit("bytes ");
    reveal_strlit("bytes");
    reveal_strlit("-");
    reveal_strlit("/");
    let a = decimal(start as nat);
    let b = decimal(end);
    let c = decimal(total);
    lemma_decimal_value(start as nat);
    lemma_decimal_value(end);
    lemma_decimal_value(total);
    let h = "bytes "@ + a + "-"@ + b + "/"@ + c;
    let n = h.len() as int;
    assert(h.last() == c.last());
    assert(is_digit(c[c.len() - 1]));
    lemma_trimmed_start_is(h, CharSet::Space, 0);
    assert(h.skip(0) =~= h);
    lemma_trimmed_end_is(h, CharSet::Space, n);
    assert(h.take(n) =~= h);
    assert("bytes"@.is_prefix_of(h));
    let r = h.skip(5);
    assert(r[0] == ' ');
    assert(r[1] == a[0]);
    assert(is_digit(a[0]));
    lemma_trimmed_start_is(r, CharSet::Space, 1);
    let rest = a + "-"@ + b + "/"@ + c;
    assert(r.skip(1) =~= rest);
    let slash = (a.len() + 1 + b.len()) as int;
    assert forall|j: int| 0 <= j < slash implies rest[j] != '/' by {
        if j < a.len() {
            assert(is_digit(a[j]));
        } else if j > a.len() {
            assert(rest[j] == b[j - a.len() - 1]);
            assert(is_digit(b[j - a.len() - 1]));
        }
    }
    lemma_first_index_is(rest, '/', slash);
    let range = a + "-"@ + b;
    assert(rest.take(slash) =~= range);
    assert forall|j: int| 0 <= j < a.len() implies range[j] != '-' by {
        assert(is_digit(a[j]));
    }
    lemma_first_index_is(range, '-', a.len() as int);
    assert(range.take(a.len() as int) =~= a);
    lemma_trimmed_start_is(a, CharSet::Space, 0);
    assert(a.skip(0) =~= a);
    assert(is_digit(a[a.len() - 1]));
    lemma_trimmed_end_is(a, CharSet::Space, a.len() as int);
    assert(a.take(a.len() as int) =~= a);
    written_numbers_read_back(start as nat, u64::MAX as nat);
}

proof fn lemma_readable(dir: Seq<char>, files: Seq<ListedFile>, i: int)
    requires
        0 <= i < files.len(),
        number_up_to(files[i].s@, u64::MAX as nat) is Some,
    ensures
        exists|j: int|
            0 <= j < readable(dir, files).len() && #[trigger] readable(dir, files)[j]
                == (RemoteMedia {
                dir,
                name: files[i].n@,
                size: number_up_to(files[i].s@, u64::MAX as nat)->0 as u64,
                captured_unix: match signed_number(files[i].cre@) {
                    Some(t) => t as i64,
                    None => 0,
                },
            }),
    decreases files.len(),
{
    let rest = readable(dir, files.drop_last());
    let all = readable(dir, files);
    if i < files.len() - 1 {
        lemma_readable(dir, files.drop_last(), i);
        let m = RemoteMedia {
            dir,
            name: files[i].n@,
            size: number_up_to(files[i].s@, u64::MAX as nat)->0 as u64,
            captured_unix: match signed_number(files[i].cre@) {
                Some(t) => t as i64,
                None => 0,
            },
        };
        let j = choose|j: int| 0 <= j < rest.len() && rest[j] == m;
        assert(all[j] == m);
    } else {
        assert(all[rest.len() as int] == all.last());
    }
}

proof fn lemma_readable_only(dir: Seq<char>, files: Seq<ListedFile>, j: int)
    requires
        0 <= j < readable(dir, files).len(),
    ensures
        readable(dir, files)[j].dir == dir,
        exists|i: int|
            0 <= i < files.len() && (#[trigger] files[i]).n@ == readable(dir, files)[j].name
                && number_up_to(files[i].s@, u64::MAX as nat) == Some(
                readable(dir, files)[j].size as nat,
            ),
    decreases files.len(),
{
    let rest = readable(dir, files.drop_last());
    let all = readable(dir, files);
    if j < rest.len() {
        lemma_readable_only(dir, files.drop_last(), j);
        let i = choose|i: int|
            0 <= i < files.drop_last().len() && (#[trigger] files.drop_last()[i]).n@ == rest[j].name
                && number_up_to(files.drop_last()[i].s@, u64::MAX as nat) == Some(
                rest[j].size as nat,
            );
        assert(files[i] == files.drop_last()[i]);
        assert(all[j] == rest[j]);
    } else {
        let f = files[files.len() - 1];
        assert(all[j] == all.last());
        assert(f == files.last());
    }
}

/// Every file of a listed directory whose size is written as a number comes out with its
/// directory, its name, that size and the creation time that is written, whatever else is
/// listed.
pub proof fn a_listed_file_comes_out(dirs: Seq<ListedDir>, d: int, i: int, size: u64, created: i64)
    requires
        0 <= d < dirs.len(),
        0 <= i < dirs[d].fs@.len(),
        dirs[d].fs@[i].s@ == decimal(size as nat),
        dirs[d].fs@[i].cre@ == decimal_int(created as int),
    ensures
        exists|j: int|
            0 <= j < flattened(dirs).len() && #[trigger] flattened(dirs)[j] == (RemoteMedia {
                dir: dirs[d].d@,
                name: dirs[d].fs@[i].n@,
                size,
                captured_unix: created,
            }),
    decreases dirs.len(),
{
    let m = RemoteMedia {
        dir: dirs[d].d@,
        name: dirs[d].fs@[i].n@,
        size,
        captured_unix: created,
    };
    let head = flattened(dirs.drop_last());
    let all = flattened(dirs);
    let tail = readable(dirs.last().d@, dirs.last().fs@);
    if d < dirs.len() - 1 {
        a_listed_file_comes_out(dirs.drop_last(), d, i, size, created);
        let j = choose|j: int| 0 <= j < head.len() && head[j] == m;
        assert(all[j] == m);
    } else {
        written_numbers_read_back(size as nat, u64::MAX as nat);
        written_integers_read_back(created);
        lemma_readable(dirs[d].d@, dirs[d].fs@, i);
        let j = choose|j: int| 0 <= j < tail.len() && tail[j] == m;
        assert(all[head.len() + j] == m);
    }
}

/// Nothing comes out that is not listed: each file that does has the directory and the name
/// of one that is, and the size that is written there.
pub proof fn only_listed_files_come_out(dirs: Seq<ListedDir>, j: int)
    requires
        0 <= j < flattened(dirs).len(),
    ensures
        exists|d: int, i: int|
            0 <= d < dirs.len() && 0 <= i < dirs[d].fs@.len() && dirs[d].d@ == flattened(dirs)[j].dir
                && (#[trigger] dirs[d].fs@[i]).n@ == flattened(dirs)[j].name && number_up_to(
                dirs[d].fs@[i].s@,
                u64::MAX as nat,
            ) == Some(flattened(dirs)[j].size as nat),
    decreases dirs.len(),
{
    let head = flattened(dirs.drop_last());
    let all = flattened(dirs);
    let last = dirs[dirs.len() - 1];
    let tail = readable(last.d@, last.fs@);
    assert(last == dirs.last());
    if j < head.len() {
        only_listed_files_come_out(dirs.drop_last(), j);
        assert(all[j] == head[j]);
        let (d, i) = choose|d: int, i: int|
            0 <= d < dirs.drop_last().len() && 0 <= i < dirs.drop_last()[d].fs@.len()
                && dirs.drop_last()[d].d@ == head[j].dir && (
            #[trigger] dirs.drop_last()[d].fs@[i]).n@ == head[j].name && number_up_to(
                dirs.drop_last()[d].fs@[i].s@,
                u64::MAX as nat,
            ) == Some(head[j].size as nat);
        assert(dirs[d].fs@[i] == dirs.drop_last()[d].fs@[i]);
    } else {
        let k = j - head.len();
        assert(all[j] == tail[k]);
        lemma_readable_only(last.d@, last.fs@, k);
        let i = choose|i: int|
            0 <= i < last.fs@.len() && (#[trigger] last.fs@[i]).n@ == tail[k].name && number_up_to(
                last.fs@[i].s@,
                u64::MAX as nat,
            ) == Some(tail[k].size as nat);
        assert(dirs[dirs.len() - 1].fs@[i] == last.fs@[i]);
    }
}

} // verus!
