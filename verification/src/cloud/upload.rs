//! The conversation of an upload: which request comes next, and what its answer
//! means.

use crate::cloud::chunks::{
    chunk_count, chunk_len, chunk_name, chunk_name_of, chunk_offset, chunk_range,
    chunks_cover_the_file, count_chunks,
};
use crate::cloud::nextcloud::NextcloudUploader;
use crate::cloud::webdav::{
    files_url, first_length, listed_chunks, parse_chunk_listing, parse_first_contentlength,
    uploads_url,
};
use crate::cloud::{ResumeState, UploadOutcome};
use crate::error::{refusal, refused, CoreError, Result};
use crate::text::{opt_view, pieces, split_on, views};
use crate::xml::xml_tokens;
use std::collections::HashMap;
use vstd::prelude::*;

verus! {

broadcast use vstd::std_specs::hash::group_hash_axioms;

/// The answer to a request. The body is read where a listing was asked for.
#[derive(Debug, PartialEq, Eq)]
pub struct Reply<S = String> {
    pub status: u16,
    pub body: S,
    pub etag: Option<S>,
}

impl View for Reply<String> {
    type V = Reply<Seq<char>>;

    open spec fn view(&self) -> Reply<Seq<char>> {
        Reply { status: self.status, body: self.body@, etag: opt_view(self.etag) }
    }
}

// ---- is the file there already ----------------------------------------------

/// What the answer to a question about a file at `url` says of its length: the
/// length of the file that is there, `None` without one, or the failure.
pub open spec fn present_length(url: Seq<char>, reply: Reply<Seq<char>>) -> std::result::Result<
    Option<nat>,
    CoreError<Seq<char>>,
> {
    if reply.status == 207 {
        Ok(first_length(xml_tokens(reply.body), false))
    } else if reply.status == 404 {
        Ok(None)
    } else if reply.status == 401 {
        Err(
            CoreError::CloudAuth(
                "PROPFIND rejected (401); generate a Nextcloud app password"@,
            ),
        )
    } else {
        Err(refused("PROPFIND "@, url, reply.status))
    }
}

/// Reads the answer to a question about a file at `url`: the length of the file
/// that is there.
pub fn propfind_present(url: &str, reply: &Reply) -> (r: Result<Option<u64>>)
    ensures
        match r {
            Ok(Some(n)) => present_length(url@, reply@) == Ok::<Option<nat>, CoreError<Seq<char>>>(
                Some(n as nat),
            ),
            Ok(None) => present_length(url@, reply@) == Ok::<Option<nat>, CoreError<Seq<char>>>(None),
            Err(e) => present_length(url@, reply@) == Err::<Option<nat>, CoreError<Seq<char>>>(e@),
        },
{
    if reply.status == 207 {
        Ok(parse_first_contentlength(reply.body.as_str()))
    } else if reply.status == 404 {
        Ok(None)
    } else if reply.status == 401 {
        Err(
            CoreError::CloudAuth(
                "PROPFIND rejected (401); generate a Nextcloud app password".to_owned(),
            ),
        )
    } else {
        Err(refusal("PROPFIND ", url, reply.status))
    }
}

/// True if a file of `size` bytes stands at `url`, by the answer of the server.
pub fn already_present(url: &str, size: u64, reply: &Reply) -> (r: Result<bool>)
    ensures
        match r {
            Ok(b) => present_length(url@, reply@) matches Ok(len) && b == (len == Some(size as nat)),
            Err(e) => present_length(url@, reply@) == Err::<Option<nat>, CoreError<Seq<char>>>(e@),
        },
{
    match propfind_present(url, reply) {
        Ok(Some(n)) => Ok(n == size),
        Ok(None) => Ok(false),
        Err(e) => Err(e),
    }
}

// ---- one request ------------------------------------------------------------

/// The directories above a path, from the top down. Empty segments do not count.
pub open spec fn parents_of(segments: Seq<Seq<char>>) -> Seq<Seq<char>>
    decreases segments.len(),
{
    if segments.len() == 0 {
        seq![]
    } else {
        let above = parents_of(segments.drop_last());
        let last = segments.last();
        if last.len() == 0 {
            above
        } else if above.len() == 0 {
            above.push(last)
        } else {
            above.push(above.last() + "/"@ + last)
        }
    }
}

/// The directories that a file at `rel` needs, from the top down.
pub open spec fn parent_dirs(rel: Seq<char>) -> Seq<Seq<char>> {
    parents_of(pieces(rel, '/').drop_last())
}

/// The directories that a file at `rel` needs, from the top down.
pub fn parent_paths(rel: &str) -> (r: Vec<String>)
    ensures
        views(r@) == parent_dirs(rel@),
{
    let segs = split_on(rel, '/');
    let ghost all = pieces(rel@, '/').drop_last();
    let mut out: Vec<String> = Vec::new();
    let mut i: usize = 0;
    assert(views(out@) =~= parents_of(all.take(0)));
    let n: usize = segs.len();
    while i < n - 1
        invariant
            n == segs@.len(),
            views(segs@) == pieces(rel@, '/'),
            all == pieces(rel@, '/').drop_last(),
            segs@.len() >= 1,
            i < n,
            views(out@) == parents_of(all.take(i as int)),
        decreases n - i,
    {
        let ghost before = out@;
        let seg = segs[i].as_str();
        proof {
            assert(all[i as int] == views(segs@)[i as int]);
            assert(all.take(i + 1).drop_last() =~= all.take(i as int));
            assert(all.take(i + 1).last() == seg@);
        }
        if !seg.is_empty() {
            let k: usize = out.len();
            if k == 0 {
                out.push(seg.to_owned());
                assert(views(out@) =~= views(before).push(seg@));
            } else {
                assert(views(before).last() == before[k - 1]@);
                let mut path = out[k - 1].clone();
                path.append("/");
                path.append(seg);
                out.push(path);
                assert(views(out@) =~= views(before).push(path@));
            }
        }
        i += 1;
    }
    assert(all.take(i as int) =~= all);
    out
}

/// What a plain upload does next.
#[derive(Debug, PartialEq, Eq)]
pub enum PutAction<S = String> {
    /// Send the file to `url`.
    Send { url: S },
    /// Create the directory at `url`.
    MakeDir { url: S },
    /// The upload is done; the whole file is reported as uploaded.
    Finished(UploadOutcome<S>),
    /// The upload has failed.
    Failed(CoreError<S>),
}

impl View for PutAction<String> {
    type V = PutAction<Seq<char>>;

    open spec fn view(&self) -> PutAction<Seq<char>> {
        match *self {
            PutAction::Send { url } => PutAction::Send { url: url@ },
            PutAction::MakeDir { url } => PutAction::MakeDir { url: url@ },
            PutAction::Finished(o) => PutAction::Finished(o@),
            PutAction::Failed(e) => PutAction::Failed(e@),
        }
    }
}

/// The request that a plain upload waits for.
#[derive(Debug, Clone, Copy, PartialEq, Eq, Structural)]
pub enum PutPhase {
    /// The file, for the first time.
    First,
    /// The directory of this index.
    Dir(usize),
    /// The file, for the second and last time.
    Again,
}

/// The upload of a file in one request. Where directories are missing, they are
/// created and the file is sent once more.
pub struct PlainUpload {
    url: String,
    rel: String,
    total: u64,
    /// The addresses of the directories above the file, from the top down.
    dirs: Vec<String>,
    phase: PutPhase,
}

/// Where a plain upload stands.
pub struct PlainModel {
    pub url: Seq<char>,
    pub rel: Seq<char>,
    pub total: u64,
    pub dirs: Seq<Seq<char>>,
    pub phase: PutPhase,
}

impl View for PlainUpload {
    type V = PlainModel;

    closed spec fn view(&self) -> PlainModel {
        PlainModel {
            url: self.url@,
            rel: self.rel@,
            total: self.total,
            dirs: views(self.dirs@),
            phase: self.phase,
        }
    }
}

impl PlainModel {
    /// The upload of a file, before its first request.
    pub open spec fn started(
        up: NextcloudUploader<Seq<char>>,
        rel: Seq<char>,
        total: u64,
    ) -> PlainModel {
        let dirs = parent_dirs(rel);
        PlainModel {
            url: up.file_url(rel),
            rel,
            total,
            dirs: Seq::new(dirs.len(), |i: int| up.file_url(dirs[i])),
            phase: PutPhase::First,
        }
    }

    /// True if the phase speaks of a directory that there is.
    pub open spec fn well_formed(self) -> bool {
        self.phase matches PutPhase::Dir(i) ==> i < self.dirs.len()
    }

    /// The upload when the directory of this index is next: it is created, or the
    /// file is sent again behind the last one.
    pub open spec fn at_dir(self, i: int) -> (PlainModel, PutAction<Seq<char>>) {
        if i < self.dirs.len() {
            (
                PlainModel { phase: PutPhase::Dir(i as usize), ..self },
                PutAction::MakeDir { url: self.dirs[i] },
            )
        } else {
            (PlainModel { phase: PutPhase::Again, ..self }, PutAction::Send { url: self.url })
        }
    }

    /// What the upload does with an answer.
    pub open spec fn step(self, reply: Reply<Seq<char>>) -> (PlainModel, PutAction<Seq<char>>) {
        let s = reply.status;
        match self.phase {
            PutPhase::Dir(i) => {
                if s == 201 || s == 405 {
                    self.at_dir(i + 1)
                } else if s == 401 {
                    (
                        self,
                        PutAction::Failed(
                            CoreError::CloudAuth(
                                "MKCOL rejected (401); generate a Nextcloud app password"@,
                            ),
                        ),
                    )
                } else {
                    (self, PutAction::Failed(refused("MKCOL "@, self.dirs[i as int], s)))
                }
            },
            _ => {
                if s == 201 || s == 204 {
                    (
                        self,
                        PutAction::Finished(
                            UploadOutcome {
                                remote_ref: self.rel,
                                bytes: self.total,
                                etag: reply.etag,
                            },
                        ),
                    )
                } else if self.phase == PutPhase::First && (s == 409 || s == 404) {
                    self.at_dir(0)
                } else if s == 401 {
                    (
                        self,
                        PutAction::Failed(
                            CoreError::CloudAuth(
                                "PUT rejected (401); generate a Nextcloud app password"@,
                            ),
                        ),
                    )
                } else if self.phase == PutPhase::First {
                    (self, PutAction::Failed(refused("PUT "@, self.url, s)))
                } else {
                    (self, PutAction::Failed(refused("PUT (retry) "@, self.url, s)))
                }
            },
        }
    }
}

impl PlainUpload {
    /// True if the upload speaks of a directory that there is.
    pub open spec fn well_formed(self) -> bool {
        self@.well_formed()
    }

    /// Starts the upload of a file of `total` bytes to the path `rel`.
    pub fn start(up: &NextcloudUploader, rel: &str, total: u64) -> (r: (PlainUpload, PutAction))
        ensures
            r.0@ == PlainModel::started(up@, rel@, total),
            r.0.well_formed(),
            r.1@ == (PutAction::Send { url: up@.file_url(rel@) }),
    {
        let url = files_url(up.base_url.as_str(), up.username.as_str(), rel);
        let paths = parent_paths(rel);
        let ghost dirs_spec = PlainModel::started(up@, rel@, total).dirs;
        let mut dirs: Vec<String> = Vec::new();
        let mut i: usize = 0;
        while i < paths.len()
            invariant
                views(paths@) == parent_dirs(rel@),
                dirs_spec == PlainModel::started(up@, rel@, total).dirs,
                i <= paths@.len(),
                dirs@.len() == i,
                forall|k: int| 0 <= k < i ==> (#[trigger] dirs@[k])@ == dirs_spec[k],
            decreases paths.len() - i,
        {
            assert(views(paths@)[i as int] == paths@[i as int]@);
            dirs.push(files_url(up.base_url.as_str(), up.username.as_str(), paths[i].as_str()));
            i += 1;
        }
        assert(views(paths@).len() == paths@.len());
        assert(views(dirs@) =~= dirs_spec);
        let r = PlainUpload {
            url: url.clone(),
            rel: rel.to_owned(),
            total,
            dirs,
            phase: PutPhase::First,
        };
        (r, PutAction::Send { url })
    }

    /// Goes to the directory of this index, or behind the last one.
    fn go_to_dir(&mut self, i: usize) -> (action: PutAction)
        requires
            i <= old(self)@.dirs.len(),
        ensures
            (final(self)@, action@) == old(self)@.at_dir(i as int),
            final(self).well_formed(),
    {
        assert(views(self.dirs@).len() == self.dirs@.len());
        if i < self.dirs.len() {
            self.phase = PutPhase::Dir(i);
            assert(views(self.dirs@)[i as int] == self.dirs@[i as int]@);
            PutAction::MakeDir { url: self.dirs[i].clone() }
        } else {
            self.phase = PutPhase::Again;
            PutAction::Send { url: self.url.clone() }
        }
    }

    /// Takes the answer to the last request.
    pub fn step(&mut self, reply: &Reply) -> (action: PutAction)
        requires
            old(self).well_formed(),
        ensures
            (final(self)@, action@) == old(self)@.step(reply@),
            final(self).well_formed(),
    {
        let s: u16 = reply.status;
        match self.phase {
            PutPhase::Dir(i) => {
                let n: usize = self.dirs.len();
                assert(views(self.dirs@).len() == n);
                assert(i < n);
                assert(views(self.dirs@)[i as int] == self.dirs@[i as int]@);
                if s == 201 || s == 405 {
                    self.go_to_dir(i + 1)
                } else if s == 401 {
                    PutAction::Failed(
                        CoreError::CloudAuth(
                            "MKCOL rejected (401); generate a Nextcloud app password".to_owned(),
                        ),
                    )
                } else {
                    PutAction::Failed(refusal("MKCOL ", self.dirs[i].as_str(), s))
                }
            },
            PutPhase::First | PutPhase::Again => {
                let first = self.phase == PutPhase::First;
                if s == 201 || s == 204 {
                    PutAction::Finished(
                        UploadOutcome {
                            remote_ref: self.rel.clone(),
                            bytes: self.total,
                            etag: crate::config::clone_opt(&reply.etag),
                        },
                    )
                } else if first && (s == 409 || s == 404) {
                    self.go_to_dir(0)
                } else if s == 401 {
                    PutAction::Failed(
                        CoreError::CloudAuth(
                            "PUT rejected (401); generate a Nextcloud app password".to_owned(),
                        ),
                    )
                } else if first {
                    PutAction::Failed(refusal("PUT ", self.url.as_str(), s))
                } else {
                    PutAction::Failed(refusal("PUT (retry) ", self.url.as_str(), s))
                }
            },
        }
    }
}

impl PlainModel {
    /// How many more answers the upload can take.
    pub open spec fn answers_left(self) -> int {
        match self.phase {
            PutPhase::First => self.dirs.len() as int + 2,
            PutPhase::Dir(i) => self.dirs.len() - i + 1,
            PutPhase::Again => 1,
        }
    }
}

/// A plain upload comes to an end: each answer either ends it or leaves fewer
/// answers to come, so the file is sent at most twice.
pub proof fn plain_upload_ends(m: PlainModel, reply: Reply<Seq<char>>)
    requires
        m.well_formed(),
        m.dirs.len() <= usize::MAX,
    ensures
        ({
            let (next, action) = m.step(reply);
            action is Finished || action is Failed || (next.well_formed() && 0
                < next.answers_left() < m.answers_left())
        }),
{
}

/// A plain upload is done only if the server took the file.
pub proof fn plain_upload_is_confirmed(m: PlainModel, reply: Reply<Seq<char>>)
    ensures
        m.step(reply).1 is Finished <==> !(m.phase is Dir) && (reply.status == 201 || reply.status
            == 204),
{
}

// ---- a chunked upload -------------------------------------------------------

/// What a chunked upload does next.
#[derive(Debug, PartialEq, Eq)]
pub enum ChunkAction<S = String> {
    /// Ask which parts the upload directory holds.
    List { dir: S },
    /// Create the upload directory.
    MakeDir { dir: S, dest: S },
    /// Send `len` bytes from `offset` on as one part.
    Send { url: S, dest: S, offset: u64, len: u64, total: u64 },
    /// Put the parts together.
    Assemble { url: S, dest: S, total: u64 },
    /// The upload is done.
    Finished(UploadOutcome<S>),
    /// The upload has failed.
    Failed(CoreError<S>),
}

impl View for ChunkAction<String> {
    type V = ChunkAction<Seq<char>>;

    open spec fn view(&self) -> ChunkAction<Seq<char>> {
        match *self {
            ChunkAction::List { dir } => ChunkAction::List { dir: dir@ },
            ChunkAction::MakeDir { dir, dest } => ChunkAction::MakeDir { dir: dir@, dest: dest@ },
            ChunkAction::Send { url, dest, offset, len, total } => ChunkAction::Send {
                url: url@,
                dest: dest@,
                offset,
                len,
                total,
            },
            ChunkAction::Assemble { url, dest, total } => ChunkAction::Assemble {
                url: url@,
                dest: dest@,
                total,
            },
            ChunkAction::Finished(o) => ChunkAction::Finished(o@),
            ChunkAction::Failed(e) => ChunkAction::Failed(e@),
        }
    }
}

/// The request that a chunked upload waits for.
#[derive(Debug, Clone, Copy, PartialEq, Eq, Structural)]
pub enum ChunkPhase {
    /// The listing of an upload directory that an earlier attempt may have used.
    Listing,
    /// The creation of the upload directory.
    Making,
    /// A part.
    Sending,
    /// The request that puts the parts together.
    Assembling,
}

/// The upload of a file in parts. Parts that the server holds in full are not
/// sent again.
pub struct ChunkedUpload {
    dest: String,
    rel: String,
    total: u64,
    dir: String,
    phase: ChunkPhase,
    present: HashMap<u32, u64>,
    /// The part that is sent next, counted from one.
    next: u32,
}

/// Where a chunked upload stands.
#[verifier::ext_equal]
pub struct ChunkedModel {
    pub dest: Seq<char>,
    pub rel: Seq<char>,
    pub total: u64,
    pub dir: Seq<char>,
    pub phase: ChunkPhase,
    pub present: Map<u32, u64>,
    pub next: u32,
}

impl View for ChunkedUpload {
    type V = ChunkedModel;

    closed spec fn view(&self) -> ChunkedModel {
        ChunkedModel {
            dest: self.dest@,
            rel: self.rel@,
            total: self.total,
            dir: self.dir@,
            phase: self.phase,
            present: self.present@,
            next: self.next,
        }
    }
}

/// How many bytes of the file end with this part.
pub open spec fn uploaded_after(total: u64, part: int) -> int {
    chunk_offset(total, part) + chunk_len(total, part)
}

impl ChunkedModel {
    /// The upload of a file, before its first request, and that request. With an id
    /// at hand it asks what an earlier attempt left in the directory of that id;
    /// otherwise it creates the directory of the fresh id.
    pub open spec fn started(
        up: NextcloudUploader<Seq<char>>,
        rel: Seq<char>,
        total: u64,
        resume_id: Option<Seq<char>>,
        fresh_id: Seq<char>,
    ) -> (ChunkedModel, ChunkAction<Seq<char>>) {
        let m = ChunkedModel {
            dest: up.file_url(rel),
            rel,
            total,
            dir: up.dir_url(
                match resume_id {
                    Some(id) => id,
                    None => fresh_id,
                },
            ),
            phase: if resume_id is Some {
                ChunkPhase::Listing
            } else {
                ChunkPhase::Making
            },
            present: Map::empty(),
            next: 1,
        };
        match resume_id {
            Some(_) => (m, ChunkAction::List { dir: m.dir }),
            None => (m, ChunkAction::MakeDir { dir: m.dir, dest: m.dest }),
        }
    }

    /// True if the part that comes next is a part, or follows the last one.
    pub open spec fn well_formed(self) -> bool {
        &&& 1 <= self.next <= chunk_count(self.total) + 1
        &&& self.phase is Sending ==> self.next <= chunk_count(self.total)
    }

    /// True if the server holds this part in full.
    pub open spec fn stored(self, part: int) -> bool {
        self.present.dom().contains(part as u32) && self.present[part as u32] == chunk_len(
            self.total,
            part,
        )
    }

    /// The first part from `part` on that the server does not hold in full.
    pub open spec fn first_missing(self, part: int) -> int
        decreases chunk_count(self.total) + 1 - part,
    {
        if part <= chunk_count(self.total) && self.stored(part) {
            self.first_missing(part + 1)
        } else {
            part
        }
    }

    /// The address of a part.
    pub open spec fn part_url(self, part: int) -> Seq<char> {
        self.dir + "/"@ + chunk_name_of(part as nat)
    }

    /// The address that puts the parts together.
    pub open spec fn assemble_url(self) -> Seq<char> {
        self.dir + "/.file"@
    }

    /// The upload when `part` is next: parts that are stored are reported and
    /// passed over, the first other one is sent, and behind the last one the
    /// parts are put together. With the new state come the reports and the action.
    pub open spec fn go_on(self, part: int) -> (ChunkedModel, Seq<u64>, ChunkAction<Seq<char>>) {
        let p = self.first_missing(part);
        let reports = Seq::new(
            (p - part) as nat,
            |i: int| uploaded_after(self.total, part + i) as u64,
        );
        if p <= chunk_count(self.total) {
            (
                ChunkedModel { phase: ChunkPhase::Sending, next: p as u32, ..self },
                reports,
                ChunkAction::Send {
                    url: self.part_url(p),
                    dest: self.dest,
                    offset: chunk_offset(self.total, p) as u64,
                    len: chunk_len(self.total, p) as u64,
                    total: self.total,
                },
            )
        } else {
            (
                ChunkedModel { phase: ChunkPhase::Assembling, next: p as u32, ..self },
                reports,
                ChunkAction::Assemble {
                    url: self.assemble_url(),
                    dest: self.dest,
                    total: self.total,
                },
            )
        }
    }

    /// The upload after it has failed.
    pub open spec fn fail(self, e: CoreError<Seq<char>>) -> (
        ChunkedModel,
        Seq<u64>,
        ChunkAction<Seq<char>>,
    ) {
        (self, seq![], ChunkAction::Failed(e))
    }

    /// What the upload does with an answer: the new state, the numbers of bytes
    /// that are reported as uploaded, and the action. A directory that is gone or
    /// empty is created under the same id, so that the next attempt finds it.
    pub open spec fn step(self, reply: Reply<Seq<char>>) -> (
        ChunkedModel,
        Seq<u64>,
        ChunkAction<Seq<char>>,
    ) {
        let s = reply.status;
        match self.phase {
            ChunkPhase::Listing => {
                if s == 207 || s == 404 {
                    let found = if s == 207 {
                        listed_chunks(reply.body)
                    } else {
                        Map::<u32, u64>::empty()
                    };
                    if found.dom().len() == 0 {
                        (
                            ChunkedModel {
                                phase: ChunkPhase::Making,
                                present: Map::empty(),
                                ..self
                            },
                            seq![],
                            ChunkAction::MakeDir { dir: self.dir, dest: self.dest },
                        )
                    } else {
                        (ChunkedModel { present: found, ..self }).go_on(1)
                    }
                } else if s == 401 {
                    self.fail(CoreError::CloudAuth("PROPFIND upload dir rejected (401)"@))
                } else {
                    self.fail(refused("PROPFIND "@, self.dir, s))
                }
            },
            ChunkPhase::Making => {
                if s == 201 || s == 405 {
                    self.go_on(1)
                } else if s == 401 {
                    self.fail(CoreError::CloudAuth("MKCOL upload dir rejected (401)"@))
                } else {
                    self.fail(refused("MKCOL "@, self.dir, s))
                }
            },
            ChunkPhase::Sending => {
                if s == 201 || s == 204 {
                    let (m, reports, action) = self.go_on(self.next + 1);
                    (
                        m,
                        seq![uploaded_after(self.total, self.next as int) as u64] + reports,
                        action,
                    )
                } else if s == 401 {
                    self.fail(CoreError::CloudAuth("chunk PUT rejected (401)"@))
                } else {
                    self.fail(refused("PUT chunk "@, self.part_url(self.next as int), s))
                }
            },
            ChunkPhase::Assembling => {
                if s == 201 || s == 204 {
                    (
                        self,
                        seq![],
                        ChunkAction::Finished(
                            UploadOutcome {
                                remote_ref: self.rel,
                                bytes: self.total,
                                etag: reply.etag,
                            },
                        ),
                    )
                } else if s == 401 {
                    self.fail(CoreError::CloudAuth("MOVE rejected (401)"@))
                } else {
                    self.fail(refused("MOVE "@, self.assemble_url(), s))
                }
            },
        }
    }
}

pub(crate) proof fn lemma_first_missing(m: ChunkedModel, part: int)
    requires
        1 <= part <= chunk_count(m.total) + 1,
    ensures
        part <= m.first_missing(part) <= chunk_count(m.total) + 1,
        forall|p: int| part <= p < m.first_missing(part) ==> #[trigger] m.stored(p),
        m.first_missing(part) <= chunk_count(m.total) ==> !m.stored(m.first_missing(part)),
    decreases chunk_count(m.total) + 1 - part,
{
    if part <= chunk_count(m.total) && m.stored(part) {
        lemma_first_missing(m, part + 1);
    }
}

impl ChunkedUpload {
    /// True if the part that comes next is a part, or follows the last one.
    pub open spec fn well_formed(self) -> bool {
        self@.well_formed()
    }

    /// Starts the upload of a file of `total` bytes to the path `rel`, in the
    /// directory of the id that `resume` holds. Without one it goes to that of
    /// `fresh_id`, which was never used.
    pub fn start(
        up: &NextcloudUploader,
        rel: &str,
        total: u64,
        resume: &Option<ResumeState>,
        fresh_id: &str,
    ) -> (r: (ChunkedUpload, ChunkAction))
        ensures
            (r.0@, r.1@) == ChunkedModel::started(
                up@,
                rel@,
                total,
                match *resume {
                    Some(r) => r@.upload_id,
                    None => None,
                },
                fresh_id@,
            ),
            r.0.well_formed(),
    {
        proof {
            chunks_cover_the_file(total);
        }
        let dest = files_url(up.base_url.as_str(), up.username.as_str(), rel);
        let used: Option<String> = match resume {
            Some(r) => crate::config::clone_opt(&r.upload_id),
            None => None,
        };
        let present: HashMap<u32, u64> = HashMap::new();
        assert(present@ =~= Map::<u32, u64>::empty());
        match used {
            Some(id) => {
                let dir = uploads_url(
                    up.base_url.as_str(),
                    up.username.as_str(),
                    id.as_str(),
                    None,
                );
                let r = ChunkedUpload {
                    dest,
                    rel: rel.to_owned(),
                    total,
                    dir: dir.clone(),
                    phase: ChunkPhase::Listing,
                    present,
                    next: 1,
                };
                (r, ChunkAction::List { dir })
            },
            None => {
                let dir = uploads_url(up.base_url.as_str(), up.username.as_str(), fresh_id, None);
                let r = ChunkedUpload {
                    dest: dest.clone(),
                    rel: rel.to_owned(),
                    total,
                    dir: dir.clone(),
                    phase: ChunkPhase::Making,
                    present,
                    next: 1,
                };
                (r, ChunkAction::MakeDir { dir, dest })
            },
        }
    }

    /// True if the server holds this part in full.
    fn is_stored(&self, part: u32, len: u64) -> (r: bool)
        requires
            len == chunk_len(self@.total, part as int),
        ensures
            r == self@.stored(part as int),
    {
        match self.present.get(&part) {
            Some(n) => *n == len,
            None => false,
        }
    }

    /// The address of a part.
    fn url_of_part(&self, part: u32) -> (r: String)
        ensures
            r@ == self@.part_url(part as int),
    {
        let mut url = self.dir.clone();
        url.append("/");
        url.append(chunk_name(part).as_str());
        url
    }

    /// Goes on with a part; the reports are appended to `reports`.
    fn go_on(&mut self, part: u32, reports: &mut Vec<u64>) -> (action: ChunkAction)
        requires
            1 <= part <= chunk_count(old(self)@.total) + 1,
        ensures
            ({
                let (m, said, a) = old(self)@.go_on(part as int);
                final(self)@ == m && final(reports)@ == old(reports)@ + said && action@ == a
            }),
            final(self).well_formed(),
    {
        let count: u32 = count_chunks(self.total);
        let mut p: u32 = part;
        let ghost m = self@;
        proof {
            chunks_cover_the_file(self.total);
            assert(reports@ =~= old(reports)@ + Seq::new(
                0,
                |i: int| uploaded_after(m.total, part + i) as u64,
            ));
        }
        while p <= count
            invariant
                self@ == m,
                m == old(self)@,
                m.total == self.total,
                count == chunk_count(m.total),
                1 <= part <= p <= count + 1,
                1 <= count <= 10000,
                m.first_missing(p as int) == m.first_missing(part as int),
                reports@ == old(reports)@ + Seq::new(
                    (p - part) as nat,
                    |i: int| uploaded_after(m.total, part + i) as u64,
                ),
            decreases count + 1 - p,
        {
            proof {
                chunks_cover_the_file(m.total);
                assert(chunk_offset(m.total, p as int) <= m.total);
            }
            let (offset, len) = chunk_range(self.total, p);
            if !self.is_stored(p, len) {
                let url = self.url_of_part(p);
                self.phase = ChunkPhase::Sending;
                self.next = p;
                return ChunkAction::Send {
                    url,
                    dest: self.dest.clone(),
                    offset,
                    len,
                    total: self.total,
                };
            }
            reports.push(offset + len);
            proof {
                let before = Seq::new(
                    (p - part) as nat,
                    |i: int| uploaded_after(m.total, part + i) as u64,
                );
                let after = Seq::new(
                    (p + 1 - part) as nat,
                    |i: int| uploaded_after(m.total, part + i) as u64,
                );
                assert(after =~= before.push((offset + len) as u64));
                assert(reports@ =~= old(reports)@ + after);
            }
            p += 1;
        }
        let mut url = self.dir.clone();
        url.append("/.file");
        self.phase = ChunkPhase::Assembling;
        self.next = p;
        ChunkAction::Assemble { url, dest: self.dest.clone(), total: self.total }
    }

    /// Takes the answer to the last request. With the action come the numbers of
    /// bytes to report as uploaded, in their order.
    pub fn step(&mut self, reply: &Reply) -> (r: (Vec<u64>, ChunkAction))
        requires
            old(self).well_formed(),
        ensures
            (final(self)@, r.0@, r.1@) == old(self)@.step(reply@),
            final(self).well_formed(),
    {
        let s: u16 = reply.status;
        let mut reports: Vec<u64> = Vec::new();
        proof {
            chunks_cover_the_file(self.total);
        }
        match self.phase {
            ChunkPhase::Listing => {
                if s == 207 || s == 404 {
                    let found: HashMap<u32, u64> = if s == 207 {
                        parse_chunk_listing(reply.body.as_str())
                    } else {
                        HashMap::new()
                    };
                    assert(s == 404 ==> found@ =~= Map::<u32, u64>::empty());
                    if found.len() == 0 {
                        self.phase = ChunkPhase::Making;
                        self.present = HashMap::new();
                        assert(self.present@ =~= Map::<u32, u64>::empty());
                        let action = ChunkAction::MakeDir {
                            dir: self.dir.clone(),
                            dest: self.dest.clone(),
                        };
                        assert(reports@ =~= seq![]);
                        (reports, action)
                    } else {
                        self.present = found;
                        let action = self.go_on(1, &mut reports);
                        (reports, action)
                    }
                } else if s == 401 {
                    (
                        reports,
                        ChunkAction::Failed(
                            CoreError::CloudAuth("PROPFIND upload dir rejected (401)".to_owned()),
                        ),
                    )
                } else {
                    (reports, ChunkAction::Failed(refusal("PROPFIND ", self.dir.as_str(), s)))
                }
            },
            ChunkPhase::Making => {
                if s == 201 || s == 405 {
                    let action = self.go_on(1, &mut reports);
                    (reports, action)
                } else if s == 401 {
                    (
                        reports,
                        ChunkAction::Failed(
                            CoreError::CloudAuth("MKCOL upload dir rejected (401)".to_owned()),
                        ),
                    )
                } else {
                    (reports, ChunkAction::Failed(refusal("MKCOL ", self.dir.as_str(), s)))
                }
            },
            ChunkPhase::Sending => {
                if s == 201 || s == 204 {
                    proof {
                        assert(chunk_offset(self@.total, self@.next as int) <= self@.total);
                    }
                    let (offset, len) = chunk_range(self.total, self.next);
                    reports.push(offset + len);
                    let part: u32 = self.next + 1;
                    let action = self.go_on(part, &mut reports);
                    (reports, action)
                } else if s == 401 {
                    (
                        reports,
                        ChunkAction::Failed(
                            CoreError::CloudAuth("chunk PUT rejected (401)".to_owned()),
                        ),
                    )
                } else {
                    let url = self.url_of_part(self.next);
                    (reports, ChunkAction::Failed(refusal("PUT chunk ", url.as_str(), s)))
                }
            },
            ChunkPhase::Assembling => {
                if s == 201 || s == 204 {
                    (
                        reports,
                        ChunkAction::Finished(
                            UploadOutcome {
                                remote_ref: self.rel.clone(),
                                bytes: self.total,
                                etag: crate::config::clone_opt(&reply.etag),
                            },
                        ),
                    )
                } else if s == 401 {
                    (
                        reports,
                        ChunkAction::Failed(CoreError::CloudAuth("MOVE rejected (401)".to_owned())),
                    )
                } else {
                    let mut url = self.dir.clone();
                    url.append("/.file");
                    (reports, ChunkAction::Failed(refusal("MOVE ", url.as_str(), s)))
                }
            },
        }
    }
}

impl ChunkedModel {
    /// How many more answers the upload can take.
    pub open spec fn answers_left(self) -> int {
        let n = chunk_count(self.total);
        match self.phase {
            ChunkPhase::Listing => n + 3,
            ChunkPhase::Making => n + 2,
            ChunkPhase::Sending => n + 2 - self.next,
            ChunkPhase::Assembling => 1,
        }
    }

    /// True if each part before the next one is with the server: it was there, or
    /// the server has accepted it.
    pub open spec fn complete_before_next(self, accepted: Set<int>) -> bool {
        forall|p: int| 1 <= p < self.next ==> #[trigger] self.stored(p) || accepted.contains(p)
    }

    /// The parts that the server has accepted, with this answer.
    pub open spec fn accepted_with(self, accepted: Set<int>, reply: Reply<Seq<char>>) -> Set<int> {
        if self.phase is Sending && (reply.status == 201 || reply.status == 204) {
            accepted.insert(self.next as int)
        } else {
            accepted
        }
    }
}

/// A chunked upload comes to an end: each answer either ends it or leaves fewer
/// answers to come.
pub proof fn chunked_upload_ends(m: ChunkedModel, reply: Reply<Seq<char>>)
    requires
        m.well_formed(),
    ensures
        ({
            let (next, reports, action) = m.step(reply);
            action is Finished || action is Failed || (next.well_formed() && 0
                < next.answers_left() < m.answers_left())
        }),
{
    chunks_cover_the_file(m.total);
    let found = if reply.status == 207 {
        listed_chunks(reply.body)
    } else {
        Map::empty()
    };
    lemma_first_missing(m, 1);
    lemma_first_missing(ChunkedModel { present: found, ..m }, 1);
    if m.next <= chunk_count(m.total) {
        lemma_first_missing(m, m.next + 1);
    }
}

/// Every part before the next one is with the server, whatever it answers; so the
/// parts are put together only if all of them are there.
pub proof fn nothing_is_assembled_early(
    m: ChunkedModel,
    accepted: Set<int>,
    reply: Reply<Seq<char>>,
)
    requires
        m.well_formed(),
        m.complete_before_next(accepted),
        m.phase is Listing || m.phase is Making ==> m.next == 1,
    ensures
        ({
            let (next, reports, action) = m.step(reply);
            let now = m.accepted_with(accepted, reply);
            &&& next.complete_before_next(now)
            &&& next.phase is Listing || next.phase is Making ==> next.next == 1
            &&& action is Assemble ==> forall|p: int|
                1 <= p <= chunk_count(m.total) ==> #[trigger] next.stored(p) || now.contains(p)
        }),
{
    chunks_cover_the_file(m.total);
    let found = if reply.status == 207 {
        listed_chunks(reply.body)
    } else {
        Map::empty()
    };
    let listed = ChunkedModel { present: found, ..m };
    lemma_first_missing(m, 1);
    lemma_first_missing(listed, 1);
    if m.next <= chunk_count(m.total) {
        lemma_first_missing(m, m.next + 1);
    }
    let (next, reports, action) = m.step(reply);
    let now = m.accepted_with(accepted, reply);
    assert forall|p: int| 1 <= p < next.next implies #[trigger] next.stored(p) || now.contains(p) by {
        if next.present == m.present {
            assert(next.stored(p) == m.stored(p));
            if p < m.next {
                assert(m.stored(p) || accepted.contains(p));
            }
        } else {
            assert(next.stored(p) == listed.stored(p));
        }
    }
}

impl ChunkedModel {
    /// Where the upload stands after all of the answers, in their order.
    pub open spec fn after(self, replies: Seq<Reply<Seq<char>>>) -> ChunkedModel
        decreases replies.len(),
    {
        if replies.len() == 0 {
            self
        } else {
            self.after(replies.drop_last()).step(replies.last()).0
        }
    }
}

/// Whatever the server answers, an upload stays with its file and its directory.
pub proof fn an_upload_keeps_its_directory(m: ChunkedModel, replies: Seq<Reply<Seq<char>>>)
    ensures
        m.after(replies).dir == m.dir,
        m.after(replies).dest == m.dest,
        m.after(replies).rel == m.rel,
        m.after(replies).total == m.total,
    decreases replies.len(),
{
    if replies.len() > 0 {
        an_upload_keeps_its_directory(m, replies.drop_last());
    }
}

/// A part that the server holds in full is not sent: the part that is sent is one
/// that the listing does not hold in full, and it goes to the directory of the
/// upload. What the listing held stays known to the end.
pub proof fn stored_parts_are_not_sent(m: ChunkedModel, reply: Reply<Seq<char>>)
    requires
        m.well_formed(),
    ensures
        ({
            let (next, reports, action) = m.step(reply);
            &&& action matches ChunkAction::Send { url, offset, len, .. } ==> {
                &&& 1 <= next.next <= chunk_count(m.total)
                &&& !next.stored(next.next as int)
                &&& url == m.part_url(next.next as int)
                &&& offset == chunk_offset(m.total, next.next as int)
                &&& len == chunk_len(m.total, next.next as int)
            }
            &&& m.phase is Listing && !(action is Failed) && !(action is MakeDir) ==> next.present
                == listed_chunks(reply.body)
            &&& !(m.phase is Listing) ==> next.present == m.present
        }),
{
    chunks_cover_the_file(m.total);
    let found = if reply.status == 207 {
        listed_chunks(reply.body)
    } else {
        Map::empty()
    };
    let listed = ChunkedModel { present: found, ..m };
    lemma_first_missing(m, 1);
    lemma_first_missing(listed, 1);
    if m.next <= chunk_count(m.total) {
        lemma_first_missing(m, m.next + 1);
    }
    let (next, reports, action) = m.step(reply);
    if action is Send {
        let p = next.next as int;
        assert(next.stored(p) == (if m.phase is Listing {
            listed.stored(p)
        } else {
            m.stored(p)
        }));
        lemma_uploaded(m.total, p);
        assert(0 <= chunk_offset(m.total, p) <= m.total);
    }
}

/// An interrupted upload resumes: a later attempt with the same id asks first for the
/// parts in the directory to which the earlier one sent them. Where that directory
/// holds parts, the later attempt goes on with the first that is not there in full;
/// where it is gone or empty, the attempt creates it anew.
pub proof fn an_interrupted_upload_resumes(
    up: NextcloudUploader<Seq<char>>,
    rel: Seq<char>,
    total: u64,
    id: Seq<char>,
    fresh_id: Seq<char>,
    other_fresh_id: Seq<char>,
    replies: Seq<Reply<Seq<char>>>,
    listing: Reply<Seq<char>>,
)
    requires
        listing.status == 207 || listing.status == 404,
    ensures
        ({
            let earlier = ChunkedModel::started(up, rel, total, Some(id), fresh_id).0.after(replies);
            let (later, asks) = ChunkedModel::started(up, rel, total, Some(id), other_fresh_id);
            let found = if listing.status == 207 {
                listed_chunks(listing.body)
            } else {
                Map::<u32, u64>::empty()
            };
            let (next, reports, action) = later.step(listing);
            &&& asks == ChunkAction::List { dir: earlier.dir }
            &&& next.dir == earlier.dir
            &&& next.present == if found.dom().len() == 0 {
                Map::empty()
            } else {
                found
            }
            &&& if found.dom().len() == 0 {
                action == (ChunkAction::MakeDir { dir: earlier.dir, dest: earlier.dest })
            } else if next.first_missing(1) <= chunk_count(total) {
                action == (ChunkAction::Send {
                    url: earlier.part_url(next.first_missing(1)),
                    dest: earlier.dest,
                    offset: chunk_offset(total, next.first_missing(1)) as u64,
                    len: chunk_len(total, next.first_missing(1)) as u64,
                    total,
                })
            } else {
                action == (ChunkAction::Assemble {
                    url: earlier.assemble_url(),
                    dest: earlier.dest,
                    total,
                })
            }
        }),
{
    let first = ChunkedModel::started(up, rel, total, Some(id), fresh_id).0;
    an_upload_keeps_its_directory(first, replies);
    let (later, asks) = ChunkedModel::started(up, rel, total, Some(id), other_fresh_id);
    let found = if listing.status == 207 {
        listed_chunks(listing.body)
    } else {
        Map::<u32, u64>::empty()
    };
    let listed = ChunkedModel { present: found, ..later };
    let next = later.step(listing).0;
    chunks_cover_the_file(total);
    lemma_first_missing(listed, 1);
    if found.dom().len() != 0 {
        lemma_same_missing(listed, next, 1);
    }
}

proof fn lemma_same_missing(a: ChunkedModel, b: ChunkedModel, part: int)
    requires
        a.total == b.total,
        a.present == b.present,
    ensures
        a.first_missing(part) == b.first_missing(part),
    decreases chunk_count(a.total) + 1 - part,
{
    if part <= chunk_count(a.total) && a.stored(part) {
        lemma_same_missing(a, b, part + 1);
    }
}

/// What a step reports grows from part to part, and is the whole file when the
/// parts are put together.
pub proof fn reports_grow_to_the_total(m: ChunkedModel, reply: Reply<Seq<char>>)
    requires
        m.well_formed(),
    ensures
        ({
            let (next, reports, action) = m.step(reply);
            &&& forall|i: int, j: int|
                0 <= i <= j < reports.len() ==> #[trigger] reports[i] <= #[trigger] reports[j]
            &&& forall|i: int| 0 <= i < reports.len() ==> #[trigger] reports[i] <= m.total
            &&& action is Assemble && reports.len() > 0 ==> reports.last() == m.total
        }),
{
    chunks_cover_the_file(m.total);
    let found = if reply.status == 207 {
        listed_chunks(reply.body)
    } else {
        Map::empty()
    };
    lemma_first_missing(m, 1);
    lemma_first_missing(ChunkedModel { present: found, ..m }, 1);
    if m.next <= chunk_count(m.total) {
        lemma_first_missing(m, m.next + 1);
    }
    let (next, reports, action) = m.step(reply);
    let first = if m.phase is Sending {
        m.next as int
    } else {
        1
    };
    assert forall|i: int| 0 <= i < reports.len() implies #[trigger] reports[i] == uploaded_after(
        m.total,
        first + i,
    ) && first + i <= chunk_count(m.total) && 0 <= uploaded_after(m.total, first + i) <= m.total by {
        lemma_uploaded(m.total, first + i);
    }
    assert forall|i: int, j: int| 0 <= i <= j < reports.len() implies #[trigger] reports[i]
        <= #[trigger] reports[j] by {
        lemma_uploaded_grows(m.total, first + i, first + j);
    }
    if action is Assemble && reports.len() > 0 {
        assert(first + reports.len() - 1 == chunk_count(m.total));
        assert(reports.last() == reports[reports.len() - 1]);
    }
}

proof fn lemma_uploaded(total: u64, part: int)
    requires
        1 <= part <= chunk_count(total),
    ensures
        0 <= uploaded_after(total, part) <= total,
{
    chunks_cover_the_file(total);
    assert(0 <= chunk_offset(total, part) <= total);
}

proof fn lemma_uploaded_grows(total: u64, a: int, b: int)
    requires
        1 <= a <= b <= chunk_count(total),
    ensures
        uploaded_after(total, a) <= uploaded_after(total, b),
    decreases b - a,
{
    chunks_cover_the_file(total);
    if a < b {
        assert(chunk_offset(total, a) + chunk_len(total, a) == chunk_offset(total, a + 1));
        assert(0 <= chunk_len(total, a + 1)) by {
            assert(0 <= chunk_offset(total, a + 1));
        }
        lemma_uploaded_grows(total, a + 1, b);
    }
}

// ---- the choice between the two ---------------------------------------------

/// True of the text of a random id: 32 hexadecimal digits in lower case, in five
/// groups of 8, 4, 4, 4 and 12 with hyphens between them. The third group begins
/// with the version, 4, and the fourth with one of the digits of the variant.
pub open spec fn uuid_text(s: Seq<char>) -> bool {
    &&& s.len() == 36
    &&& forall|i: int|
        0 <= i < 36 ==> if i == 8 || i == 13 || i == 18 || i == 23 {
            #[trigger] s[i] == '-'
        } else {
            '0' <= s[i] <= '9' || 'a' <= s[i] <= 'f'
        }
    &&& s[14] == '4'
    &&& s[19] == '8' || s[19] == '9' || s[19] == 'a' || s[19] == 'b'
}

/// `uuid::Uuid::new_v4`, as its `Display` writes it: a random id. Nothing is said
/// of which one.
#[verifier::external_body]
fn random_uuid() -> (r: String)
    ensures
        uuid_text(r@),
{
    uuid::Uuid::new_v4().to_string()
}

/// The id of a new upload directory.
pub open spec fn fresh_id_text(uuid: Seq<char>) -> Seq<char> {
    "gpbeam-"@ + uuid
}

/// True of the text of an id that was made at random: it is what `random_uuid` returned.
/// Nothing else makes this true, so an id that was not made so is none.
pub closed spec fn made_at_random(u: Seq<char>) -> bool {
    exists|r: String| #[trigger] call_ensures(random_uuid, (), r) && r@ == u
}

/// An id that was made at random is one that `random_uuid` returned.
proof fn an_id_that_was_made_was_returned(u: Seq<char>)
    requires
        made_at_random(u),
    ensures
        exists|r: String| #[trigger] call_ensures(random_uuid, (), r) && r@ == u && uuid_text(u),
{
}

/// Makes an id.
fn make_id<M: Fn() -> String>(maker: M) -> (r: String)
    requires
        call_requires(maker, ()),
    ensures
        call_ensures(maker, (), r),
{
    maker()
}

/// An id for a new upload directory: `gpbeam-` and a random id.
pub fn fresh_upload_id() -> (r: String)
    ensures
        exists|u: Seq<char>|
            uuid_text(u) && made_at_random(u) && r@ == #[trigger] fresh_id_text(u),
{
    let u = make_id(random_uuid);
    assert(made_at_random(u@));
    let mut s = "gpbeam-".to_owned();
    s.append(u.as_str());
    assert(s@ == fresh_id_text(u@));
    s
}

/// An upload that has begun, with its first action.
pub enum Upload {
    Plain(PlainUpload, PutAction),
    Chunked(ChunkedUpload, ChunkAction),
}

/// Starts the upload of a file of `total` bytes: in one request below the
/// threshold of the destination, in parts from it on.
pub fn start_upload(
    up: &NextcloudUploader,
    remote: &str,
    total: u64,
    resume: &Option<ResumeState>,
    fresh_id: &str,
) -> (r: Upload)
    ensures
        match r {
            Upload::Plain(u, a) => {
                let rel = crate::cloud::nextcloud::rel_path(up@.remote_root, remote@);
                &&& total < up@.chunk_threshold
                &&& u@ == PlainModel::started(up@, rel, total)
                &&& u.well_formed()
                &&& a@ == (PutAction::Send { url: up@.file_url(rel) })
            },
            Upload::Chunked(u, a) => {
                let rel = crate::cloud::nextcloud::rel_path(up@.remote_root, remote@);
                &&& total >= up@.chunk_threshold
                &&& u.well_formed()
                &&& (u@, a@) == ChunkedModel::started(
                    up@,
                    rel,
                    total,
                    match *resume {
                        Some(r) => r@.upload_id,
                        None => None,
                    },
                    fresh_id@,
                )
            },
        },
{
    let rel = up.remote_rel(remote);
    if total < up.chunk_threshold {
        let (u, a) = PlainUpload::start(up, rel.as_str(), total);
        Upload::Plain(u, a)
    } else {
        let (u, a) = ChunkedUpload::start(up, rel.as_str(), total, resume, fresh_id);
        Upload::Chunked(u, a)
    }
}

} // verus!
