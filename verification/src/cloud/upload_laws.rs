//! Laws of uploads: which answers end them, how, and which bytes they send.

use crate::cloud::chunks::{
    chunk_count, chunk_len, chunk_offset, chunk_size, chunk_size_is_minimal, chunks_cover_the_file,
    small_files_have_small_parts,
};
use crate::cloud::nextcloud::NextcloudUploader;
use crate::cloud::upload::{
    lemma_first_missing, parent_dirs, parents_of, present_length, ChunkAction, ChunkPhase,
    ChunkedModel, PlainModel, PutAction, PutPhase, Reply,
};
use crate::cloud::webdav::{file_address, listed_chunks, upload_dir};
use crate::cloud::UploadOutcome;
use crate::error::CoreError;
use crate::text::{decimal, joined, pieces, zero_padded};
use vstd::prelude::*;

verus! {

// ---- is the file there already ----------------------------------------------

/// A question about a file is answered by 207, which gives its length, and by 404,
/// which says that there is none. Every other answer is a failure: of the
/// credentials with 401, and otherwise one that carries the status.
pub proof fn a_question_fails_with_its_status(url: Seq<char>, reply: Reply<Seq<char>>)
    ensures
        present_length(url, reply) is Ok <==> reply.status == 207 || reply.status == 404,
        reply.status == 404 ==> present_length(url, reply) == Ok::<
            Option<nat>,
            CoreError<Seq<char>>,
        >(None),
        reply.status == 401 ==> present_length(url, reply)->Err_0 is CloudAuth,
        reply.status != 207 && reply.status != 404 && reply.status != 401 ==> present_length(
            url,
            reply,
        ) == Err::<Option<nat>, CoreError<Seq<char>>>(
            CoreError::Http {
                status: Some(reply.status),
                msg: "PROPFIND "@ + url + " -> "@ + decimal(reply.status as nat),
            },
        ),
{
}

// ---- one request ------------------------------------------------------------

/// A plain upload starts with the file itself, at its own address, and knows the
/// addresses of the directories above it.
pub proof fn a_plain_upload_starts_with_the_file(
    up: NextcloudUploader<Seq<char>>,
    rel: Seq<char>,
    total: u64,
)
    ensures
        ({
            let m = PlainModel::started(up, rel, total);
            &&& m.phase is First
            &&& m.rel == rel
            &&& m.total == total
            &&& m.url == up.file_url(rel)
            &&& m.dirs.len() == parent_dirs(rel).len()
            &&& forall|i: int|
                0 <= i < m.dirs.len() ==> #[trigger] m.dirs[i] == up.file_url(parent_dirs(rel)[i])
        }),
{
}

/// What each answer does to a plain upload. The file is taken with 201 or 204, and the
/// outcome is that of the whole file with the tag that came. The first time, 404 or 409
/// leads to the directories. A directory is made, or was there, with 201 or 405. Every
/// other answer is a failure: of the credentials with 401, and otherwise one that
/// carries the status.
pub proof fn a_plain_upload_fails_with_its_status(m: PlainModel, reply: Reply<Seq<char>>)
    ensures
        ({
            let s = reply.status;
            let (next, action) = m.step(reply);
            let taken = !(m.phase is Dir) && (s == 201 || s == 204);
            let made = m.phase is Dir && (s == 201 || s == 405);
            let homeless = m.phase is First && (s == 404 || s == 409);
            &&& taken ==> action == PutAction::Finished(
                UploadOutcome { remote_ref: m.rel, bytes: m.total, etag: reply.etag },
            )
            &&& action is Finished ==> taken
            &&& (action is Send || action is MakeDir) <==> made || homeless
            &&& action is Failed <==> !taken && !made && !homeless
            &&& action matches PutAction::Failed(e) ==> if s == 401 {
                e is CloudAuth
            } else {
                e matches CoreError::Http { status, msg } && status == Some(s)
            }
            &&& next.url == m.url && next.rel == m.rel && next.total == m.total && next.dirs
                == m.dirs
        }),
{
}

/// The directories of a plain upload are made one by one from the top down, and the
/// file is sent once more behind the last one.
pub proof fn directories_are_made_in_order(m: PlainModel, reply: Reply<Seq<char>>)
    requires
        m.dirs.len() <= usize::MAX,
    ensures
        m.phase is First && (reply.status == 404 || reply.status == 409) ==> m.step(reply).1 == (
        if m.dirs.len() > 0 {
            PutAction::MakeDir { url: m.dirs[0] }
        } else {
            PutAction::Send { url: m.url }
        }),
        m.phase is First && (reply.status == 404 || reply.status == 409) ==> m.step(reply).0.phase
            == (if m.dirs.len() > 0 {
            PutPhase::Dir(0)
        } else {
            PutPhase::Again
        }),
        m.phase matches PutPhase::Dir(i) ==> i < m.dirs.len() && (reply.status == 201
            || reply.status == 405) ==> m.step(reply) == (if i + 1 < m.dirs.len() {
            (
                PlainModel { phase: PutPhase::Dir((i + 1) as usize), ..m },
                PutAction::MakeDir { url: m.dirs[i + 1] },
            )
        } else {
            (PlainModel { phase: PutPhase::Again, ..m }, PutAction::Send { url: m.url })
        }),
{
}

// ---- a chunked upload -------------------------------------------------------

/// A chunked upload is done if and only if it waited for the answer to the request
/// that puts the parts together, and that answer is 201 or 204. The outcome is that of
/// the whole file with the tag that came. Every other status of that answer is a
/// failure: of the credentials with 401, and otherwise one that carries the status.
pub proof fn a_chunked_upload_is_done_when_assembled(m: ChunkedModel, reply: Reply<Seq<char>>)
    ensures
        m.step(reply).2 is Finished <==> m.phase is Assembling && (reply.status == 201
            || reply.status == 204),
        m.step(reply).2 is Finished ==> m.step(reply).2 == ChunkAction::Finished(
            UploadOutcome { remote_ref: m.rel, bytes: m.total, etag: reply.etag },
        ),
        m.phase is Assembling && reply.status == 401 ==> m.step(reply).2 == ChunkAction::Failed(
            CoreError::CloudAuth("MOVE rejected (401)"@),
        ),
        m.phase is Assembling && reply.status != 201 && reply.status != 204 && reply.status != 401
            ==> m.step(reply).2 == ChunkAction::Failed(
            CoreError::Http {
                status: Some(reply.status),
                msg: "MOVE "@ + (m.dir + "/.file"@) + " -> "@ + decimal(reply.status as nat),
            },
        ),
{
}

/// What each answer does to a chunked upload. A listing comes with 207, or 404 says that
/// there is none; a directory is made, or was there, with 201 or 405; a part is taken
/// with 201 or 204, and so is the assembly. Every other answer is a failure that changes
/// and reports nothing: of the credentials with 401, and otherwise one that carries the
/// status.
pub proof fn a_chunked_upload_fails_with_its_status(m: ChunkedModel, reply: Reply<Seq<char>>)
    ensures
        ({
            let s = reply.status;
            let (next, reports, action) = m.step(reply);
            let taken = match m.phase {
                ChunkPhase::Listing => s == 207 || s == 404,
                ChunkPhase::Making => s == 201 || s == 405,
                ChunkPhase::Sending => s == 201 || s == 204,
                ChunkPhase::Assembling => s == 201 || s == 204,
            };
            &&& action is Failed <==> !taken
            &&& action matches ChunkAction::Failed(e) ==> {
                &&& next == m
                &&& reports.len() == 0
                &&& if s == 401 {
                    e is CloudAuth
                } else {
                    e matches CoreError::Http { status, msg } && status == Some(s)
                }
            }
            &&& next.dest == m.dest && next.rel == m.rel && next.total == m.total && next.dir
                == m.dir
        }),
{
}

/// Where a chunked upload begins: with the id of an earlier attempt it lists the
/// directory of that id, and without one it makes the directory of the fresh id. It
/// knows of no part yet.
pub proof fn a_chunked_upload_starts_in_its_directory(
    up: NextcloudUploader<Seq<char>>,
    rel: Seq<char>,
    total: u64,
    resume_id: Option<Seq<char>>,
    fresh_id: Seq<char>,
)
    ensures
        ({
            let (m, action) = ChunkedModel::started(up, rel, total, resume_id, fresh_id);
            &&& m.dest == up.file_url(rel) && m.rel == rel && m.total == total
            &&& m.present.dom().len() == 0
            &&& resume_id matches Some(id) ==> {
                &&& m.phase is Listing
                &&& m.dir == up.dir_url(id)
                &&& action == ChunkAction::List { dir: up.dir_url(id) }
            }
            &&& resume_id is None ==> {
                &&& m.phase is Making
                &&& m.dir == up.dir_url(fresh_id)
                &&& action == (ChunkAction::MakeDir {
                    dir: up.dir_url(fresh_id),
                    dest: up.file_url(rel),
                })
            }
        }),
{
}

/// A part is passed over only if the listing shows it with exactly its own length: every
/// part before the one that is sent next is listed so, and the one that is sent is not.
pub proof fn only_whole_parts_are_passed_over(m: ChunkedModel, reply: Reply<Seq<char>>, part: u32)
    requires
        m.phase is Listing,
        reply.status == 207,
        listed_chunks(reply.body).dom().len() > 0,
    ensures
        ({
            let found = listed_chunks(reply.body);
            let (next, reports, action) = m.step(reply);
            let whole = found.dom().contains(part) && found[part] == chunk_len(
                m.total,
                part as int,
            );
            &&& action is Send || action is Assemble
            &&& action is Send ==> 1 <= next.next <= chunk_count(m.total)
            &&& action is Assemble ==> next.next == chunk_count(m.total) + 1
            &&& 1 <= part < next.next ==> whole
            &&& action is Send && part == next.next ==> !whole
            &&& reports.len() == next.next - 1
        }),
{
    chunks_cover_the_file(m.total);
    let listed = ChunkedModel { present: listed_chunks(reply.body), ..m };
    lemma_first_missing(listed, 1);
    let p = listed.first_missing(1);
    if 1 <= part < p {
        assert(listed.stored(part as int));
    }
}

/// A fresh upload sends the file from its beginning to its end: the first part begins at
/// zero, each part begins where the one before it ends, and the parts are put together
/// when, and only when, the part that was taken ends where the file ends. Up to fifty
/// thousand mebibytes every part but the last holds 5 MiB.
pub proof fn a_fresh_upload_sends_the_whole_file(m: ChunkedModel, reply: Reply<Seq<char>>)
    requires
        m.present == Map::<u32, u64>::empty(),
        m.phase is Making ==> reply.status == 201 || reply.status == 405,
        m.phase is Sending ==> reply.status == 201 || reply.status == 204,
        m.phase is Making || m.phase is Sending,
        m.phase is Sending ==> 1 <= m.next <= chunk_count(m.total),
    ensures
        ({
            let size = chunk_size(m.total);
            let (next, reports, action) = m.step(reply);
            let sent = if m.phase is Making {
                0
            } else {
                m.next as int
            };
            let begin = sent * size;
            let end = if begin + size < m.total {
                begin + size
            } else {
                m.total as int
            };
            &&& m.total <= 52428800000 ==> size == 5242880
            &&& if m.phase is Making || begin < m.total {
                action matches ChunkAction::Send { url, dest, offset, len, total } && {
                    &&& offset == begin
                    &&& offset + len == end
                    &&& url == m.dir + "/"@ + zero_padded(decimal((sent + 1) as nat), 5)
                    &&& dest == m.dest
                    &&& total == m.total
                    &&& next.phase is Sending
                    &&& next.next == sent + 1
                }
            } else {
                action == (ChunkAction::Assemble {
                    url: m.dir + "/.file"@,
                    dest: m.dest,
                    total: m.total,
                })
            }
            &&& m.phase is Sending ==> reports.len() == 1 && reports[0] == (if begin < m.total {
                begin
            } else {
                m.total as int
            })
        }),
{
    let total = m.total;
    let size = chunk_size(total);
    let n = chunk_count(total);
    chunks_cover_the_file(total);
    chunk_size_is_minimal(total);
    if total <= 52428800000 {
        small_files_have_small_parts(total);
    }
    let sent = if m.phase is Making {
        0
    } else {
        m.next as int
    };
    let p = sent + 1;
    assert(m.first_missing(p) == p);
    if sent >= 1 {
        assert(chunk_offset(total, sent) == (sent - 1) * size);
        assert((sent - 1) * size + size == sent * size) by (nonlinear_arith);
        assert(0 <= chunk_offset(total, sent) <= total);
        if sent < n {
            assert(chunk_offset(total, sent) + chunk_len(total, sent) == chunk_offset(total, p));
            assert(chunk_offset(total, p) + chunk_len(total, p) <= total);
            assert(chunk_len(total, p) > 0);
        } else {
            assert(chunk_offset(total, n) + chunk_len(total, n) == total);
            assert(sent * size >= total);
        }
    }
    if p <= n {
        assert(chunk_offset(total, p) == sent * size);
        assert(0 <= chunk_offset(total, p) <= total);
    }
}

/// Files and upload directories stand below the address and the user of the uploader.
pub proof fn an_uploader_has_its_addresses(
    up: NextcloudUploader<Seq<char>>,
    rel: Seq<char>,
    id: Seq<char>,
)
    ensures
        up.file_url(rel) == file_address(up.base_url, up.username, rel),
        up.dir_url(id) == upload_dir(up.base_url, up.username, id),
{
}

proof fn lemma_parents(segments: Seq<Seq<char>>)
    requires
        forall|i: int| 0 <= i < segments.len() ==> (#[trigger] segments[i]).len() > 0,
    ensures
        parents_of(segments).len() == segments.len(),
        forall|i: int|
            0 <= i < segments.len() ==> #[trigger] parents_of(segments)[i] == joined(
                segments.take(i + 1),
                "/"@,
            ),
    decreases segments.len(),
{
    if segments.len() > 0 {
        let head = segments.drop_last();
        assert forall|i: int| 0 <= i < head.len() implies (#[trigger] head[i]).len() > 0 by {
            assert(head[i] == segments[i]);
        }
        lemma_parents(head);
        let n = segments.len() - 1;
        let all = parents_of(segments);
        assert(segments[n].len() > 0);
        assert forall|i: int| 0 <= i < segments.len() implies #[trigger] all[i] == joined(
            segments.take(i + 1),
            "/"@,
        ) by {
            if i < n {
                assert(all[i] == parents_of(head)[i]);
                assert(head.take(i + 1) =~= segments.take(i + 1));
            } else {
                assert(segments.take(n + 1) =~= segments);
                if n > 0 {
                    assert(parents_of(head)[n - 1] == joined(head.take(n), "/"@));
                    assert(head.take(n) =~= head);
                }
            }
        }
    }
}

/// The directories that a file needs are all those above it, from the top down: for every
/// separator of its path one, the path up to that separator.
pub proof fn every_directory_above_is_needed(rel: Seq<char>, i: int)
    requires
        forall|k: int|
            0 <= k < pieces(rel, '/').len() - 1 ==> (#[trigger] pieces(rel, '/')[k]).len() > 0,
        0 <= i < pieces(rel, '/').len() - 1,
    ensures
        parent_dirs(rel).len() == pieces(rel, '/').len() - 1,
        parent_dirs(rel)[i] == joined(pieces(rel, '/').take(i + 1), "/"@),
{
    let all = pieces(rel, '/');
    let above = all.drop_last();
    assert forall|k: int| 0 <= k < above.len() implies (#[trigger] above[k]).len() > 0 by {
        assert(above[k] == all[k]);
    }
    lemma_parents(above);
    assert(above.take(i + 1) =~= all.take(i + 1));
}

} // verus!
