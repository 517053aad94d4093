//! Laws of single functions: what each of them returns or changes for every argument.
//!
//! `call_ensures(f, arguments, r)` says that `r` came of a call of `f` with those arguments.

use crate::backoff::{drawn_below, jitter_ms};
use crate::capture::{
    clock_gives, exif_capture, in_calendar, local_date_and_time, the_clock_was_asked, Captured,
};
use crate::cli::{
    apply_safety_overrides, count_failure, drains_after_offload, parse_safety_flags, unknown_flag,
    CliConfigOverlay, SafetyFlags,
};
use crate::cloud::nextcloud::{mtime_secs, read_etag, NextcloudUploader};
use crate::cloud::upload::{
    already_present, fresh_id_text, fresh_upload_id, made_at_random, start_upload, ChunkAction,
    ChunkedUpload, PlainUpload, PutAction, Reply, Upload,
};
use crate::cloud::upload_laws::{
    a_chunked_upload_fails_with_its_status, a_chunked_upload_is_done_when_assembled,
    a_plain_upload_fails_with_its_status, a_question_fails_with_its_status,
};
use crate::cloud::worker::{
    after_pass, before_pass, deletion_event, CloudWorker, DrainStep, JobResult, Pass, Settled,
};
use crate::cloud::worker_laws::{
    a_passing_failure_is_tried_again, the_worker_waits_for_the_first_retry,
};
use crate::cloud::{CloudEvent, ResumeState};
use crate::cloud_runtime::{
    clock_read, now_unix, should_drain, should_start_drain, should_surface_build_error,
    signed_seconds, CloudRuntime,
};
use crate::commands::detector_should_pause;
use crate::config::{Config, MirrorMode};
use crate::copy::{copy_verified, verify_dest_hash, CopyOutcome, CopyStream};
use crate::credentials::Secret;
use crate::detect::camera_address;
use crate::diskguard::has_room;
use crate::error::{is_retryable, CoreError, Result};
use crate::gopro::{kind_of, MediaKind};
use crate::hashing::blake3_hex;
use crate::ledger::{CloudJob, JobState, Ledger};
use crate::offload_laws::{
    a_file_of_the_right_size_is_adopted, only_a_file_of_the_right_size_is_adopted,
};
use crate::orchestrator::{
    detection_event, guard_space, should_auto_eject, should_delete_card, Offload, OffloadAction,
    RunEvent, RunSummary,
};
use crate::plan_laws::{
    camera_files_have_the_time_of_the_clock, undated_files_have_the_time_of_the_clock,
};
use crate::scanner::{
    captured_views, captures_match, card_file_views, is_wanted, plan_views, resolve_captures,
    scan_card, CardFile, PlannedCopy,
};
use crate::text::{decimal, opt_str_view, opt_view, views};
use crate::transfer::{PartMode, PartStream};
use crate::tray::{hides_on_blur, hides_on_close, rearm_needed, should_emit, should_set_icon};
use crate::wired::client::{
    a_body_goes_where_it_belongs, a_download_fails_with_its_status, expect_ok, header_start,
    media_views, CameraInfo, Download, DownloadStep, GoProClient, RemoteMedia,
};
use crate::wired::laws::only_a_whole_download_is_placed;
use crate::wired::offload::{camera_identity, times_of, WiredAction, WiredRun};
use vstd::prelude::*;

verus! {

// ---- uploads ----------------------------------------------------------------

/// A file is there already exactly if the server answers with 207 and a length that is its
/// size. Without an answer of 207 or 404 there is no saying, and the failure carries the
/// status.
pub proof fn a_file_of_another_size_is_not_there(
    url: &str,
    size: u64,
    reply: &Reply,
    r: Result<bool>,
)
    requires
        call_ensures(already_present, (url, size, reply), r),
    ensures
        r is Ok <==> reply.status == 207 || reply.status == 404,
        reply.status == 404 ==> r == Ok::<bool, CoreError>(false),
        r == Ok::<bool, CoreError>(true) <==> reply.status == 207
            && crate::cloud::webdav::first_length(crate::xml::xml_tokens(reply.body@), false)
            == Some(size as nat),
        r matches Err(e) ==> reply.status != 401 ==> e@ is Http && e@->status == Some(reply.status),
        r matches Err(e) ==> reply.status == 401 ==> e@ is CloudAuth,
{
    a_question_fails_with_its_status(url@, reply@);
}

/// A file is sent whole below the threshold of its destination, and in parts from it on; the
/// parts go to the directory of the id that is noted, or else of the fresh one.
pub proof fn the_threshold_decides(
    up: &NextcloudUploader,
    remote: &str,
    total: u64,
    resume: &Option<ResumeState>,
    fresh_id: &str,
    r: Upload,
)
    requires
        call_ensures(start_upload, (up, remote, total, resume, fresh_id), r),
    ensures
        r is Plain <==> total < up.chunk_threshold,
        r matches Upload::Plain(u, a) ==> a@ is Send && u@.total == total,
        r matches Upload::Chunked(u, a) ==> {
            let noted = match *resume {
                Some(s) => s@.upload_id,
                None => None,
            };
            &&& u@.total == total
            &&& noted matches Some(id) ==> a@ == (ChunkAction::List { dir: up@.dir_url(id) })
            &&& noted is None ==> a@ is MakeDir && u@.dir == up@.dir_url(fresh_id@)
        },
{
}

/// A plain upload is done exactly if the file itself is answered with 201 or 204; a failure
/// carries the status of its answer, and changes nothing.
pub proof fn a_plain_upload_ends_by_its_answer(
    u: &mut PlainUpload,
    reply: &Reply,
    action: PutAction,
)
    requires
        call_ensures(PlainUpload::step, (u, reply), action),
    ensures
        action@ is Finished <==> !(old(u)@.phase is Dir) && (reply.status == 201 || reply.status
            == 204),
        action@ matches PutAction::Finished(o) ==> o.bytes == old(u)@.total && o.remote_ref
            == old(u)@.rel,
        action@ matches PutAction::Failed(e) ==> reply.status != 401 ==> e is Http && e->status
            == Some(reply.status),
        action@ matches PutAction::Failed(e) ==> reply.status == 401 ==> e is CloudAuth,
        reply.status >= 500 ==> action@ is Failed,
        final(u)@.total == old(u)@.total && final(u)@.url == old(u)@.url,
{
    a_plain_upload_fails_with_its_status(old(u)@, reply@);
}

/// A chunked upload is done exactly if the request that puts the parts together is answered
/// with 201 or 204. Any other answer to that request is a failure that carries the status,
/// and so is an answer that the request before it does not expect.
pub proof fn a_chunked_upload_ends_by_its_answer(
    u: &mut ChunkedUpload,
    reply: &Reply,
    r: (Vec<u64>, ChunkAction),
)
    requires
        call_ensures(ChunkedUpload::step, (u, reply), r),
    ensures
        r.1@ is Finished <==> old(u)@.phase is Assembling && (reply.status == 201 || reply.status
            == 204),
        r.1@ matches ChunkAction::Finished(o) ==> o.bytes == old(u)@.total && o.remote_ref
            == old(u)@.rel,
        old(u)@.phase is Assembling && reply.status != 201 && reply.status != 204 ==> r.1@ is Failed,
        r.1@ matches ChunkAction::Failed(e) ==> reply.status != 401 ==> e is Http && e->status
            == Some(reply.status),
        r.1@ matches ChunkAction::Failed(e) ==> reply.status == 401 ==> e is CloudAuth,
        reply.status >= 500 ==> r.1@ is Failed && r.0@.len() == 0 && final(u)@ == old(u)@,
        final(u)@.total == old(u)@.total && final(u)@.dir == old(u)@.dir,
{
    a_chunked_upload_is_done_when_assembled(old(u)@, reply@);
    a_chunked_upload_fails_with_its_status(old(u)@, reply@);
}

/// The time of a change is stated where it lies after the epoch and fits, as it is.
pub proof fn a_time_after_the_epoch_is_stated(since_epoch: Option<u64>, r: Option<i64>)
    requires
        call_ensures(mtime_secs, (since_epoch,), r),
    ensures
        r is Some <==> since_epoch is Some && 0 < since_epoch->0 <= 0x7fff_ffff_ffff_ffff,
        r matches Some(t) ==> t == since_epoch->0,
{
}

/// The tag of an answer is that of the server's own header where there is one, and otherwise
/// that of the standard one.
pub proof fn the_own_header_comes_first(
    own: Option<Option<String>>,
    standard: Option<Option<String>>,
    r: Option<String>,
)
    requires
        call_ensures(read_etag, (own, standard), r),
    ensures
        own matches Some(t) ==> r == t,
        own is None ==> (standard matches Some(t) ==> r == t),
        own is None && standard is None ==> r is None,
{
}

// ---- the worker -------------------------------------------------------------

/// A failure is worth a retry exactly if the transport failed, or the answer was 408, 429 or
/// a code from 500 on.
pub proof fn only_passing_failures_are_worth_a_retry(err: &CoreError, r: bool)
    requires
        call_ensures(is_retryable, (err,), r),
    ensures
        r <==> err@ is Http && (err@->status is None || err@->status->0 == 408 || err@->status->0
            == 429 || err@->status->0 >= 500),
{
}

/// Settling a job by a failure of the transport, or by an answer of 408, 429 or 500 and above,
/// while it has attempts left, parks it with a time for its retry; settling it by any other
/// failure, or at its last attempt, parks it without one and reports that.
pub proof fn a_failed_job_is_parked_or_given_up(
    w: &CloudWorker,
    pass: &mut Pass,
    ledger: &mut Ledger,
    job: &CloudJob,
    result: &JobResult,
    elapsed_secs: i64,
    jitter_ms: u64,
    r: Settled,
    i: int,
)
    requires
        call_ensures(
            CloudWorker::<String>::settle,
            (w, pass, ledger, job, result, elapsed_secs, jitter_ms),
            r,
        ),
        0 <= i < old(ledger)@.jobs.len(),
        old(ledger)@.jobs[i].id == job.id,
        result@ is Failed,
    ensures
        ({
            let e = result@->Failed_0;
            let passing = e is Http && (e->status is None || e->status->0 == 408 || e->status->0
                == 429 || e->status->0 >= 500);
            let parked = final(ledger)@.jobs[i];
            &&& parked.state == JobState::Failed
            &&& parked.next_retry_at is Some <==> passing && job.attempts + 1 < w.max_attempts
            &&& r.terminal <==> !(passing && job.attempts + 1 < w.max_attempts)
            &&& r.event is Some <==> r.terminal
            &&& r.delete is None
        }),
{
    let e = result@->Failed_0;
    let now = crate::cloud::worker::clamped_sum(old(pass).now_unix as int, elapsed_secs as int);
    let passing = e is Http && (e->status is None || e->status->0 == 408 || e->status->0 == 429
        || e->status->0 >= 500);
    if passing && job.attempts + 1 < w.max_attempts {
        a_passing_failure_is_tried_again(w@, old(ledger)@, job@, e, now, jitter_ms, i);
    }
}

/// Settling a job that was uploaded, or whose file was there, finishes it and reports that.
/// Its source on the card is deleted only after an upload, and only where that is asked for.
pub proof fn a_mirrored_job_is_finished(
    w: &CloudWorker,
    pass: &mut Pass,
    ledger: &mut Ledger,
    job: &CloudJob,
    result: &JobResult,
    elapsed_secs: i64,
    jitter_ms: u64,
    r: Settled,
    i: int,
)
    requires
        call_ensures(
            CloudWorker::<String>::settle,
            (w, pass, ledger, job, result, elapsed_secs, jitter_ms),
            r,
        ),
        0 <= i < old(ledger)@.jobs.len(),
        old(ledger)@.jobs[i].id == job.id,
        !(result@ is Failed),
    ensures
        final(ledger)@.jobs[i].state == JobState::Done,
        final(ledger)@.jobs[i].next_retry_at is None,
        r.terminal,
        r@.event == Some(CloudEvent::Mirrored { file: job@.remote_path }),
        r@.delete == (if result@ is Uploaded && w.delete_after_verify {
            job@.card_src
        } else {
            None
        }),
{
}

/// The worker stops when nothing is pending. After a pass that settled a job for good it goes
/// on at once; after one that settled none it waits until the first retry, and without one it
/// waits a little and stops.
pub proof fn the_worker_stops_when_nothing_is_pending(
    ledger: &Ledger,
    terminal: usize,
    now: i64,
    before: DrainStep,
    after: DrainStep,
    i: int,
    at: i64,
)
    requires
        call_ensures(before_pass, (ledger,), before),
        call_ensures(after_pass, (ledger, terminal, now), after),
        0 <= i < ledger@.jobs.len(),
        ledger@.jobs[i].state == JobState::Failed,
        ledger@.jobs[i].next_retry_at == Some(at),
        at > now,
    ensures
        before is Stop <==> crate::ledger::pending_count(ledger@.jobs) == 0,
        before is Pass <==> crate::ledger::pending_count(ledger@.jobs) > 0,
        terminal > 0 ==> after == DrainStep::Wait(0),
        terminal == 0 ==> (after matches DrainStep::Wait(secs) && 0 < secs <= at - now),
{
    assert(crate::cloud::worker::waits_after(ledger@.jobs[i], now));
    if terminal == 0 {
        if let DrainStep::Wait(secs) = after {
            the_worker_waits_for_the_first_retry(ledger@.jobs, now, secs as int, i, at);
        }
    }
}

/// The loop drains exactly if it is not paused and there is a destination whose mode is not
/// off; it starts to only if jobs may be pending.
pub proof fn a_paused_loop_rests(
    paused: bool,
    runtime: &CloudRuntime,
    pending: Option<usize>,
    drains: bool,
    starts: bool,
)
    requires
        call_ensures(should_drain, (paused, runtime), drains),
        call_ensures(should_start_drain, (paused, runtime, pending), starts),
    ensures
        drains <==> !paused && runtime@.config is Some && (runtime@.config->0).mirror_mode
            != MirrorMode::Off,
        starts <==> drains && !(pending is Some && pending->0 == 0),
{
}

// ---- downloads --------------------------------------------------------------

/// A body is taken only with 200 or 206; it goes behind the bytes on disk only with a 206
/// whose range begins where they end. Every answer that neither gives a body nor starts the
/// download over is a failure that carries its status.
pub proof fn a_download_goes_by_its_answer(
    d: &mut Download,
    status: u16,
    content_range: Option<&str>,
    r: DownloadStep,
)
    requires
        call_ensures(Download::<String>::answered, (d, status, content_range), r),
    ensures
        r@ is Stream ==> status == 200 || status == 206,
        r@ matches DownloadStep::Stream { resume } ==> (resume <==> status == 206
            && old(d).already > 0),
        r@ matches DownloadStep::Stream { resume } ==> resume ==> header_start(
            opt_str_view(content_range),
        ) == Some(old(d).already as nat),
        r@ is Restart ==> !old(d).restarted && (status == 416 || status == 206),
        r@ is Restart ==> final(d).restarted && final(d).already == 0,
        !(r@ is Restart) ==> final(d)@ == old(d)@,
        r@ matches DownloadStep::Fail(e) ==> e is Http && e->status == Some(status),
        status != 200 && status != 206 && status != 416 ==> r@ is Fail,
{
    let range = opt_str_view(content_range);
    a_download_fails_with_its_status(old(d)@, status, range);
    a_body_goes_where_it_belongs(old(d)@, status, range);
}

/// A download takes up the bytes on disk only if they are fewer than the file has; as many or
/// more are discarded, and it begins at the start. It asks for the file of that name.
pub proof fn a_download_begins_where_the_part_ends(
    client: &GoProClient,
    m: &RemoteMedia,
    part_len: Option<u64>,
    r: (Download, bool),
)
    requires
        call_ensures(Download::<String>::begin, (client, m, part_len), r),
    ensures
        ({
            let len = match part_len {
                Some(n) => n,
                None => 0,
            };
            &&& r.1 <==> len > 0 && len >= m.size
            &&& r.0.already == (if len < m.size {
                len
            } else {
                0
            })
            &&& !r.0.restarted
            &&& r.0@.url == client@.base + "/videos/DCIM/"@ + m@.dir + "/"@ + m@.name
        }),
{
}

/// A transfer appends to a partial file that has bytes, and otherwise begins it empty.
pub proof fn a_part_with_bytes_is_appended_to(already: u64, r: (PartStream, PartMode))
    requires
        call_ensures(PartStream::begin, (already,), r),
    ensures
        r.1 == PartMode::Append <==> already > 0,
        r.1 == PartMode::Truncate <==> already == 0,
        r.0.on_disk().len() == 0,
{
}

/// A short request to a camera succeeds with 200 alone; every other answer is a failure that
/// carries the status.
pub proof fn only_200_is_a_success(url: &str, status: u16, r: Result<()>)
    requires
        call_ensures(expect_ok, (url, status), r),
    ensures
        r is Ok <==> status == 200,
        r matches Err(e) ==> e@ is Http && e@->status == Some(status),
{
}

/// A camera without a serial number is `unknown`, and one without a model has none.
pub proof fn a_camera_has_a_serial_number(info: &CameraInfo, r: (String, Option<String>))
    requires
        call_ensures(camera_identity, (info,), r),
    ensures
        info.serial@.len() > 0 ==> r.0@ == info.serial@,
        info.serial@.len() == 0 ==> r.0@ == "unknown"@,
        r.1 is Some <==> info.model@.len() > 0,
        r.1 matches Some(m) ==> m@ == info.model@,
{
}

/// A run over USB places a download exactly if it has the size that the camera lists; another
/// size is a failure.
pub proof fn a_short_download_is_not_placed(
    run: &mut WiredRun,
    verify: bool,
    n: u64,
    hash: String,
    r: (Vec<RunEvent>, WiredAction),
)
    requires
        call_ensures(
            WiredRun::downloaded,
            (run, verify, Ok::<(u64, String), String>((n, hash))),
            r,
        ),
        0 <= old(run)@.at < old(run)@.plan.len(),
    ensures
        ({
            let item = old(run)@.plan[old(run)@.at];
            &&& r.1@ is Place <==> n == item.media.size
            &&& n != item.media.size ==> final(run)@.failed == old(run)@.failed + 1
            &&& n == item.media.size ==> final(run)@.failed == old(run)@.failed
            &&& final(run)@.copied == old(run)@.copied
        }),
{
    only_a_whole_download_is_placed(old(run)@, verify, n, hash@);
}

// ---- copies -----------------------------------------------------------------

/// A destination passes its verification exactly if its hash is the one that was meant, or if
/// nothing is verified; the failure names the file.
pub proof fn only_the_same_hash_passes(
    path: &str,
    expected: &str,
    got: &str,
    verify: bool,
    r: Result<()>,
)
    requires
        call_ensures(verify_dest_hash, (path, expected, got, verify), r),
    ensures
        r is Ok <==> !verify || got@ == expected@,
        r matches Err(e) ==> e@ == CoreError::VerifyFailed(path@),
{
}

/// A verified copy succeeds exactly if what was read back hashes as what was read, and then
/// with that hash and all its bytes; a copy that is not verified succeeds without a hash.
pub proof fn only_a_faithful_copy_succeeds(
    stream: &CopyStream,
    dest: String,
    read_back: &CopyStream,
    r: Result<CopyOutcome>,
)
    requires
        call_ensures(copy_verified, (stream, dest, read_back), r),
    ensures
        r is Ok <==> !stream.verifies() || blake3_hex(read_back.read()) == blake3_hex(
            stream.read(),
        ),
        r matches Ok(o) ==> {
            &&& o@.dest == dest@
            &&& o.bytes == stream.read().len()
            &&& stream.verifies() ==> o@.hash == Some(blake3_hex(stream.read()))
            &&& !stream.verifies() ==> o@.hash is None
        },
        r matches Err(e) ==> e@ == CoreError::VerifyFailed(dest@),
{
}

/// A run adopts a file at the destination exactly if it has the size of the item; with another
/// size, or with none there, the item is copied and the ledger stays as it was.
pub proof fn a_file_of_another_size_is_copied_over(
    run: &mut Offload,
    ledger: &mut Ledger,
    cfg: &Config,
    found: Option<u64>,
    r: (Vec<RunEvent>, OffloadAction),
)
    requires
        call_ensures(Offload::probed, (run, ledger, cfg, found), r),
        0 <= old(run)@.at < old(run)@.plan.len() <= usize::MAX,
    ensures
        ({
            let item = old(run)@.plan[old(run)@.at];
            let fits = found is Some && found->0 == item.size;
            &&& !fits ==> r.1@ == (OffloadAction::Copy {
                position: item.position,
                dest: item.dest_path,
            })
            &&& !fits ==> final(ledger)@ == old(ledger)@
            &&& final(run)@.recovered == old(run)@.recovered + (if fits {
                1int
            } else {
                0int
            })
            &&& final(run)@.copied == old(run)@.copied && final(run)@.failed == old(run)@.failed
            &&& fits ==> final(ledger)@.imports.last().dest_path == item.canonical_dest_path
            &&& fits ==> final(ledger)@.imports.last().name == item.name
        }),
{
    let item = old(run)@.plan[old(run)@.at];
    if found == Some(item.size) {
        a_file_of_the_right_size_is_adopted(old(run)@, old(ledger)@, cfg@);
    } else {
        only_a_file_of_the_right_size_is_adopted(old(run)@, old(ledger)@, cfg@, found);
    }
}

/// A volume has room exactly if it has as many bytes free as are needed and the headroom.
pub proof fn room_is_bytes_and_headroom(
    new_files: usize,
    total_bytes: u64,
    headroom: u64,
    available: u64,
    room: bool,
    r: (Vec<RunEvent>, Option<CoreError>),
)
    requires
        call_ensures(has_room, (available, total_bytes, headroom), room),
        call_ensures(guard_space, (new_files, total_bytes, headroom, available), r),
        total_bytes + headroom < u64::MAX,
    ensures
        room <==> available >= total_bytes + headroom,
        r.1 is None <==> available >= total_bytes + headroom,
{
}

/// A source is deleted right after its copy was verified in every mode but the automatic one.
/// The card is ejected where that is asked for, unless sources are deleted behind uploads.
pub proof fn the_automatic_mode_waits(
    verified: bool,
    asked: bool,
    deletes: bool,
    mode: MirrorMode,
    inline: bool,
    ejects: bool,
)
    requires
        call_ensures(should_delete_card, (verified, mode), inline),
        call_ensures(should_auto_eject, (asked, deletes, mode), ejects),
    ensures
        inline <==> verified && (mode == MirrorMode::Off || mode == MirrorMode::Manual),
        ejects <==> asked && (!deletes || mode == MirrorMode::Off || mode == MirrorMode::Manual),
{
}

// ---- plans ------------------------------------------------------------------

/// A file is taken unless it is a proxy or a thumbnail that is not asked for.
pub proof fn only_companions_can_be_left_out(kind: MediaKind, cfg: &Config, r: bool)
    requires
        call_ensures(is_wanted, (kind, cfg), r),
    ensures
        !r <==> (kind == MediaKind::Proxy && !cfg.include_proxies) || (kind == MediaKind::Thumbnail
            && !cfg.include_thumbnails),
{
}

/// Every file has a capture time. That of a photo with an EXIF text that can be read is the
/// time of that text; that of every other file is the time that the local clock of the
/// machine gives for its modification time.
pub proof fn captures_are_those_of_the_clock(files: &Vec<CardFile>, r: Vec<Captured>, i: int)
    requires
        call_ensures(resolve_captures, (files,), r),
        0 <= i < files@.len(),
    ensures
        r@.len() == files@.len(),
        ({
            let f = files@[i]@;
            let dated = kind_of(f.name) == MediaKind::Photo && f.exif is Some && exif_capture(
                f.exif->0,
            ) is Some;
            &&& dated ==> r@[i]@ == exif_capture(f.exif->0)->0
            &&& !dated && in_calendar(f.mtime_unix as int) ==> clock_gives(f.mtime_unix, r@[i]@)
            &&& !dated && !in_calendar(f.mtime_unix as int) ==> clock_gives(0, r@[i]@)
        }),
{
    let fs = card_file_views(files@);
    let cs = captured_views(r@);
    undated_files_have_the_time_of_the_clock(fs, cs, i);
    assert(fs[i] == files@[i]@);
    assert(cs[i] == r@[i]@);
}

/// The capture time of a file that no EXIF text dates is what `local_date_and_time` wrote when
/// it was asked for the modification time of that file, and for no other time.
pub(crate) proof fn the_clock_is_asked_for_the_modification_time(
    files: &Vec<CardFile>,
    r: Vec<Captured>,
    i: int,
)
    requires
        call_ensures(resolve_captures, (files,), r),
        0 <= i < files@.len(),
        kind_of(files@[i]@.name) != MediaKind::Photo || files@[i]@.exif is None,
        in_calendar(files@[i].mtime_unix as int),
    ensures
        exists|given: Option<(String, String)>| #[trigger]
            call_ensures(local_date_and_time, (files@[i].mtime_unix,), given) && given is Some && (
            given->0).0@ == r@[i]@.date && (given->0).1@ == r@[i]@.time,
{
    captures_are_those_of_the_clock(files, r, i);
    the_clock_was_asked(files@[i].mtime_unix, r@[i]@);
}

/// The local time of a file on a camera is what `local_date_and_time` wrote when it was asked
/// for the time at which the camera says it was created.
pub(crate) proof fn the_clock_is_asked_for_the_creation_time(
    media: &Vec<RemoteMedia>,
    r: Vec<Captured>,
    i: int,
)
    requires
        call_ensures(times_of, (media,), r),
        0 <= i < media@.len(),
        in_calendar(media@[i].captured_unix as int),
    ensures
        exists|given: Option<(String, String)>| #[trigger]
            call_ensures(local_date_and_time, (media@[i].captured_unix,), given) && given is Some
                && (given->0).0@ == r@[i]@.date && (given->0).1@ == r@[i]@.time,
{
    let ms = media_views(media@);
    let cs = captured_views(r@);
    camera_files_have_the_time_of_the_clock(ms, cs, i);
    assert(ms[i] == media@[i]@);
    assert(cs[i] == r@[i]@);
    the_clock_was_asked(media@[i].captured_unix, r@[i]@);
}

/// Every planned copy is of a file of the card that the ledger does not know, with its name,
/// its size and its time.
pub proof fn only_new_files_are_planned(
    files: &Vec<CardFile>,
    cfg: &Config,
    ledger: &Ledger,
    serial: Option<&str>,
    model: Option<&str>,
    existing: &Vec<String>,
    r: Vec<PlannedCopy>,
    j: int,
)
    requires
        call_ensures(scan_card, (files, cfg, ledger, serial, model, existing), r),
        files@.len() <= usize::MAX,
        0 <= j < r@.len(),
    ensures
        ({
            let p = r@[j].position as int;
            &&& 0 <= p < files@.len()
            &&& r@[j]@.src == files@[p]@.src && r@[j]@.name == files@[p]@.name
            &&& r@[j].size == files@[p].size && r@[j].mtime_unix == files@[p].mtime_unix
            &&& serial matches Some(s) ==> !(exists|i: int|
                0 <= i < ledger@.imports.len() && (#[trigger] ledger@.imports[i]).camera_serial
                    == s@ && ledger@.imports[i].name == files@[p]@.name && ledger@.imports[i].size
                    == files@[p].size && ledger@.imports[i].mtime_unix == files@[p].mtime_unix)
        }),
{
    let cx = crate::scanner::plan_context(
        cfg@,
        ledger@,
        opt_str_view(serial),
        opt_str_view(model),
        views(existing@),
    );
    let fs = card_file_views(files@);
    let caps = choose|caps: Seq<Captured<Seq<char>>>| #[trigger]
        captures_match(fs, caps) && plan_views(r@) == cx.planned(fs, caps);
    crate::scanner::planned_files_are_new(cx, fs, caps);
    let plan = plan_views(r@);
    assert(plan[j] == r@[j]@);
    let p = r@[j].position as int;
    assert(plan[j].position == r@[j].position);
    assert(fs[p] == files@[p]@);
    if let Some(s) = serial {
        crate::ledger_laws::a_file_is_known_by_four_things(
            ledger@,
            s@,
            files@[p]@.name,
            files@[p].size,
            files@[p].mtime_unix,
        );
    }
}

// ---- the application --------------------------------------------------------

/// A switch that was given turns its setting on, and one that was not leaves it; nothing else
/// of a configuration changes.
pub proof fn switches_only_turn_on(cfg: &mut Config, flags: &SafetyFlags)
    requires
        call_ensures(apply_safety_overrides, (cfg, flags), ()),
    ensures
        final(cfg)@.delete_after_verify <==> old(cfg)@.delete_after_verify
            || flags.delete_after_verify,
        final(cfg)@.auto_eject <==> old(cfg)@.auto_eject || flags.auto_eject,
        final(cfg)@.dest_root == old(cfg)@.dest_root,
        final(cfg)@.cloud == old(cfg)@.cloud,
        final(cfg)@.verify == old(cfg)@.verify,
{
}

/// The queue is drained after an offload in the automatic mode alone; the command line counts
/// every upload that was given up on, and nothing else.
pub proof fn only_the_automatic_mode_drains(
    cfg: &Config,
    drains: bool,
    failed: usize,
    e: &CloudEvent,
    counted: usize,
)
    requires
        call_ensures(drains_after_offload, (cfg,), drains),
        call_ensures(count_failure, (failed, e), counted),
    ensures
        drains <==> cfg@.cloud is Some && (cfg@.cloud->0).mirror_mode == MirrorMode::Auto,
        e@ is CloudFailed ==> counted == failed + 1,
        !(e@ is CloudFailed) ==> counted == failed,
{
}

/// A run over USB is tried again exactly if it failed or a file of it did. A state goes out
/// exactly if it is newer than the newest that did. Closing hides both windows, and losing
/// the focus only the popover. The detector rests during an offload and where it is not
/// wanted.
pub proof fn the_desktop_decides(
    summary: &Result<RunSummary>,
    again: bool,
    last: &mut u64,
    seq: u64,
    goes_out: bool,
    label: &str,
    on_close: bool,
    on_blur: bool,
    active: bool,
    wired: bool,
    rests: bool,
)
    requires
        call_ensures(rearm_needed, (summary,), again),
        call_ensures(should_emit, (last, seq), goes_out),
        call_ensures(hides_on_close, (label,), on_close),
        call_ensures(hides_on_blur, (label,), on_blur),
        call_ensures(detector_should_pause, (active, wired), rests),
    ensures
        again <==> summary is Err || summary->Ok_0.failed > 0,
        goes_out <==> seq > *old(last),
        *final(last) >= seq,
        *final(last) >= *old(last),
        on_close <==> label@ == "popover"@ || label@ == "settings"@,
        on_blur <==> label@ == "popover"@,
        rests <==> active || !wired,
{
}

/// A volume is reported as a card with its model and its serial number, or by its path as none.
/// An ejection is reported by the path of the card, and its failure as a failure of it.
pub proof fn a_run_reports_its_card(
    root: &str,
    is_card: bool,
    model: &Option<String>,
    serial: &Option<String>,
    found: RunEvent,
    run: &Offload,
    failure: Option<&str>,
    ejected: RunEvent,
)
    requires
        call_ensures(detection_event, (root, is_card, model, serial), found),
        call_ensures(Offload::ejected, (run, failure), ejected),
    ensures
        is_card ==> found@ == (RunEvent::CardDetected {
            model: opt_view(*model),
            serial: opt_view(*serial),
        }),
        !is_card ==> found@ == RunEvent::NotGoPro(root@),
        failure is None <==> ejected@ is Ejected,
        failure is None ==> ejected@ == (RunEvent::Ejected { mount: run@.mount }),
        failure matches Some(e) ==> ejected@ == (RunEvent::Failed {
            file: run@.mount,
            error: "auto-eject failed: "@ + e@,
        }),
{
}

/// A source that was deleted after its upload is reported so, and one that could not be is
/// reported with the reason.
pub proof fn a_deletion_is_reported(src: String, failure: Option<&str>, r: CloudEvent)
    requires
        call_ensures(deletion_event, (src, failure), r),
    ensures
        failure is None ==> r@ == (CloudEvent::Deleted { file: src@ }),
        failure matches Some(e) ==> r@ == (CloudEvent::DeleteFailed {
            file: src@,
            error: "post-upload delete failed: "@ + e@,
        }),
{
}

/// The safety switches are found wherever they stand. Arguments are refused exactly if one of
/// them begins with two hyphens and is no switch that is known.
pub proof fn a_misspelt_switch_is_refused(
    args: &Vec<String>,
    r: std::result::Result<(Vec<String>, SafetyFlags), String>,
)
    requires
        call_ensures(parse_safety_flags, (args,), r),
    ensures
        r is Ok <==> forall|i: int|
            0 <= i < args@.len() ==> !unknown_flag((#[trigger] args@[i])@),
        r matches Ok((rest, flags)) ==> {
            &&& flags.delete_after_verify <==> views(args@).contains("--delete-after-verify"@)
            &&& flags.auto_eject <==> views(args@).contains("--auto-eject"@)
        },
{
}

/// The command line takes its destination from its arguments, and from the configuration file
/// only the cloud destination and the two safety settings.
pub proof fn the_file_does_not_name_the_destination(
    dest: &str,
    overlay: Option<CliConfigOverlay>,
    r: Config,
)
    requires
        call_ensures(crate::cli::load_or_default_config, (dest, overlay), r),
    ensures
        r@.dest_root == dest@,
        r@.verify && r@.filename_template == "{date}_{original}"@,
        overlay matches Some(o) ==> r@.delete_after_verify == o.delete_after_verify && r@.auto_eject
            == o.auto_eject && r@.cloud is Some == o.cloud is Some,
        overlay is None ==> !r@.delete_after_verify && !r@.auto_eject && r@.cloud is None,
{
}

/// What is logged of a credential does not depend on its password.
pub proof fn a_logged_credential_hides_its_password(a: &Secret, b: &Secret, x: String, y: String)
    requires
        call_ensures(Secret::redacted, (a,), x),
        call_ensures(Secret::redacted, (b,), y),
        a.username@ == b.username@,
    ensures
        x@ == y@,
{
}

/// A camera answers at the address that ends in 51 on a network of cameras, and nowhere on
/// another network.
pub proof fn a_camera_answers_on_its_network(a: u8, b: u8, c: u8, r: Option<String>)
    requires
        call_ensures(camera_address, (a, b, c), r),
    ensures
        r is Some <==> a == 172 && 20 <= b <= 29,
        r matches Some(s) ==> s@ == decimal(a as nat) + "."@ + decimal(b as nat) + "."@ + decimal(
            c as nat,
        ) + ".51"@,
{
}

/// A download asks for the bytes from those on disk on.
pub proof fn a_download_asks_for_the_rest(d: &Download, r: String)
    requires
        call_ensures(Download::<String>::range, (d,), r),
    ensures
        r@ == "bytes="@ + decimal(d.already as nat) + "-"@,
{
}

/// An icon is set exactly if it is another one than the last, and an error in setting up the
/// uploader is shown exactly if it is another one than the last.
pub proof fn only_news_is_shown(
    last: &mut u8,
    icon: &str,
    sets: bool,
    shown: &mut Option<String>,
    message: &str,
    shows: bool,
)
    requires
        call_ensures(should_set_icon, (last, icon), sets),
        call_ensures(should_surface_build_error, (shown, message), shows),
    ensures
        sets <==> *final(last) != *old(last),
        shows <==> opt_view(*final(shown)) != opt_view(*old(shown)),
        opt_view(*final(shown)) == Some(message@),
{
}

/// The time is read off the clock of the machine, the jitter is drawn at random from four
/// seconds, and the id of an upload directory is made at random.
pub proof fn chance_and_time_are_asked_for(now: i64, jitter: u64, id: String)
    requires
        call_ensures(now_unix, (), now),
        call_ensures(jitter_ms, (), jitter),
        call_ensures(fresh_upload_id, (), id),
    ensures
        exists|t: Option<u64>| clock_read(t) && now == #[trigger] signed_seconds(t),
        drawn_below(4000, jitter) && jitter < 4000,
        exists|u: Seq<char>|
            made_at_random(u) && u.len() == 36 && id@ == #[trigger] fresh_id_text(u),
{
    let u = choose|u: Seq<char>|
        crate::cloud::upload::uuid_text(u) && made_at_random(u) && id@ == #[trigger] fresh_id_text(
            u,
        );
    assert(id@ == fresh_id_text(u));
}

} // verus!
