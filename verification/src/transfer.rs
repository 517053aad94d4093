//! What every transfer shares, from a card or over USB: the hash of what lies on
//! disk, and the entry in the ledger.

use crate::config::{mirror_of, Config};
use crate::hashing::{blake3_hex, Blake3Stream};
use crate::ledger::{max_import_id, max_job_id, FileKey, Ledger, LedgerModel};
use crate::orchestrator::{remote_path_for, remote_path_of};
use crate::text::opt_str_view;
use vstd::prelude::*;

verus! {

/// How the partial file of a transfer is opened.
#[derive(Debug, Clone, Copy, PartialEq, Eq, Structural)]
pub enum PartMode {
    /// Created, or emptied: a fresh transfer.
    Truncate,
    /// Kept and extended: its bytes are hashed first.
    Append,
}

/// A transfer into a partial file. Its hash and its length are those of all bytes
/// on disk, those of an earlier attempt among them.
pub struct PartStream {
    hash: Blake3Stream,
}

impl PartStream {
    /// The bytes on disk.
    pub closed spec fn on_disk(self) -> Seq<u8> {
        self.hash.fed()
    }

    /// The count of the bytes on disk agrees with them.
    pub closed spec fn well_formed(self) -> bool {
        self.hash.counted() == self.hash.fed().len()
    }

    /// Begins a transfer that finds `already` bytes of an earlier attempt.
    pub fn begin(already: u64) -> (r: (PartStream, PartMode))
        ensures
            r.0.well_formed(),
            r.0.on_disk() == Seq::<u8>::empty(),
            r.1 == (if already > 0 {
                PartMode::Append
            } else {
                PartMode::Truncate
            }),
    {
        let s = PartStream { hash: Blake3Stream::new() };
        if already > 0 {
            (s, PartMode::Append)
        } else {
            (s, PartMode::Truncate)
        }
    }

    /// Takes a piece that lies on disk, and returns how many bytes lie there now.
    pub fn take(&mut self, bytes: &[u8]) -> (r: u64)
        requires
            old(self).well_formed(),
            old(self).on_disk().len() + bytes@.len() <= u64::MAX,
        ensures
            final(self).well_formed(),
            final(self).on_disk() == old(self).on_disk() + bytes@,
            r == final(self).on_disk().len(),
    {
        self.hash.update(bytes)
    }

    /// How many bytes lie on disk.
    pub fn len(&self) -> (r: u64)
        requires
            self.well_formed(),
        ensures
            r == self.on_disk().len(),
    {
        self.hash.len()
    }

    /// The number and the hash of the bytes on disk.
    pub fn finish(&self) -> (r: (u64, String))
        requires
            self.well_formed(),
        ensures
            r.0 == self.on_disk().len(),
            r.1@ == blake3_hex(self.on_disk()),
    {
        (self.hash.len(), self.hash.hex())
    }
}

/// Streams pieces into a partial file that holds `existing` bytes, in one go: the
/// bytes on disk afterwards are counted and hashed as a whole, and each report
/// is the count so far. Without earlier bytes the file begins empty.
pub fn stream_hash_to_part(existing: &[u8], pieces: &Vec<Vec<u8>>) -> (r: (Vec<u64>, u64, String))
    requires
        existing@.len() + total_len(pieces@) <= u64::MAX,
    ensures
        r.0@ == reports_of(existing@.len() as int, pieces@),
        r.1 == existing@.len() + total_len(pieces@),
        r.2@ == blake3_hex(existing@ + all_bytes(pieces@)),
{
    let n: usize = existing.len();
    let (mut s, _mode) = PartStream::begin(n as u64);
    let first: u64 = s.take(existing);
    let mut reports: Vec<u64> = Vec::new();
    reports.push(first);
    let mut i: usize = 0;
    proof {
        assert(Seq::<u8>::empty() + existing@ =~= existing@);
        assert(pieces@.take(0) =~= seq![]);
        assert(existing@ + all_bytes(pieces@.take(0)) =~= existing@);
        assert(reports@ =~= reports_of(existing@.len() as int, pieces@.take(0)));
    }
    while i < pieces.len()
        invariant
            i <= pieces@.len(),
            s.well_formed(),
            existing@.len() + total_len(pieces@) <= u64::MAX,
            s.on_disk() == existing@ + all_bytes(pieces@.take(i as int)),
            reports@ == reports_of(existing@.len() as int, pieces@.take(i as int)),
        decreases pieces.len() - i,
    {
        proof {
            lemma_total_len(pieces@.take(i as int));
            lemma_total_len_grows(pieces@, i + 1);
            assert(pieces@.take(i + 1).drop_last() =~= pieces@.take(i as int));
            assert(pieces@.take(i + 1).last() == pieces@[i as int]);
        }
        let count: u64 = s.take(pieces[i].as_slice());
        reports.push(count);
        proof {
            assert(s.on_disk() =~= existing@ + all_bytes(pieces@.take(i + 1)));
            lemma_total_len(pieces@.take(i + 1));
        }
        i += 1;
    }
    proof {
        assert(pieces@.take(i as int) =~= pieces@);
        lemma_total_len(pieces@);
    }
    let (total, hex) = s.finish();
    (reports, total, hex)
}

/// All bytes of some pieces.
pub open spec fn all_bytes(pieces: Seq<Vec<u8>>) -> Seq<u8>
    decreases pieces.len(),
{
    if pieces.len() == 0 {
        seq![]
    } else {
        all_bytes(pieces.drop_last()) + pieces.last()@
    }
}

/// How many bytes some pieces hold.
pub open spec fn total_len(pieces: Seq<Vec<u8>>) -> int
    decreases pieces.len(),
{
    if pieces.len() == 0 {
        0
    } else {
        total_len(pieces.drop_last()) + pieces.last()@.len()
    }
}

/// The counts that are reported: where the transfer starts, and after each piece.
pub open spec fn reports_of(start: int, pieces: Seq<Vec<u8>>) -> Seq<u64>
    decreases pieces.len(),
{
    if pieces.len() == 0 {
        seq![start as u64]
    } else {
        reports_of(start, pieces.drop_last()).push((start + total_len(pieces)) as u64)
    }
}

proof fn lemma_total_len(pieces: Seq<Vec<u8>>)
    ensures
        all_bytes(pieces).len() == total_len(pieces),
    decreases pieces.len(),
{
    if pieces.len() > 0 {
        lemma_total_len(pieces.drop_last());
    }
}

proof fn lemma_total_len_grows(pieces: Seq<Vec<u8>>, k: int)
    requires
        0 <= k <= pieces.len(),
    ensures
        0 <= total_len(pieces.take(k)) <= total_len(pieces),
    decreases pieces.len() - k,
{
    lemma_total_len(pieces.take(k));
    if k < pieces.len() {
        lemma_total_len_grows(pieces, k + 1);
        assert(pieces.take(k + 1).drop_last() =~= pieces.take(k));
    } else {
        assert(pieces.take(k) =~= pieces);
    }
}

/// A resumed transfer ends with the hash and the length of a fresh transfer of the
/// same bytes: only the whole matters, not where it was cut.
pub proof fn resume_equals_fresh(
    prefix: Seq<u8>,
    pieces: Seq<Vec<u8>>,
    fresh: Seq<Vec<u8>>,
)
    requires
        prefix + all_bytes(pieces) == all_bytes(fresh),
    ensures
        blake3_hex(prefix + all_bytes(pieces)) == blake3_hex(Seq::<u8>::empty() + all_bytes(fresh)),
        prefix.len() + total_len(pieces) == total_len(fresh),
{
    assert(Seq::<u8>::empty() + all_bytes(fresh) =~= all_bytes(fresh));
    lemma_total_len(pieces);
    lemma_total_len(fresh);
}

/// The bytes of pieces are those of each in turn. A report comes before the first piece and
/// after each: it counts the bytes that were there and those that have come.
pub proof fn reports_count_what_has_come(start: int, pieces: Seq<Vec<u8>>, piece: Vec<u8>)
    requires
        0 <= start,
        start + total_len(pieces) <= u64::MAX,
    ensures
        all_bytes(pieces.push(piece)) == all_bytes(pieces) + piece@,
        all_bytes(Seq::<Vec<u8>>::empty()).len() == 0,
        total_len(pieces) == all_bytes(pieces).len(),
        reports_of(start, pieces).len() == pieces.len() + 1,
        reports_of(start, pieces)[0] == start,
        reports_of(start, pieces).last() == start + all_bytes(pieces).len(),
        reports_of(start, pieces.push(piece)).drop_last() == reports_of(start, pieces),
    decreases pieces.len(),
{
    let more = pieces.push(piece);
    assert(more.drop_last() =~= pieces);
    lemma_total_len(pieces);
    assert(reports_of(start, more).drop_last() =~= reports_of(start, pieces));
    if pieces.len() > 0 {
        let rest = pieces.drop_last();
        lemma_total_len(rest);
        reports_count_what_has_come(start, rest, pieces.last());
        assert(rest.push(pieces.last()) =~= pieces);
    }
}

// ---- the entry in the ledger ------------------------------------------------

/// The ledger once a copied file is recorded and, where files are mirrored, queued
/// for upload.
pub open spec fn committed(
    ledger: LedgerModel,
    cfg: Config<Seq<char>>,
    key: FileKey,
    dest_path: Seq<char>,
    dest_name: Seq<char>,
    hash: Option<Seq<char>>,
    card_src: Option<Seq<char>>,
) -> LedgerModel {
    let recorded = ledger.recorded(key, dest_path, hash);
    if mirror_of(cfg.cloud).queues() {
        recorded.enqueued(
            (max_import_id(ledger.imports) + 1) as i64,
            cfg.cloud->0.destination_id,
            dest_path,
            remote_path_of(cfg.cloud->0.remote_root, dest_name),
            key.size,
            card_src,
        )
    } else {
        recorded
    }
}

/// Records a file that stands verified at `dest_path` and, where files are
/// mirrored, queues its upload. `card_src` is the file on the card, which the
/// worker may delete after the upload. Returns the id of the row.
pub fn commit_imported(
    ledger: &mut Ledger,
    cfg: &Config,
    serial: &str,
    name: &str,
    size: u64,
    captured_unix: i64,
    dest_path: &str,
    dest_name: &str,
    hash: Option<&str>,
    card_src: Option<&str>,
) -> (r: i64)
    requires
        max_import_id(old(ledger)@.imports) < i64::MAX,
        max_job_id(old(ledger)@.jobs) < i64::MAX,
    ensures
        r == max_import_id(old(ledger)@.imports) + 1,
        final(ledger)@ == committed(
            old(ledger)@,
            cfg@,
            FileKey { serial: serial@, name: name@, size, mtime_unix: captured_unix },
            dest_path@,
            dest_name@,
            opt_str_view(hash),
            opt_str_view(card_src),
        ),
{
    let id: i64 = ledger.record(serial, name, size, captured_unix, dest_path, hash);
    if let Some(cloud) = &cfg.cloud {
        if cloud.mirror_mode.is_queueing() {
            let remote = remote_path_for(cloud.remote_root.as_str(), dest_name);
            let _job: i64 = ledger.enqueue_cloud_job(
                id,
                cloud.destination_id.as_str(),
                dest_path,
                remote.as_str(),
                size,
                card_src,
            );
        }
    }
    id
}

} // verus!
