//! What holds of the ledger across its operations.

use crate::ledger::{
    after_claims, claims, given_up_count, jobs_in, max_import_id, max_job_id, pending_count,
    rows_but, uploading_count, CloudJob, FileKey, ImportRow, JobState, LedgerModel,
};
use vstd::prelude::*;

verus! {

// ---- imported files ---------------------------------------------------------

proof fn lemma_rows_but(imports: Seq<ImportRow<Seq<char>>>, key: FileKey, other: FileKey)
    ensures
        forall|i: int|
            0 <= i < rows_but(imports, key).len() ==> (#[trigger] rows_but(imports, key)[i]).key()
                != key && imports.contains(rows_but(imports, key)[i]),
        other != key && (exists|i: int|
            0 <= i < imports.len() && (#[trigger] imports[i]).key() == other) ==> exists|i: int|
            0 <= i < rows_but(imports, key).len() && (#[trigger] rows_but(imports, key)[i]).key()
                == other,
        rows_but(imports, key).len() <= imports.len(),
    decreases imports.len(),
{
    if imports.len() > 0 {
        let head = imports.drop_last();
        lemma_rows_but(head, key, other);
        let kept = rows_but(head, key);
        let all = rows_but(imports, key);
        assert forall|i: int| 0 <= i < all.len() implies (#[trigger] all[i]).key() != key
            && imports.contains(all[i]) by {
            if i < kept.len() {
                assert(all[i] == kept[i]);
                let j = choose|j: int| 0 <= j < head.len() && head[j] == kept[i];
                assert(imports[j] == all[i]);
            } else {
                assert(all[i] == imports.last());
                assert(imports[imports.len() - 1] == all[i]);
            }
        }
        if other != key && (exists|i: int|
            0 <= i < imports.len() && (#[trigger] imports[i]).key() == other) {
            let i = choose|i: int| 0 <= i < imports.len() && (#[trigger] imports[i]).key() == other;
            if i < head.len() {
                assert(head[i].key() == other);
                let j = choose|j: int| 0 <= j < kept.len() && (#[trigger] kept[j]).key() == other;
                assert(all[j] == kept[j]);
            } else {
                assert(all[all.len() - 1].key() == other);
            }
        }
    }
}

/// A recorded file is known to the ledger from then on, and what the ledger knew
/// of other files it still knows, no more and no less.
pub proof fn record_imports_exactly_one_file(
    l: LedgerModel,
    key: FileKey,
    dest_path: Seq<char>,
    hash: Option<Seq<char>>,
    other: FileKey,
)
    ensures
        l.recorded(key, dest_path, hash).has(key),
        other != key ==> (l.recorded(key, dest_path, hash).has(other) <==> l.has(other)),
        l.recorded(key, dest_path, hash).jobs == l.jobs,
{
    let after = l.recorded(key, dest_path, hash);
    let kept = rows_but(l.imports, key);
    lemma_rows_but(l.imports, key, other);
    assert(after.imports[kept.len() as int].key() == key);
    if other != key {
        if l.has(other) {
            let i = choose|i: int| 0 <= i < kept.len() && (#[trigger] kept[i]).key() == other;
            assert(after.imports[i].key() == other);
        }
        if after.has(other) {
            let i = choose|i: int|
                0 <= i < after.imports.len() && (#[trigger] after.imports[i]).key() == other;
            assert(after.imports[i] == kept[i]);
            let j = choose|j: int| 0 <= j < l.imports.len() && l.imports[j] == kept[i];
            assert(l.imports[j].key() == other);
        }
    }
}

/// A ledger with the rows of a recording knows the file, and all that was known
/// before.
pub proof fn recording_forgets_nothing(
    l: LedgerModel,
    after: LedgerModel,
    key: FileKey,
    path: Seq<char>,
    hash: Option<Seq<char>>,
)
    requires
        after.imports == l.recorded(key, path, hash).imports,
    ensures
        after.has(key),
        forall|k: FileKey| #[trigger] l.has(k) ==> after.has(k),
{
    let recorded = l.recorded(key, path, hash);
    assert forall|k: FileKey| #[trigger] l.has(k) || k == key implies after.has(k) by {
        record_imports_exactly_one_file(l, key, path, hash, k);
        assert(recorded.has(k));
        let i = choose|i: int|
            0 <= i < recorded.imports.len() && (#[trigger] recorded.imports[i]).key() == k;
        assert(after.imports[i].key() == k);
    }
    record_imports_exactly_one_file(l, key, path, hash, key);
    let i = choose|i: int|
        0 <= i < recorded.imports.len() && (#[trigger] recorded.imports[i]).key() == key;
    assert(after.imports[i].key() == key);
}

proof fn lemma_max_import_id(imports: Seq<ImportRow<Seq<char>>>)
    ensures
        max_import_id(imports) >= 0,
        forall|i: int| 0 <= i < imports.len() ==> (#[trigger] imports[i]).id <= max_import_id(imports),
    decreases imports.len(),
{
    if imports.len() > 0 {
        let head = imports.drop_last();
        lemma_max_import_id(head);
        assert forall|i: int| 0 <= i < imports.len() implies (#[trigger] imports[i]).id
            <= max_import_id(imports) by {
            if i < head.len() {
                assert(head[i] == imports[i]);
            }
        }
    }
}

proof fn lemma_max_job_id(jobs: Seq<CloudJob<Seq<char>>>)
    ensures
        max_job_id(jobs) >= 0,
        forall|i: int| 0 <= i < jobs.len() ==> (#[trigger] jobs[i]).id <= max_job_id(jobs),
    decreases jobs.len(),
{
    if jobs.len() > 0 {
        let head = jobs.drop_last();
        lemma_max_job_id(head);
        assert forall|i: int| 0 <= i < jobs.len() implies (#[trigger] jobs[i]).id <= max_job_id(
            jobs,
        ) by {
            if i < head.len() {
                assert(head[i] == jobs[i]);
            }
        }
    }
}

/// The rows that `rows_but` keeps stand in the order in which they stood.
proof fn lemma_rows_but_sorted(imports: Seq<ImportRow<Seq<char>>>, key: FileKey)
    requires
        forall|i: int| 0 <= i < imports.len() ==> 0 < (#[trigger] imports[i]).id,
        forall|i: int, j: int|
            0 <= i < j < imports.len() ==> (#[trigger] imports[i]).id < (#[trigger] imports[j]).id
                && imports[i].key() != imports[j].key(),
    ensures
        ({
            let kept = rows_but(imports, key);
            &&& forall|i: int| 0 <= i < kept.len() ==> 0 < (#[trigger] kept[i]).id
            &&& forall|i: int, j: int|
                0 <= i < j < kept.len() ==> (#[trigger] kept[i]).id < (#[trigger] kept[j]).id
                    && kept[i].key() != kept[j].key()
        }),
    decreases imports.len(),
{
    if imports.len() > 0 {
        let head = imports.drop_last();
        assert forall|i: int, j: int| 0 <= i < j < head.len() implies (#[trigger] head[i]).id < (
        #[trigger] head[j]).id && head[i].key() != head[j].key() by {
            assert(head[i] == imports[i] && head[j] == imports[j]);
        }
        assert forall|i: int| 0 <= i < head.len() implies 0 < (#[trigger] head[i]).id by {
            assert(head[i] == imports[i]);
        }
        lemma_rows_but_sorted(head, key);
        lemma_rows_but(head, key, key);
        let before = rows_but(head, key);
        let kept = rows_but(imports, key);
        assert forall|i: int, j: int| 0 <= i < j < kept.len() implies (#[trigger] kept[i]).id < (
        #[trigger] kept[j]).id && kept[i].key() != kept[j].key() by {
            assert(kept[i] == before[i]);
            if j < before.len() {
                assert(kept[j] == before[j]);
            } else {
                let k = choose|k: int| 0 <= k < head.len() && head[k] == before[i];
                assert(imports[k] == kept[i]);
                assert(kept[j] == imports[imports.len() - 1]);
            }
        }
        assert forall|i: int| 0 <= i < kept.len() implies 0 < (#[trigger] kept[i]).id by {
            if i < before.len() {
                assert(kept[i] == before[i]);
            } else {
                assert(kept[i] == imports[imports.len() - 1]);
            }
        }
    }
}

/// Recording a file keeps the ledger in order: rising ids, and one row for each
/// source file, however often it is recorded.
pub proof fn record_keeps_order(
    l: LedgerModel,
    key: FileKey,
    dest_path: Seq<char>,
    hash: Option<Seq<char>>,
)
    requires
        l.well_formed(),
        max_import_id(l.imports) < i64::MAX,
    ensures
        l.recorded(key, dest_path, hash).well_formed(),
{
    let after = l.recorded(key, dest_path, hash);
    let kept = rows_but(l.imports, key);
    lemma_rows_but_sorted(l.imports, key);
    lemma_rows_but(l.imports, key, key);
    lemma_max_import_id(l.imports);
    assert forall|i: int, j: int| 0 <= i < j < after.imports.len() implies (
    #[trigger] after.imports[i]).id < (#[trigger] after.imports[j]).id && after.imports[i].key()
        != after.imports[j].key() by {
        assert(after.imports[i] == kept[i]);
        if j < kept.len() {
            assert(after.imports[j] == kept[j]);
        } else {
            let k = choose|k: int| 0 <= k < l.imports.len() && l.imports[k] == kept[i];
            assert(l.imports[k].id <= max_import_id(l.imports));
        }
    }
    assert forall|i: int| 0 <= i < after.imports.len() implies 0 < (#[trigger] after.imports[i]).id by {
        if i < kept.len() {
            assert(after.imports[i] == kept[i]);
        }
    }
}

// ---- the queue --------------------------------------------------------------

/// Queueing a job keeps the ledger in order.
pub proof fn enqueue_keeps_order(
    l: LedgerModel,
    imported_id: i64,
    destination_id: Seq<char>,
    local_path: Seq<char>,
    remote_path: Seq<char>,
    size: u64,
    card_src: Option<Seq<char>>,
)
    requires
        l.well_formed(),
        max_job_id(l.jobs) < i64::MAX,
    ensures
        l.enqueued(imported_id, destination_id, local_path, remote_path, size, card_src).well_formed(),
        pending_count(
            l.enqueued(imported_id, destination_id, local_path, remote_path, size, card_src).jobs,
        ) == pending_count(l.jobs) + 1,
{
    lemma_max_job_id(l.jobs);
    let after = l.enqueued(imported_id, destination_id, local_path, remote_path, size, card_src);
    assert(after.jobs.drop_last() =~= l.jobs);
    assert forall|i: int, j: int| 0 <= i < j < after.jobs.len() implies (#[trigger] after.jobs[i]).id
        < (#[trigger] after.jobs[j]).id by {
        assert(after.jobs[i] == l.jobs[i]);
        if j < l.jobs.len() {
            assert(after.jobs[j] == l.jobs[j]);
        }
    }
}

/// The operations that only change jobs in place keep the ledger in order.
proof fn lemma_same_ids_keep_order(a: LedgerModel, b: LedgerModel)
    requires
        a.well_formed(),
        a.imports == b.imports,
        a.jobs.len() == b.jobs.len(),
        forall|i: int| 0 <= i < a.jobs.len() ==> (#[trigger] b.jobs[i]).id == a.jobs[i].id,
    ensures
        b.well_formed(),
{
    assert forall|i: int, j: int| 0 <= i < j < b.jobs.len() implies (#[trigger] b.jobs[i]).id < (
    #[trigger] b.jobs[j]).id by {
        assert(b.jobs[i].id == a.jobs[i].id && b.jobs[j].id == a.jobs[j].id);
    }
    assert forall|i: int| 0 <= i < b.jobs.len() implies 0 < (#[trigger] b.jobs[i]).id by {
        assert(b.jobs[i].id == a.jobs[i].id);
    }
}

/// Finishing, failing, advancing, requeueing and reclaiming jobs, and setting a
/// cloud status, keep the ledger in order.
pub proof fn updates_keep_order(
    l: LedgerModel,
    id: i64,
    error: Seq<char>,
    next: Option<i64>,
    uploaded: u64,
    resume: crate::cloud::ResumeState<Seq<char>>,
    status: Seq<char>,
)
    requires
        l.well_formed(),
    ensures
        l.job_done(id).well_formed(),
        l.job_failed(id, error, next).well_formed(),
        l.job_progressed(id, uploaded, resume).well_formed(),
        l.given_up_requeued().well_formed(),
        l.uploading_reclaimed().well_formed(),
        l.status_set(id, status).well_formed(),
{
    lemma_same_ids_keep_order(l, l.job_done(id));
    lemma_same_ids_keep_order(l, l.job_failed(id, error, next));
    lemma_same_ids_keep_order(l, l.job_progressed(id, uploaded, resume));
    lemma_same_ids_keep_order(l, l.given_up_requeued());
    lemma_same_ids_keep_order(l, l.uploading_reclaimed());
    let s = l.status_set(id, status);
    assert forall|i: int, j: int| 0 <= i < j < s.imports.len() implies (#[trigger] s.imports[i]).id
        < (#[trigger] s.imports[j]).id && s.imports[i].key() != s.imports[j].key() by {
        assert(s.imports[i].key() == l.imports[i].key() && s.imports[j].key()
            == l.imports[j].key());
        assert(l.imports[i].id < l.imports[j].id);
    }
    assert forall|i: int| 0 <= i < s.imports.len() implies 0 < (#[trigger] s.imports[i]).id by {
        assert(l.imports[i].id > 0);
    }
}

proof fn lemma_claims(jobs: Seq<CloudJob<Seq<char>>>, now: i64, limit: nat)
    ensures
        claims(jobs, now, limit).len() <= limit,
        after_claims(jobs, now, limit).len() == jobs.len(),
        pending_count(after_claims(jobs, now, limit)) == pending_count(jobs),
        forall|i: int|
            0 <= i < jobs.len() ==> (#[trigger] after_claims(jobs, now, limit)[i] == jobs[i] || (
            jobs[i].due(now) && after_claims(jobs, now, limit)[i] == jobs[i].claimed() && claims(
                jobs,
                now,
                limit,
            ).contains(jobs[i].claimed()))),
        claims(jobs, now, limit).len() < limit ==> forall|i: int|
            0 <= i < jobs.len() && (#[trigger] jobs[i]).due(now) ==> claims(
                jobs,
                now,
                limit,
            ).contains(jobs[i].claimed()),
    decreases jobs.len(),
{
    if jobs.len() > 0 {
        let head = jobs.drop_last();
        lemma_claims(head, now, limit);
        let got = claims(jobs, now, limit);
        let got_head = claims(head, now, limit);
        let after = after_claims(jobs, now, limit);
        let after_head = after_claims(head, now, limit);
        assert(after.drop_last() =~= after_head);
        assert forall|p: CloudJob<Seq<char>>| got_head.contains(p) implies got.contains(p) by {
            let k = choose|k: int| 0 <= k < got_head.len() && got_head[k] == p;
            assert(got[k] == p);
        }
        if got_head.len() < limit && jobs.last().due(now) {
            assert(got[got.len() - 1] == jobs.last().claimed());
        }
        assert forall|i: int| 0 <= i < jobs.len() implies (#[trigger] after[i] == jobs[i] || (
        jobs[i].due(now) && after[i] == jobs[i].claimed() && got.contains(jobs[i].claimed()))) by {
            if i < head.len() {
                assert(after[i] == after_head[i]);
                assert(head[i] == jobs[i]);
            }
        }
        if got.len() < limit {
            assert forall|i: int| 0 <= i < jobs.len() && (#[trigger] jobs[i]).due(now) implies got.contains(
                jobs[i].claimed(),
            ) by {
                if i < head.len() {
                    assert(head[i] == jobs[i]);
                }
            }
        }
    }
}

/// A claim takes at most `limit` jobs, only jobs that are due, and all of those
/// where fewer than `limit` are; it changes nothing else of the queue, each job
/// that it changes is handed out, and no job stops being pending by it.
pub proof fn claim_takes_due_jobs_only(l: LedgerModel, now: i64, limit: nat)
    ensures
        claims(l.jobs, now, limit).len() <= limit,
        after_claims(l.jobs, now, limit).len() == l.jobs.len(),
        pending_count(after_claims(l.jobs, now, limit)) == pending_count(l.jobs),
        forall|i: int|
            0 <= i < l.jobs.len() && !l.jobs[i].due(now) ==> #[trigger] after_claims(
                l.jobs,
                now,
                limit,
            )[i] == l.jobs[i],
        forall|i: int|
            0 <= i < l.jobs.len() ==> #[trigger] after_claims(l.jobs, now, limit)[i] == l.jobs[i]
                || (after_claims(l.jobs, now, limit)[i] == l.jobs[i].claimed() && claims(
                l.jobs,
                now,
                limit,
            ).contains(l.jobs[i].claimed())),
        claims(l.jobs, now, limit).len() < limit ==> forall|i: int|
            0 <= i < l.jobs.len() && (#[trigger] l.jobs[i]).due(now) ==> claims(
                l.jobs,
                now,
                limit,
            ).contains(l.jobs[i].claimed()),
{
    lemma_claims(l.jobs, now, limit);
}

/// A claim keeps the ledger in order.
pub proof fn claim_keeps_order(l: LedgerModel, now: i64, limit: nat)
    requires
        l.well_formed(),
    ensures
        (LedgerModel { jobs: after_claims(l.jobs, now, limit), ..l }).well_formed(),
{
    let b = LedgerModel { jobs: after_claims(l.jobs, now, limit), ..l };
    lemma_claims(l.jobs, now, limit);
    assert forall|i: int| 0 <= i < l.jobs.len() implies (#[trigger] b.jobs[i]).id == l.jobs[i].id by {
        assert(b.jobs[i] == l.jobs[i] || b.jobs[i] == l.jobs[i].claimed());
    }
    lemma_same_ids_keep_order(l, b);
}

proof fn lemma_requeue(jobs: Seq<CloudJob<Seq<char>>>)
    ensures
        ({
            let after = Seq::new(
                jobs.len(),
                |i: int|
                    if jobs[i].given_up() {
                        jobs[i].requeued()
                    } else {
                        jobs[i]
                    },
            );
            &&& given_up_count(after) == 0
            &&& pending_count(after) == pending_count(jobs) + given_up_count(jobs)
        }),
    decreases jobs.len(),
{
    let after = Seq::new(
        jobs.len(),
        |i: int|
            if jobs[i].given_up() {
                jobs[i].requeued()
            } else {
                jobs[i]
            },
    );
    if jobs.len() > 0 {
        let head = jobs.drop_last();
        lemma_requeue(head);
        assert(after.drop_last() =~= Seq::new(
            head.len(),
            |i: int|
                if head[i].given_up() {
                    head[i].requeued()
                } else {
                    head[i]
                },
        ));
    }
}

/// Requeueing leaves no job given up on, and each that was is pending again.
pub proof fn requeue_moves_given_up_to_pending(l: LedgerModel)
    ensures
        given_up_count(l.given_up_requeued().jobs) == 0,
        pending_count(l.given_up_requeued().jobs) == pending_count(l.jobs) + given_up_count(l.jobs),
{
    lemma_requeue(l.jobs);
}

/// Requeueing does not touch a job that is parked for a retry.
pub proof fn requeue_spares_scheduled_retries(l: LedgerModel, i: int)
    requires
        0 <= i < l.jobs.len(),
        l.jobs[i].next_retry_at is Some,
    ensures
        l.given_up_requeued().jobs[i] == l.jobs[i],
{
}

proof fn lemma_reclaim(jobs: Seq<CloudJob<Seq<char>>>)
    ensures
        ({
            let after = Seq::new(
                jobs.len(),
                |i: int|
                    if jobs[i].state == JobState::Uploading {
                        CloudJob { state: JobState::Queued, ..jobs[i] }
                    } else {
                        jobs[i]
                    },
            );
            &&& uploading_count(after) == 0
            &&& pending_count(after) == pending_count(jobs)
            &&& given_up_count(after) == given_up_count(jobs)
        }),
    decreases jobs.len(),
{
    let after = Seq::new(
        jobs.len(),
        |i: int|
            if jobs[i].state == JobState::Uploading {
                CloudJob { state: JobState::Queued, ..jobs[i] }
            } else {
                jobs[i]
            },
    );
    if jobs.len() > 0 {
        let head = jobs.drop_last();
        lemma_reclaim(head);
        assert(after.drop_last() =~= Seq::new(
            head.len(),
            |i: int|
                if head[i].state == JobState::Uploading {
                    CloudJob { state: JobState::Queued, ..head[i] }
                } else {
                    head[i]
                },
        ));
    }
}

/// Reclaiming leaves no job claimed, and changes neither how many are pending
/// nor how many were given up on.
pub proof fn reclaim_frees_claimed_jobs(l: LedgerModel)
    ensures
        uploading_count(l.uploading_reclaimed().jobs) == 0,
        pending_count(l.uploading_reclaimed().jobs) == pending_count(l.jobs),
        given_up_count(l.uploading_reclaimed().jobs) == given_up_count(l.jobs),
{
    lemma_reclaim(l.jobs);
}

proof fn lemma_pending_witness(jobs: Seq<CloudJob<Seq<char>>>)
    requires
        pending_count(jobs) > 0,
    ensures
        exists|i: int| 0 <= i < jobs.len() && (#[trigger] jobs[i]).pending(),
    decreases jobs.len(),
{
    if jobs.last().pending() {
        assert(jobs[jobs.len() - 1].pending());
    } else {
        let head = jobs.drop_last();
        lemma_pending_witness(head);
        let i = choose|i: int| 0 <= i < head.len() && (#[trigger] head[i]).pending();
        assert(jobs[i].pending());
    }
}

/// After a reclaim no pending job is stuck: as long as there is one, at any time
/// a job is due or a retry is scheduled for later.
pub proof fn a_reclaimed_queue_never_stalls(l: LedgerModel, now: i64)
    requires
        pending_count(l.uploading_reclaimed().jobs) > 0,
    ensures
        exists|i: int|
            0 <= i < l.jobs.len() && {
                let j = #[trigger] l.uploading_reclaimed().jobs[i];
                j.due(now) || (j.state == JobState::Failed && j.next_retry_at is Some
                    && j.next_retry_at->0 > now)
            },
{
    let jobs = l.uploading_reclaimed().jobs;
    lemma_pending_witness(jobs);
    let i = choose|i: int| 0 <= i < jobs.len() && (#[trigger] jobs[i]).pending();
    assert(jobs[i].state != JobState::Uploading);
}

proof fn lemma_update_changes_pending(
    a: Seq<CloudJob<Seq<char>>>,
    b: Seq<CloudJob<Seq<char>>>,
    k: int,
)
    requires
        a.len() == b.len(),
        0 <= k < a.len(),
        forall|i: int| 0 <= i < a.len() && i != k ==> #[trigger] b[i] == a[i],
    ensures
        pending_count(b) - (if b[k].pending() { 1int } else { 0int }) == pending_count(a) - (
        if a[k].pending() { 1int } else { 0int }),
        given_up_count(b) - (if b[k].given_up() { 1int } else { 0int }) == given_up_count(a) - (
        if a[k].given_up() { 1int } else { 0int }),
    decreases a.len(),
{
    let ha = a.drop_last();
    let hb = b.drop_last();
    if k == a.len() - 1 {
        assert(ha =~= hb);
    } else {
        assert forall|i: int| 0 <= i < ha.len() && i != k implies #[trigger] hb[i] == ha[i] by {
            assert(b[i] == a[i]);
        }
        lemma_update_changes_pending(ha, hb, k);
        assert(b[a.len() - 1] == a[a.len() - 1]);
    }
}

/// A job that is finished, or given up on, is pending no more, and no other job
/// changes; one that is parked for a retry stays pending.
pub proof fn outcomes_settle_one_job(l: LedgerModel, k: int, error: Seq<char>, next: i64)
    requires
        l.well_formed(),
        0 <= k < l.jobs.len(),
        l.jobs[k].pending(),
    ensures
        pending_count(l.job_done(l.jobs[k].id).jobs) == pending_count(l.jobs) - 1,
        given_up_count(l.job_done(l.jobs[k].id).jobs) == given_up_count(l.jobs),
        pending_count(l.job_failed(l.jobs[k].id, error, None).jobs) == pending_count(l.jobs) - 1,
        given_up_count(l.job_failed(l.jobs[k].id, error, None).jobs) == given_up_count(l.jobs) + 1,
        pending_count(l.job_failed(l.jobs[k].id, error, Some(next)).jobs) == pending_count(l.jobs),
        forall|i: int|
            0 <= i < l.jobs.len() && i != k ==> #[trigger] l.job_done(l.jobs[k].id).jobs[i]
                == l.jobs[i],
{
    let id = l.jobs[k].id;
    assert forall|i: int| 0 <= i < l.jobs.len() && i != k implies #[trigger] l.jobs[i].id != id by {
        if i < k {
            assert(l.jobs[i].id < l.jobs[k].id);
        } else {
            assert(l.jobs[k].id < l.jobs[i].id);
        }
    }
    lemma_update_changes_pending(l.jobs, l.job_done(id).jobs, k);
    lemma_update_changes_pending(l.jobs, l.job_failed(id, error, None).jobs, k);
    lemma_update_changes_pending(l.jobs, l.job_failed(id, error, Some(next)).jobs, k);
}

/// A listing by state holds exactly the jobs of that state.
pub proof fn listing_is_exact(jobs: Seq<CloudJob<Seq<char>>>, state: JobState, job: CloudJob<
    Seq<char>,
>)
    ensures
        jobs_in(jobs, Some(state)).contains(job) <==> jobs.contains(job) && job.state == state,
        jobs_in(jobs, None) == jobs,
    decreases jobs.len(),
{
    if jobs.len() > 0 {
        let head = jobs.drop_last();
        listing_is_exact(head, state, job);
        let all = jobs_in(jobs, Some(state));
        let part = jobs_in(head, Some(state));
        assert(jobs_in(jobs, None) =~= jobs);
        if part.contains(job) {
            let i = choose|i: int| 0 <= i < part.len() && part[i] == job;
            assert(all[i] == job);
        }
        if jobs.contains(job) && job.state == state {
            let i = choose|i: int| 0 <= i < jobs.len() && jobs[i] == job;
            if i < head.len() {
                assert(head[i] == job);
            } else {
                assert(all[all.len() - 1] == job);
            }
        }
        if all.contains(job) {
            let i = choose|i: int| 0 <= i < all.len() && all[i] == job;
            if i < part.len() {
                assert(part[i] == job);
                let k = choose|k: int| 0 <= k < head.len() && head[k] == job;
                assert(jobs[k] == job);
            } else {
                assert(jobs[jobs.len() - 1] == job);
            }
        }
    } else {
        assert(jobs_in(jobs, None) =~= jobs);
    }
}

// ---- what each operation does -----------------------------------------------

/// The ledger knows a file if and only if it has a row with the same serial number, the
/// same name, the same size and the same time: a file that differs in any of them is
/// another file.
pub proof fn a_file_is_known_by_four_things(
    l: LedgerModel,
    serial: Seq<char>,
    name: Seq<char>,
    size: u64,
    mtime_unix: i64,
)
    ensures
        l.has(FileKey { serial, name, size, mtime_unix }) <==> exists|i: int|
            0 <= i < l.imports.len() && (#[trigger] l.imports[i]).camera_serial == serial
                && l.imports[i].name == name && l.imports[i].size == size
                && l.imports[i].mtime_unix == mtime_unix,
{
    let key = FileKey { serial, name, size, mtime_unix };
    if l.has(key) {
        let i = choose|i: int| 0 <= i < l.imports.len() && (#[trigger] l.imports[i]).key() == key;
        assert(l.imports[i].camera_serial == serial);
    }
    if exists|i: int|
        0 <= i < l.imports.len() && (#[trigger] l.imports[i]).camera_serial == serial
            && l.imports[i].name == name && l.imports[i].size == size && l.imports[i].mtime_unix
            == mtime_unix {
        let i = choose|i: int|
            0 <= i < l.imports.len() && (#[trigger] l.imports[i]).camera_serial == serial
                && l.imports[i].name == name && l.imports[i].size == size
                && l.imports[i].mtime_unix == mtime_unix;
        assert(l.imports[i].key() == key);
    }
}

/// The row of a recorded file comes last. It has a new id, above all others, says all that
/// was recorded, is stamped with the clock and has no cloud status yet. Rows of other files
/// stay, and an earlier row of the same file goes.
pub proof fn a_recorded_row_says_what_was_recorded(
    l: LedgerModel,
    key: FileKey,
    dest_path: Seq<char>,
    hash: Option<Seq<char>>,
    i: int,
)
    requires
        max_import_id(l.imports) < i64::MAX,
        0 <= i < l.imports.len(),
    ensures
        ({
            let after = l.recorded(key, dest_path, hash);
            let row = after.imports.last();
            &&& after.imports.len() > 0
            &&& row.camera_serial == key.serial && row.name == key.name && row.size == key.size
            &&& row.mtime_unix == key.mtime_unix && row.dest_path == dest_path && row.hash == hash
            &&& row.copied_at == l.clock && row.cloud_status is None
            &&& row.id > l.imports[i].id && row.id > 0
            &&& after.clock == l.clock
            &&& l.imports[i].key() != key ==> after.imports.contains(l.imports[i])
            &&& l.imports[i].key() == key ==> !after.imports.contains(l.imports[i])
        }),
{
    let after = l.recorded(key, dest_path, hash);
    let kept = rows_but(l.imports, key);
    lemma_max_import_id(l.imports);
    lemma_rows_but(l.imports, key, key);
    lemma_rows_but_keeps(l.imports, key, i);
    if l.imports[i].key() != key {
        let k = choose|k: int| 0 <= k < kept.len() && kept[k] == l.imports[i];
        assert(after.imports[k] == kept[k]);
    } else if after.imports.contains(l.imports[i]) {
        let k = choose|k: int| 0 <= k < after.imports.len() && after.imports[k] == l.imports[i];
        if k < kept.len() {
            assert(after.imports[k] == kept[k]);
        }
    }
}

proof fn lemma_rows_but_keeps(imports: Seq<ImportRow<Seq<char>>>, key: FileKey, i: int)
    requires
        0 <= i < imports.len(),
    ensures
        imports[i].key() != key ==> rows_but(imports, key).contains(imports[i]),
    decreases imports.len(),
{
    let head = imports.drop_last();
    let kept = rows_but(imports, key);
    let before = rows_but(head, key);
    if imports[i].key() != key {
        if i < head.len() {
            lemma_rows_but_keeps(head, key, i);
            let k = choose|k: int| 0 <= k < before.len() && before[k] == head[i];
            assert(kept[k] == imports[i]);
        } else {
            assert(kept[kept.len() - 1] == imports[i]);
        }
    }
}

/// A queued job comes last, with a new id above all others. It waits for its first attempt,
/// with nothing uploaded, and says all that it was queued with. No other job changes, and no
/// row.
pub proof fn a_queued_job_says_what_was_queued(
    l: LedgerModel,
    imported_id: i64,
    destination_id: Seq<char>,
    local_path: Seq<char>,
    remote_path: Seq<char>,
    size: u64,
    card_src: Option<Seq<char>>,
)
    requires
        max_job_id(l.jobs) < i64::MAX,
    ensures
        ({
            let after = l.enqueued(
                imported_id,
                destination_id,
                local_path,
                remote_path,
                size,
                card_src,
            );
            let job = after.jobs.last();
            &&& after.jobs.len() == l.jobs.len() + 1
            &&& after.jobs.drop_last() == l.jobs
            &&& after.imports == l.imports && after.clock == l.clock
            &&& forall|i: int| 0 <= i < l.jobs.len() ==> (#[trigger] l.jobs[i]).id < job.id
            &&& job.imported_id == imported_id && job.destination_id == destination_id
            &&& job.local_path == local_path && job.remote_path == remote_path
            &&& job.total_bytes == size && job.uploaded_bytes == 0
            &&& job.state == JobState::Queued && job.attempts == 0
            &&& job.next_retry_at is None && job.last_error is None
            &&& job.card_src == card_src && job.resume_state is None
        }),
{
    lemma_max_job_id(l.jobs);
    let after = l.enqueued(imported_id, destination_id, local_path, remote_path, size, card_src);
    assert(after.jobs.drop_last() =~= l.jobs);
}

/// A job is still to be uploaded while it is queued, claimed, or parked with a retry time. It
/// is given up on if it is parked without one. It can be claimed if it is queued, or if its
/// retry time has come.
pub proof fn what_the_states_mean(job: CloudJob<Seq<char>>, now: i64)
    ensures
        job.pending() <==> job.state == JobState::Queued || job.state == JobState::Uploading || (
        job.state == JobState::Failed && job.next_retry_at is Some),
        job.given_up() <==> job.state == JobState::Failed && job.next_retry_at is None,
        job.due(now) <==> job.state == JobState::Queued || (job.state == JobState::Failed
            && job.next_retry_at is Some && job.next_retry_at->0 <= now),
        !(job.pending() && job.given_up()),
        job.state != JobState::Done <==> job.pending() || job.given_up(),
{
}

/// What each operation does to the jobs and the rows that it is about, and that it leaves all
/// others alone.
pub proof fn updates_do_what_they_say(
    l: LedgerModel,
    id: i64,
    error: Seq<char>,
    next: Option<i64>,
    uploaded: u64,
    resume: crate::cloud::ResumeState<Seq<char>>,
    i: int,
)
    requires
        0 <= i < l.jobs.len(),
    ensures
        ({
            let job = l.jobs[i];
            let done = l.job_done(id).jobs[i];
            let failed = l.job_failed(id, error, next).jobs[i];
            let moved = l.job_progressed(id, uploaded, resume).jobs[i];
            &&& job.id != id ==> done == job && failed == job && moved == job
            &&& job.id == id ==> done == (CloudJob {
                state: JobState::Done,
                next_retry_at: None,
                last_error: None,
                ..job
            })
            &&& job.id == id && job.attempts < u32::MAX ==> failed == (CloudJob {
                state: JobState::Failed,
                attempts: (job.attempts + 1) as u32,
                last_error: Some(error),
                next_retry_at: next,
                ..job
            })
            &&& job.id == id ==> moved == (CloudJob {
                uploaded_bytes: uploaded,
                resume_state: Some(resume),
                ..job
            })
            &&& l.job_done(id).jobs.len() == l.jobs.len()
            &&& l.job_failed(id, error, next).jobs.len() == l.jobs.len()
            &&& l.job_progressed(id, uploaded, resume).jobs.len() == l.jobs.len()
            &&& l.job_done(id).imports == l.imports
            &&& l.job_failed(id, error, next).imports == l.imports
            &&& l.job_progressed(id, uploaded, resume).imports == l.imports
        }),
{
}

/// Requeueing puts each job that was given up on back into the queue with a clean record, and
/// reclaiming each job that is claimed as it is; all others stay as they are.
pub proof fn requeueing_and_reclaiming_say_which(l: LedgerModel, i: int)
    requires
        0 <= i < l.jobs.len(),
    ensures
        ({
            let job = l.jobs[i];
            let requeued = l.given_up_requeued().jobs[i];
            let reclaimed = l.uploading_reclaimed().jobs[i];
            &&& job.state == JobState::Failed && job.next_retry_at is None ==> requeued == (
            CloudJob {
                state: JobState::Queued,
                attempts: 0,
                next_retry_at: None,
                last_error: None,
                ..job
            })
            &&& job.state != JobState::Failed || job.next_retry_at is Some ==> requeued == job
            &&& job.state == JobState::Uploading ==> reclaimed == (CloudJob {
                state: JobState::Queued,
                ..job
            })
            &&& job.state != JobState::Uploading ==> reclaimed == job
            &&& l.given_up_requeued().jobs.len() == l.jobs.len()
            &&& l.uploading_reclaimed().jobs.len() == l.jobs.len()
            &&& l.given_up_requeued().imports == l.imports
            &&& l.uploading_reclaimed().imports == l.imports
        }),
{
}

/// Setting a cloud status changes it for the row of that id and for no other, and changes
/// nothing else.
pub proof fn a_status_is_set_on_one_row(l: LedgerModel, id: i64, status: Seq<char>, i: int)
    requires
        0 <= i < l.imports.len(),
    ensures
        ({
            let after = l.status_set(id, status);
            &&& after.imports.len() == l.imports.len()
            &&& after.jobs == l.jobs && after.clock == l.clock
            &&& l.imports[i].id != id ==> after.imports[i] == l.imports[i]
            &&& l.imports[i].id == id ==> after.imports[i] == (ImportRow {
                cloud_status: Some(status),
                ..l.imports[i]
            })
        }),
{
}

/// The newest rows come in the reverse of the order in which they were recorded: as many as
/// were asked for, or all.
pub proof fn the_newest_rows_come_first(l: LedgerModel, limit: nat, i: int)
    requires
        0 <= i < l.newest(limit).len(),
    ensures
        l.newest(limit)[i] == l.imports[l.imports.len() - 1 - i],
        l.newest(limit).len() <= limit,
        l.newest(limit).len() <= l.imports.len(),
        l.newest(limit).len() == limit || l.newest(limit).len() == l.imports.len(),
{
}

proof fn lemma_claims_all(jobs: Seq<CloudJob<Seq<char>>>, now: i64, limit: nat, i: int)
    requires
        0 <= i < jobs.len(),
        jobs[i].due(now),
        claims(jobs, now, limit).len() < limit,
    ensures
        after_claims(jobs, now, limit)[i] == jobs[i].claimed(),
    decreases jobs.len(),
{
    let head = jobs.drop_last();
    lemma_claims(head, now, limit);
    if i < head.len() {
        lemma_claims_all(head, now, limit, i);
        assert(after_claims(jobs, now, limit)[i] == after_claims(head, now, limit)[i]);
    }
}

/// Older jobs are claimed before newer ones: where a job is claimed, every older one that is
/// due is claimed too. A claimed job is with the worker and has no retry time; nothing else
/// of it changes.
pub proof fn older_jobs_are_claimed_first(
    jobs: Seq<CloudJob<Seq<char>>>,
    now: i64,
    limit: nat,
    i: int,
    j: int,
)
    requires
        0 <= i < j < jobs.len(),
        jobs[i].state == JobState::Queued || (jobs[i].state == JobState::Failed
            && jobs[i].next_retry_at is Some && jobs[i].next_retry_at->0 <= now),
        after_claims(jobs, now, limit)[j] != jobs[j],
    ensures
        after_claims(jobs, now, limit)[i] == (CloudJob {
            state: JobState::Uploading,
            next_retry_at: None,
            ..jobs[i]
        }),
        after_claims(jobs, now, limit)[j] == (CloudJob {
            state: JobState::Uploading,
            next_retry_at: None,
            ..jobs[j]
        }),
    decreases jobs.len(),
{
    let head = jobs.drop_last();
    lemma_claims(head, now, limit);
    lemma_claims(jobs, now, limit);
    assert(after_claims(jobs, now, limit)[i] == after_claims(head, now, limit)[i]);
    if j < head.len() {
        assert(after_claims(jobs, now, limit)[j] == after_claims(head, now, limit)[j]);
        older_jobs_are_claimed_first(head, now, limit, i, j);
    } else {
        lemma_claims_all(head, now, limit, i);
    }
}

/// The jobs that a claim hands out come in the order of the queue.
pub proof fn claimed_jobs_come_in_order(
    jobs: Seq<CloudJob<Seq<char>>>,
    now: i64,
    limit: nat,
    a: int,
    b: int,
)
    requires
        forall|i: int, j: int|
            0 <= i < j < jobs.len() ==> (#[trigger] jobs[i]).id < (#[trigger] jobs[j]).id,
        0 <= a < b < claims(jobs, now, limit).len(),
    ensures
        claims(jobs, now, limit)[a].id < claims(jobs, now, limit)[b].id,
        exists|i: int|
            0 <= i < jobs.len() && (#[trigger] jobs[i]).id == claims(jobs, now, limit)[b].id,
    decreases jobs.len(),
{
    let head = jobs.drop_last();
    let got = claims(jobs, now, limit);
    let before = claims(head, now, limit);
    assert forall|i: int, j: int| 0 <= i < j < head.len() implies (#[trigger] head[i]).id < (
    #[trigger] head[j]).id by {
        assert(head[i] == jobs[i] && head[j] == jobs[j]);
    }
    if b < before.len() {
        claimed_jobs_come_in_order(head, now, limit, a, b);
        assert(got[a] == before[a] && got[b] == before[b]);
        let i = choose|i: int| 0 <= i < head.len() && (#[trigger] head[i]).id == before[b].id;
        assert(jobs[i] == head[i]);
    } else {
        assert(got[b] == jobs.last().claimed());
        assert(got[a] == before[a]);
        lemma_claimed_from(head, now, limit, a);
        let i = choose|i: int| 0 <= i < head.len() && (#[trigger] head[i]).id == before[a].id;
        assert(jobs[i] == head[i]);
        assert(jobs[jobs.len() - 1].id == got[b].id);
    }
}

proof fn lemma_claimed_from(jobs: Seq<CloudJob<Seq<char>>>, now: i64, limit: nat, a: int)
    requires
        0 <= a < claims(jobs, now, limit).len(),
    ensures
        exists|i: int|
            0 <= i < jobs.len() && (#[trigger] jobs[i]).id == claims(jobs, now, limit)[a].id,
    decreases jobs.len(),
{
    let head = jobs.drop_last();
    let got = claims(jobs, now, limit);
    let before = claims(head, now, limit);
    if a < before.len() {
        lemma_claimed_from(head, now, limit, a);
        let i = choose|i: int| 0 <= i < head.len() && (#[trigger] head[i]).id == before[a].id;
        assert(jobs[i] == head[i]);
    } else {
        assert(jobs[jobs.len() - 1].id == got[a].id);
    }
}

/// Counting is exact: two queues one behind the other have as many pending jobs, jobs given up
/// on and claimed jobs as both have, and a queue of one job has one if it is such a job.
pub proof fn counts_add_up(
    a: Seq<CloudJob<Seq<char>>>,
    b: Seq<CloudJob<Seq<char>>>,
    job: CloudJob<Seq<char>>,
)
    ensures
        pending_count(a + b) == pending_count(a) + pending_count(b),
        given_up_count(a + b) == given_up_count(a) + given_up_count(b),
        uploading_count(a + b) == uploading_count(a) + uploading_count(b),
        pending_count(seq![job]) == (if job.state == JobState::Queued || job.state
            == JobState::Uploading || (job.state == JobState::Failed && job.next_retry_at is Some) {
            1nat
        } else {
            0nat
        }),
        given_up_count(seq![job]) == (if job.state == JobState::Failed && job.next_retry_at is None {
            1nat
        } else {
            0nat
        }),
        uploading_count(seq![job]) == (if job.state == JobState::Uploading {
            1nat
        } else {
            0nat
        }),
    decreases b.len(),
{
    let one = seq![job];
    assert(one.drop_last() =~= seq![]);
    assert(pending_count(one.drop_last()) == 0);
    assert(given_up_count(one.drop_last()) == 0);
    assert(uploading_count(one.drop_last()) == 0);
    if b.len() == 0 {
        assert(a + b =~= a);
    } else {
        assert((a + b).drop_last() =~= a + b.drop_last());
        counts_add_up(a, b.drop_last(), job);
    }
}

} // verus!
