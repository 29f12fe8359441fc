//! Which missing segments are recovered.
use crate::download::segments::MediaValidation;
use crate::missing_segment::UploadMissingSegment;
use crate::order::{
    law_no_key_is_lost, law_ordering_only_reorders, law_smaller_keys_come_first, sorted_keys,
};
use crate::recovery_eligibility::{
    accepted_count, eligibility, eligibility_code, has_session, has_twin, is_broadcast_session,
    is_finalized_session, is_last_finalized, keys_behind, may_lose_source, page_of, twin_at,
    uid_step, AuditRow, RecoveryEligibility, UidStep,
};
use crate::recovery_scheduler::{
    due_key, due_keys, group_of, is_due, keyed_row, keyed_rows, law_no_row_is_lost,
    skip_reason, skipped_rows, started_rows, ClaimResult, DueRow,
};
use crate::segment_enrollment::SessionRow;
use crate::text::opt_view;
use crate::time::Timestamp;
use vstd::prelude::*;

verus! {

proof fn lemma_statuses()
    ensures
        "succeeded"@ != "pending"@,
        "succeeded"@ != "failed"@,
        "succeeded"@ != "uploading"@,
        "uploading"@ != "pending"@,
        "uploading"@ != "failed"@,
        "pending"@ != "failed"@,
{
    reveal_strlit("succeeded");
    reveal_strlit("pending");
    reveal_strlit("failed");
    reveal_strlit("uploading");
    assert("succeeded"@[0] == 's');
    assert("uploading"@[0] == 'u');
    assert("pending"@[0] == 'p');
    assert("failed"@[0] == 'f');
}

/// A file is uploaded once: where any other row of the room, of the present lifecycle and with
/// the same normalized path has succeeded, be its id smaller or larger, the row is not recovered;
/// and where nothing else stands against it, that is called a conflict.
pub proof fn law_a_file_is_uploaded_once(
    row: UploadMissingSegment,
    sessions: Seq<SessionRow>,
    rows: Seq<UploadMissingSegment>,
    source_is_file: bool,
    validation: Option<&MediaValidation>,
    now: Timestamp,
    i: int,
)
    requires
        0 <= i < rows.len(),
        rows[i].id != row.id,
        rows[i].live_streamer_id == row.live_streamer_id,
        rows[i].lifecycle_version == 2,
        rows[i].status@ == "succeeded"@,
        row.normalized_file_path is Some,
        rows[i].normalized_file_path is Some,
        rows[i].normalized_file_path->0@ == row.normalized_file_path->0@,
    ensures
        ({
            let answer = eligibility(row, sessions, rows, source_is_file, validation, now);
            &&& answer != RecoveryEligibility::Eligible
            &&& answer != RecoveryEligibility::SourceMissing
            &&& answer != RecoveryEligibility::InvalidMedia
            &&& answer != RecoveryEligibility::AlreadyRunning
            &&& row.status@ != "succeeded"@ && sessions.len() == 0 ==> answer
                == RecoveryEligibility::Conflict
        }),
{
    assert(opt_view(rows[i].normalized_file_path) == opt_view(row.normalized_file_path));
    assert(twin_at(row, rows, i));
    assert(has_twin(row, rows));
    if sessions.len() == 0 {
        assert(forall|k: int, id: i64| !is_finalized_session(sessions, id, k));
        assert(!has_session(sessions, row.live_streamer_id, row.streamer_info_id, true));
    }
}

/// A segment that is waiting or has failed, whose time has come and whose file is there and was
/// found valid where anyone looked, is recovered, unless its session is closed or the same file
/// was uploaded already; and nothing else is.
pub proof fn law_a_waiting_segment_is_recovered(
    row: UploadMissingSegment,
    sessions: Seq<SessionRow>,
    rows: Seq<UploadMissingSegment>,
    source_is_file: bool,
    validation: Option<&MediaValidation>,
    now: Timestamp,
)
    ensures
        eligibility(row, sessions, rows, source_is_file, validation, now)
            == RecoveryEligibility::Eligible <==> {
            &&& row.status@ == "pending"@ || row.status@ == "failed"@
            &&& row.next_retry_at@ <= now@
            &&& source_is_file
            &&& validation is None || validation == Some(&MediaValidation::Valid)
            &&& match row.upload_session_id {
                Some(id) => forall|k: int|
                    0 <= k < sessions.len() && (#[trigger] sessions[k]).id == id
                        ==> !sessions[k].finalized,
                None => (exists|k: int|
                    0 <= k < sessions.len() && (#[trigger] sessions[k]).live_streamer_id
                        == row.live_streamer_id && sessions[k].streamer_info_id
                        == row.streamer_info_id && !sessions[k].finalized) || (forall|k: int|
                    0 <= k < sessions.len() && (#[trigger] sessions[k]).live_streamer_id
                        == row.live_streamer_id && sessions[k].streamer_info_id
                        == row.streamer_info_id ==> !sessions[k].finalized),
            }
            &&& forall|i: int|
                0 <= i < rows.len() && row.normalized_file_path is Some && (
                #[trigger] rows[i]).normalized_file_path is Some
                    && rows[i].normalized_file_path->0@ == row.normalized_file_path->0@
                    && rows[i].live_streamer_id == row.live_streamer_id && rows[i].lifecycle_version
                    == 2 && rows[i].id != row.id ==> rows[i].status@ != "succeeded"@
        },
{
    lemma_statuses();
    lemma_sessions(row, sessions);
    if has_twin(row, rows) {
        let i = choose|i: int| twin_at(row, rows, i);
        assert(opt_view(rows[i].normalized_file_path) == opt_view(row.normalized_file_path));
    } else {
        assert forall|i: int|
            0 <= i < rows.len() && row.normalized_file_path is Some && (
            #[trigger] rows[i]).normalized_file_path is Some && rows[i].normalized_file_path->0@
                == row.normalized_file_path->0@ && rows[i].live_streamer_id == row.live_streamer_id
                && rows[i].lifecycle_version == 2 && rows[i].id != row.id implies rows[i].status@
            != "succeeded"@ by {
            assert(!twin_at(row, rows, i));
        }
    }
}

proof fn lemma_sessions(row: UploadMissingSegment, sessions: Seq<SessionRow>)
    ensures
        forall|id: i64|
            (exists|i: int| is_finalized_session(sessions, id, i)) <==> !(#[trigger] all_open(
                sessions,
                id,
            )),
        has_session(sessions, row.live_streamer_id, row.streamer_info_id, false) <==> (exists|
            k: int,
        |
            0 <= k < sessions.len() && (#[trigger] sessions[k]).live_streamer_id
                == row.live_streamer_id && sessions[k].streamer_info_id == row.streamer_info_id
                && !sessions[k].finalized),
        has_session(sessions, row.live_streamer_id, row.streamer_info_id, true) <==> !(forall|
            k: int,
        |
            0 <= k < sessions.len() && (#[trigger] sessions[k]).live_streamer_id
                == row.live_streamer_id && sessions[k].streamer_info_id == row.streamer_info_id
                ==> !sessions[k].finalized),
        row.upload_session_id matches Some(id) ==> all_open(sessions, id) == (forall|k: int|
            0 <= k < sessions.len() && (#[trigger] sessions[k]).id == id
            ==> !sessions[k].finalized),
{
    let room = row.live_streamer_id;
    let info = row.streamer_info_id;
    assert forall|id: i64|
        (exists|i: int| is_finalized_session(sessions, id, i)) <==> !(#[trigger] all_open(
            sessions,
            id,
        )) by {
        if !all_open(sessions, id) {
            let k = choose|k: int|
                0 <= k < sessions.len() && (#[trigger] sessions[k]).id == id
                    && sessions[k].finalized;
            assert(is_finalized_session(sessions, id, k));
        }
    }
    if exists|k: int|
        0 <= k < sessions.len() && (#[trigger] sessions[k]).live_streamer_id == room
            && sessions[k].streamer_info_id == info && !sessions[k].finalized {
        let k = choose|k: int|
            0 <= k < sessions.len() && (#[trigger] sessions[k]).live_streamer_id == room
                && sessions[k].streamer_info_id == info && !sessions[k].finalized;
        assert(is_broadcast_session(sessions, room, info, false, k));
    }
    if exists|k: int|
        0 <= k < sessions.len() && (#[trigger] sessions[k]).live_streamer_id == room
            && sessions[k].streamer_info_id == info && sessions[k].finalized {
        let k = choose|k: int|
            0 <= k < sessions.len() && (#[trigger] sessions[k]).live_streamer_id == room
                && sessions[k].streamer_info_id == info && sessions[k].finalized;
        assert(is_broadcast_session(sessions, room, info, true, k));
    }
}

/// Whether no session `id` is finalized.
spec fn all_open(sessions: Seq<SessionRow>, id: i64) -> bool {
    forall|k: int|
        0 <= k < sessions.len() && (#[trigger] sessions[k]).id == id ==> !sessions[k].finalized
}

/// A refusal names its reason: what has succeeded is told so first; a closed session rejects its
/// segments, those of the earlier lifecycle in a way of their own; then the missing file, the
/// unfit file and the running upload are named as such.
pub proof fn law_a_refusal_names_its_reason(
    row: UploadMissingSegment,
    sessions: Seq<SessionRow>,
    rows: Seq<UploadMissingSegment>,
    source_is_file: bool,
    validation: Option<&MediaValidation>,
    now: Timestamp,
    k: int,
)
    ensures
        ({
            let answer = eligibility(row, sessions, rows, source_is_file, validation, now);
            let closed = 0 <= k < sessions.len() && sessions[k].finalized && row.upload_session_id
                == Some(sessions[k].id);
            let unbound = row.upload_session_id is None && 0 <= k < sessions.len()
                && sessions[k].live_streamer_id == row.live_streamer_id
                && sessions[k].streamer_info_id == row.streamer_info_id && sessions[k].finalized
                && (forall|j: int|
                0 <= j < sessions.len() && (#[trigger] sessions[j]).live_streamer_id
                    == row.live_streamer_id && sessions[j].streamer_info_id == row.streamer_info_id
                    ==> sessions[j].finalized);
            &&& row.status@ == "succeeded"@ <==> answer == RecoveryEligibility::AlreadySucceeded
            &&& row.status@ != "succeeded"@ && closed && row.lifecycle_version < 2 ==> answer
                == RecoveryEligibility::LegacyFinalizedEdit
            &&& row.status@ != "succeeded"@ && closed && row.lifecycle_version >= 2 ==> answer
                == RecoveryEligibility::FinalizedRejected
            &&& row.status@ != "succeeded"@ && unbound ==> answer
                == RecoveryEligibility::FinalizedRejected
            &&& sessions.len() == 0 && rows.len() == 0 && row.status@ != "succeeded"@
                && !source_is_file ==> answer == RecoveryEligibility::SourceMissing
            &&& sessions.len() == 0 && rows.len() == 0 && row.status@ != "succeeded"@
                && source_is_file && validation is Some && !(*validation->0 is Valid) ==> answer
                == RecoveryEligibility::InvalidMedia
            &&& sessions.len() == 0 && rows.len() == 0 && source_is_file && validation is None
                && row.status@ == "uploading"@ && row.attempt_token is Some ==> answer
                == RecoveryEligibility::AlreadyRunning
            &&& answer == RecoveryEligibility::AlreadyRunning ==> row.status@ == "uploading"@
                && row.attempt_token is Some
            &&& answer == RecoveryEligibility::SourceMissing ==> !source_is_file
            &&& answer == RecoveryEligibility::InvalidMedia ==> source_is_file && validation is Some
                && !(*validation->0 is Valid)
        }),
{
    lemma_statuses();
    lemma_sessions(row, sessions);
    if 0 <= k < sessions.len() && sessions[k].finalized {
        assert(is_finalized_session(sessions, sessions[k].id, k));
        assert(is_broadcast_session(
            sessions,
            sessions[k].live_streamer_id,
            sessions[k].streamer_info_id,
            true,
            k,
        ));
    }
    if rows.len() == 0 {
        assert(!has_twin(row, rows));
    }
    if sessions.len() == 0 {
        assert(forall|j: int, id: i64| !is_finalized_session(sessions, id, j));
        assert(!has_session(sessions, row.live_streamer_id, row.streamer_info_id, true));
    }
}

/// The rows that a run works on.
pub open spec fn taken(
    rows: Seq<UploadMissingSegment>,
    sessions: Seq<SessionRow>,
    session_id: Option<i64>,
    now: Timestamp,
) -> Seq<DueRow> {
    keyed_rows(sorted_keys(due_keys(rows, sessions, session_id, now)))
}

proof fn lemma_due_keys(
    rows: Seq<UploadMissingSegment>,
    sessions: Seq<SessionRow>,
    session_id: Option<i64>,
    now: Timestamp,
)
    ensures
        forall|i: int|
            0 <= i < rows.len() && is_due(#[trigger] rows[i], sessions, session_id, now)
                ==> due_keys(rows, sessions, session_id, now).contains(due_key(rows[i])),
        forall|k: int|
            0 <= k < due_keys(rows, sessions, session_id, now).len() ==> exists|i: int|
                0 <= i < rows.len() && is_due(#[trigger] rows[i], sessions, session_id, now)
                    && due_key(rows[i]) == #[trigger] due_keys(rows, sessions, session_id, now)[k],
    decreases rows.len(),
{
    if rows.len() > 0 {
        let front = rows.drop_last();
        let rest = due_keys(front, sessions, session_id, now);
        let all = due_keys(rows, sessions, session_id, now);
        lemma_due_keys(front, sessions, session_id, now);
        assert forall|i: int|
            0 <= i < rows.len() && is_due(
                #[trigger] rows[i],
                sessions,
                session_id,
                now,
            ) implies all.contains(due_key(rows[i])) by {
            if i < front.len() {
                assert(front[i] == rows[i]);
                let k = choose|k: int| 0 <= k < rest.len() && rest[k] == due_key(front[i]);
                assert(all[k] == rest[k]);
            } else {
                assert(all[all.len() - 1] == due_key(rows[i]));
            }
        }
        assert forall|k: int| 0 <= k < all.len() implies exists|i: int|
            0 <= i < rows.len() && is_due(#[trigger] rows[i], sessions, session_id, now) && due_key(
                rows[i],
            ) == #[trigger] all[k] by {
            if k < rest.len() {
                assert(all[k] == rest[k]);
                let i = choose|i: int|
                    0 <= i < front.len() && is_due(
                        #[trigger] front[i],
                        sessions,
                        session_id,
                        now,
                    ) && due_key(front[i]) == rest[k];
                assert(rows[i] == front[i]);
            } else {
                assert(is_due(rows[rows.len() - 1], sessions, session_id, now));
            }
        }
    }
}

/// A row that is waiting or has failed, whose time has come and whose session is not closed is
/// taken by a run over all sessions and by one over its own, whatever else it holds: it is listed
/// with its id, its session and its place.
pub proof fn law_a_due_row_is_taken(
    rows: Seq<UploadMissingSegment>,
    sessions: Seq<SessionRow>,
    session_id: Option<i64>,
    now: Timestamp,
    i: int,
)
    requires
        0 <= i < rows.len(),
        rows[i].status@ == "pending"@ || rows[i].status@ == "failed"@,
        rows[i].next_retry_at@ <= now@,
        forall|k: int|
            0 <= k < sessions.len() && rows[i].upload_session_id == Some(
                (#[trigger] sessions[k]).id,
            ) ==> !sessions[k].finalized,
        session_id is None || session_id == rows[i].upload_session_id,
    ensures
        taken(rows, sessions, session_id, now).contains(
            DueRow {
                id: rows[i].id,
                upload_session_id: rows[i].upload_session_id,
                segment_order: rows[i].segment_order,
            },
        ),
{
    let keys = due_keys(rows, sessions, session_id, now);
    let sorted = sorted_keys(keys);
    lemma_due_keys(rows, sessions, session_id, now);
    assert(is_due(rows[i], sessions, session_id, now));
    law_no_key_is_lost(keys, due_key(rows[i]));
    let k = choose|k: int| 0 <= k < sorted.len() && sorted[k] == due_key(rows[i]);
    assert(taken(rows, sessions, session_id, now)[k] == keyed_row(due_key(rows[i])));
}

/// Nothing else is taken: what a run lists is one of the rows, waiting or failed, with its time
/// come, of a session that is not closed and, in a run over one session, of that session.
pub proof fn law_only_due_rows_are_taken(
    rows: Seq<UploadMissingSegment>,
    sessions: Seq<SessionRow>,
    session_id: Option<i64>,
    now: Timestamp,
    k: int,
)
    requires
        0 <= k < taken(rows, sessions, session_id, now).len(),
    ensures
        exists|i: int|
            0 <= i < rows.len() && ((#[trigger] rows[i]).status@ == "pending"@ || rows[i].status@
                == "failed"@) && rows[i].next_retry_at@ <= now@ && (session_id is None || session_id
                == rows[i].upload_session_id) && (forall|j: int|
                0 <= j < sessions.len() && rows[i].upload_session_id == Some(
                    (#[trigger] sessions[j]).id,
                ) ==> !sessions[j].finalized) && taken(rows, sessions, session_id, now)[k] == (
            DueRow {
                id: rows[i].id,
                upload_session_id: rows[i].upload_session_id,
                segment_order: rows[i].segment_order,
            }),
{
    let keys = due_keys(rows, sessions, session_id, now);
    let sorted = sorted_keys(keys);
    lemma_due_keys(rows, sessions, session_id, now);
    law_ordering_only_reorders(keys);
    law_no_key_is_lost(keys, sorted[k]);
    let c = choose|c: int| 0 <= c < keys.len() && keys[c] == sorted[k];
    let i = choose|i: int|
        0 <= i < rows.len() && is_due(#[trigger] rows[i], sessions, session_id, now) && due_key(
            rows[i],
        ) == keys[c];
    assert(taken(rows, sessions, session_id, now)[k] == keyed_row(due_key(rows[i])));
    assert forall|j: int|
        0 <= j < sessions.len() && rows[i].upload_session_id == Some(
            (#[trigger] sessions[j]).id,
        ) implies !sessions[j].finalized by {
        assert(is_finalized_session(sessions, sessions[j].id, j) == sessions[j].finalized);
    }
}

/// Once a row is due it stays due while nothing about it changes.
pub proof fn law_due_rows_stay_due(
    row: UploadMissingSegment,
    sessions: Seq<SessionRow>,
    session_id: Option<i64>,
    now: Timestamp,
    later: Timestamp,
)
    requires
        now@ <= later@,
        is_due(row, sessions, session_id, now),
    ensures
        is_due(row, sessions, session_id, later),
{
}

/// Rows are worked on session by session, those of no session first, and within a session in the
/// order of their places.
pub proof fn law_rows_are_taken_in_order(
    rows: Seq<UploadMissingSegment>,
    sessions: Seq<SessionRow>,
    session_id: Option<i64>,
    now: Timestamp,
    i: int,
    j: int,
)
    requires
        0 <= i < j < taken(rows, sessions, session_id, now).len(),
    ensures
        ({
            let a = taken(rows, sessions, session_id, now)[i];
            let b = taken(rows, sessions, session_id, now)[j];
            &&& b.upload_session_id is None ==> a.upload_session_id is None
            &&& a.upload_session_id is Some && b.upload_session_id is Some
                ==> a.upload_session_id->0 <= b.upload_session_id->0
            &&& a.upload_session_id == b.upload_session_id ==> a.segment_order <= b.segment_order
            &&& a.upload_session_id == b.upload_session_id && a.segment_order == b.segment_order
                ==> a.id <= b.id
        }),
{
    let keys = due_keys(rows, sessions, session_id, now);
    let sorted = sorted_keys(keys);
    law_ordering_only_reorders(keys);
    law_smaller_keys_come_first(keys, i, j);
    lemma_due_keys(rows, sessions, session_id, now);
    law_no_key_is_lost(keys, sorted[i]);
    law_no_key_is_lost(keys, sorted[j]);
    let c = choose|c: int| 0 <= c < keys.len() && keys[c] == sorted[i];
    let d = choose|d: int| 0 <= d < keys.len() && keys[d] == sorted[j];
    let p = choose|p: int|
        0 <= p < rows.len() && is_due(#[trigger] rows[p], sessions, session_id, now) && due_key(
            rows[p],
        ) == keys[c];
    let q = choose|q: int|
        0 <= q < rows.len() && is_due(#[trigger] rows[q], sessions, session_id, now) && due_key(
            rows[q],
        ) == keys[d];
    assert(taken(rows, sessions, session_id, now)[i] == keyed_row(due_key(rows[p])));
    assert(taken(rows, sessions, session_id, now)[j] == keyed_row(due_key(rows[q])));
}

/// Rows of one session are worked on together and those of two sessions apart.
pub proof fn law_a_session_is_one_group(a: i64, b: i64, row: i64, other: i64)
    ensures
        group_of(Some(a), row) == group_of(Some(b), other) <==> a == b,
        group_of(Some(a), row) == a,
{
}

/// A row that was claimed is told as started; one that was rejected is told with the name of the
/// answer, and one whose claim could not be tried as such.
pub proof fn law_every_claim_is_told(ids: Seq<i64>, results: Seq<ClaimResult>, i: int)
    requires
        ids.len() == results.len(),
        0 <= i < ids.len(),
    ensures
        results[i] == ClaimResult::Claimed ==> started_rows(ids, results).contains(ids[i]),
        results[i] matches ClaimResult::Rejected(answer) ==> skipped_rows(ids, results).contains(
            (ids[i], eligibility_code(answer)),
        ),
        results[i] == ClaimResult::Failed ==> skipped_rows(ids, results).contains(
            (ids[i], "claim_failed"@),
        ),
        started_rows(ids, results).len() <= ids.len(),
{
    law_no_row_is_lost(ids, results);
    assert(skip_reason(results[i]) is None <==> results[i] == ClaimResult::Claimed);
}

/// Only what was claimed is told as started.
pub proof fn law_only_claimed_rows_are_started(ids: Seq<i64>, results: Seq<ClaimResult>, k: int)
    requires
        ids.len() == results.len(),
        0 <= k < started_rows(ids, results).len(),
    ensures
        exists|i: int|
            0 <= i < ids.len() && #[trigger] ids[i] == started_rows(ids, results)[k] && results[i]
                == ClaimResult::Claimed,
    decreases ids.len(),
{
    let front = ids.drop_last();
    let rest = started_rows(front, results.drop_last());
    if k < rest.len() {
        law_only_claimed_rows_are_started(front, results.drop_last(), k);
        let i = choose|i: int|
            0 <= i < front.len() && #[trigger] front[i] == rest[k] && results.drop_last()[i]
                == ClaimResult::Claimed;
        assert(ids[i] == front[i]);
    } else {
        assert(ids[ids.len() - 1] == started_rows(ids, results)[k]);
    }
}

/// Every answer is told under a name of its own.
pub proof fn law_answers_have_their_names()
    ensures
        eligibility_code(RecoveryEligibility::Eligible) == "eligible"@,
        eligibility_code(RecoveryEligibility::AlreadySucceeded) == "already_succeeded"@,
        eligibility_code(RecoveryEligibility::AlreadyRunning) == "already_running"@,
        eligibility_code(RecoveryEligibility::SourceMissing) == "source_missing"@,
        eligibility_code(RecoveryEligibility::FinalizedRejected) == "finalized_rejected"@,
        eligibility_code(RecoveryEligibility::LegacyFinalizedEdit) == "legacy_finalized_edit"@,
        eligibility_code(RecoveryEligibility::InvalidMedia) == "invalid_media"@,
        eligibility_code(RecoveryEligibility::Conflict) == "conflict"@,
{
}

/// A row loses its source in every state but three: uploaded, lost already and being deleted.
pub proof fn law_a_source_is_lost_once(status: Seq<char>)
    ensures
        may_lose_source(status) || status == "succeeded"@ || status == "source_missing"@ || status
            == "deleting"@,
        !may_lose_source("succeeded"@),
        !may_lose_source("source_missing"@),
        !may_lose_source("deleting"@),
{
}

/// The closed session of a broadcast is the one that was touched last, and of several touched at
/// once the one with the largest id.
pub proof fn law_the_last_closed_session_is_found(
    sessions: Seq<SessionRow>,
    room: i64,
    info: i64,
    i: int,
    k: int,
)
    requires
        is_last_finalized(sessions, room, info, i),
        0 <= k < sessions.len(),
        sessions[k].live_streamer_id == room,
        sessions[k].streamer_info_id == info,
        sessions[k].finalized,
    ensures
        0 <= i < sessions.len(),
        sessions[i].live_streamer_id == room,
        sessions[i].streamer_info_id == info,
        sessions[i].finalized,
        sessions[k].updated_at@ <= sessions[i].updated_at@,
        sessions[k].updated_at@ == sessions[i].updated_at@ ==> sessions[k].id <= sessions[i].id,
{
    assert(is_broadcast_session(sessions, room, info, true, k));
}

/// A page holds as many audits as were asked for, but at least one and at most 256, wherever that
/// many lie behind the place it begins at.
pub proof fn law_a_page_is_as_long_as_asked(rows: Seq<AuditRow>, after_id: i64, limit: int)
    ensures
        ({
            let asked = if limit < 1 {
                1
            } else if limit > 256 {
                256
            } else {
                limit
            };
            &&& page_of(rows, after_id, limit).len() <= asked
            &&& (forall|k: int| 0 <= k < rows.len() ==> (#[trigger] rows[k]).id > after_id)
                && rows.len() >= asked ==> page_of(rows, after_id, limit).len() == asked
        }),
{
    let keys = keys_behind(rows, after_id);
    law_ordering_only_reorders(keys);
    if forall|k: int| 0 <= k < rows.len() ==> (#[trigger] rows[k]).id > after_id {
        lemma_all_behind(rows, after_id);
    }
}

proof fn lemma_all_behind(rows: Seq<AuditRow>, after_id: i64)
    requires
        forall|k: int| 0 <= k < rows.len() ==> (#[trigger] rows[k]).id > after_id,
    ensures
        keys_behind(rows, after_id).len() == rows.len(),
    decreases rows.len(),
{
    if rows.len() > 0 {
        let front = rows.drop_last();
        assert forall|k: int| 0 <= k < front.len() implies (#[trigger] front[k]).id > after_id by {
            assert(front[k] == rows[k]);
        }
        lemma_all_behind(front, after_id);
        assert(rows[rows.len() - 1].id > after_id);
    }
}

/// Every answer that accepts counts one, and no other counts.
pub proof fn law_accepted_answers_are_counted(answers: Seq<bool>)
    ensures
        accepted_count(Seq::<bool>::empty()) == 0,
        accepted_count(answers.push(true)) == accepted_count(answers) + 1,
        accepted_count(answers.push(false)) == accepted_count(answers),
{
    assert(answers.push(true).drop_last() =~= answers);
    assert(answers.push(false).drop_last() =~= answers);
}

/// An audit is told under the identifier that it carries wherever that can be read, and gets one
/// otherwise.
pub proof fn law_an_identifier_is_used_where_it_is_read(stored: Seq<char>, number: u128)
    ensures
        uid_step(Some(stored), Some(number)) == UidStep::Use(number),
        uid_step(Some(stored), None) == UidStep::Assign,
        uid_step(None, None) == UidStep::Assign,
{
}

} // verus!
