//! Whether a missing segment may be recovered now, and the audit of what could not be.
use vstd::prelude::*;

use crate::identifier::{fresh_uuid, is_fresh_form, read_uuid, uuid_number};
use crate::download::segments::MediaValidation;
use crate::missing_segment::{is_retryable, UploadMissingSegment};
use crate::order::{first_keys, key_ids, key_le, law_ordering_only_reorders, ordered_ids, sorted_keys,
    SortKey};
use crate::segment_enrollment::SessionRow;
use crate::text::{opt_view, own, str_eq};
use crate::time::Timestamp;

verus! {

/// Whether a missing segment may be recovered now, or why not.
#[derive(Clone, Copy, Debug, PartialEq, Eq, Structural)]
pub enum RecoveryEligibility {
    Eligible,
    AlreadySucceeded,
    AlreadyRunning,
    SourceMissing,
    FinalizedRejected,
    LegacyFinalizedEdit,
    InvalidMedia,
    Conflict,
}

/// The name under which an answer is told.
pub open spec fn eligibility_code(answer: RecoveryEligibility) -> Seq<char> {
    match answer {
        RecoveryEligibility::Eligible => "eligible"@,
        RecoveryEligibility::AlreadySucceeded => "already_succeeded"@,
        RecoveryEligibility::AlreadyRunning => "already_running"@,
        RecoveryEligibility::SourceMissing => "source_missing"@,
        RecoveryEligibility::FinalizedRejected => "finalized_rejected"@,
        RecoveryEligibility::LegacyFinalizedEdit => "legacy_finalized_edit"@,
        RecoveryEligibility::InvalidMedia => "invalid_media"@,
        RecoveryEligibility::Conflict => "conflict"@,
    }
}

impl RecoveryEligibility {
    /// The name under which the answer is told.
    pub fn code(self) -> (name: &'static str)
        ensures
            name@ == eligibility_code(self),
    {
        match self {
            RecoveryEligibility::Eligible => "eligible",
            RecoveryEligibility::AlreadySucceeded => "already_succeeded",
            RecoveryEligibility::AlreadyRunning => "already_running",
            RecoveryEligibility::SourceMissing => "source_missing",
            RecoveryEligibility::FinalizedRejected => "finalized_rejected",
            RecoveryEligibility::LegacyFinalizedEdit => "legacy_finalized_edit",
            RecoveryEligibility::InvalidMedia => "invalid_media",
            RecoveryEligibility::Conflict => "conflict",
        }
    }
}

/// Whether session `i` is the finalized session `id`.
pub open spec fn is_finalized_session(sessions: Seq<SessionRow>, id: i64, i: int) -> bool {
    0 <= i < sessions.len() && sessions[i].id == id && sessions[i].finalized
}

/// Whether session `i` belongs to the broadcast `info` of a room and is finalized or not.
pub open spec fn is_broadcast_session(
    sessions: Seq<SessionRow>,
    room: i64,
    info: i64,
    finalized: bool,
    i: int,
) -> bool {
    0 <= i < sessions.len() && sessions[i].live_streamer_id == room && sessions[i].streamer_info_id
        == info && sessions[i].finalized == finalized
}

/// Whether a broadcast has a session that is finalized or not.
pub open spec fn has_session(
    sessions: Seq<SessionRow>,
    room: i64,
    info: i64,
    finalized: bool,
) -> bool {
    exists|i: int| is_broadcast_session(sessions, room, info, finalized, i)
}

/// Whether `other` is the same file as `row`, uploaded under another row.
pub open spec fn is_uploaded_twin(row: UploadMissingSegment, other: UploadMissingSegment) -> bool {
    &&& row.normalized_file_path is Some
    &&& other.live_streamer_id == row.live_streamer_id
    &&& opt_view(other.normalized_file_path) == opt_view(row.normalized_file_path)
    &&& other.lifecycle_version == 2
    &&& other.status@ == "succeeded"@
    &&& other.id != row.id
}

/// Whether row `i` is the same file as `row`, uploaded under another row.
pub open spec fn twin_at(row: UploadMissingSegment, rows: Seq<UploadMissingSegment>, i: int) -> bool {
    0 <= i < rows.len() && is_uploaded_twin(row, rows[i])
}

/// Whether the same file was uploaded under another row.
pub open spec fn has_twin(row: UploadMissingSegment, rows: Seq<UploadMissingSegment>) -> bool {
    exists|i: int| twin_at(row, rows, i)
}

/// What the session of a row says against its recovery.
pub open spec fn session_objection(row: UploadMissingSegment, sessions: Seq<SessionRow>) -> Option<
    RecoveryEligibility,
> {
    match row.upload_session_id {
        Some(id) => if exists|i: int| is_finalized_session(sessions, id, i) {
            Some(
                if row.lifecycle_version < 2 {
                    RecoveryEligibility::LegacyFinalizedEdit
                } else {
                    RecoveryEligibility::FinalizedRejected
                },
            )
        } else {
            None
        },
        None => if !has_session(sessions, row.live_streamer_id, row.streamer_info_id, false)
            && has_session(sessions, row.live_streamer_id, row.streamer_info_id, true) {
            Some(RecoveryEligibility::FinalizedRejected)
        } else {
            None
        },
    }
}

/// Whether a look into the file, where there was one, let it pass.
pub open spec fn media_passes(validation: Option<&MediaValidation>) -> bool {
    match validation {
        None => true,
        Some(MediaValidation::Valid) => true,
        _ => false,
    }
}

/// Whether a row may be recovered at `now`, or the first reason why not.
pub open spec fn eligibility(
    row: UploadMissingSegment,
    sessions: Seq<SessionRow>,
    rows: Seq<UploadMissingSegment>,
    source_is_file: bool,
    validation: Option<&MediaValidation>,
    now: Timestamp,
) -> RecoveryEligibility {
    if row.status@ == "succeeded"@ {
        RecoveryEligibility::AlreadySucceeded
    } else if session_objection(row, sessions) is Some {
        session_objection(row, sessions)->0
    } else if has_twin(row, rows) {
        RecoveryEligibility::Conflict
    } else if !source_is_file {
        RecoveryEligibility::SourceMissing
    } else if !media_passes(validation) {
        RecoveryEligibility::InvalidMedia
    } else if row.status@ == "uploading"@ && row.attempt_token is Some {
        RecoveryEligibility::AlreadyRunning
    } else if is_retryable(row.status@) && row.next_retry_at@ <= now@ {
        RecoveryEligibility::Eligible
    } else {
        RecoveryEligibility::Conflict
    }
}

fn find_finalized(sessions: &Vec<SessionRow>, id: i64) -> (found: bool)
    ensures
        found == exists|i: int| is_finalized_session(sessions@, id, i),
{
    let mut i: usize = 0;
    while i < sessions.len()
        invariant
            i <= sessions.len(),
            forall|k: int| 0 <= k < i ==> !is_finalized_session(sessions@, id, k),
        decreases sessions.len() - i,
    {
        if sessions[i].id == id && sessions[i].finalized {
            assert(is_finalized_session(sessions@, id, i as int));
            return true;
        }
        i = i + 1;
    }
    false
}

fn find_session(sessions: &Vec<SessionRow>, room: i64, info: i64, finalized: bool) -> (found: bool)
    ensures
        found == has_session(sessions@, room, info, finalized),
{
    let mut i: usize = 0;
    while i < sessions.len()
        invariant
            i <= sessions.len(),
            forall|k: int| 0 <= k < i ==> !is_broadcast_session(sessions@, room, info, finalized, k),
        decreases sessions.len() - i,
    {
        if sessions[i].live_streamer_id == room && sessions[i].streamer_info_id == info
            && sessions[i].finalized == finalized {
            assert(is_broadcast_session(sessions@, room, info, finalized, i as int));
            return true;
        }
        i = i + 1;
    }
    false
}

fn find_twin(row: &UploadMissingSegment, rows: &Vec<UploadMissingSegment>) -> (found: bool)
    ensures
        found == has_twin(*row, rows@),
{
    let path: &String = match &row.normalized_file_path {
        Some(path) => path,
        None => {
            return false;
        },
    };
    let mut i: usize = 0;
    while i < rows.len()
        invariant
            i <= rows.len(),
            row.normalized_file_path == Some(*path),
            forall|k: int| 0 <= k < i ==> !twin_at(*row, rows@, k),
        decreases rows.len() - i,
    {
        let other: &UploadMissingSegment = &rows[i];
        let same_path: bool = match &other.normalized_file_path {
            Some(held) => str_eq(held.as_str(), path.as_str()),
            None => false,
        };
        if same_path && other.live_streamer_id == row.live_streamer_id && other.lifecycle_version
            == 2 && str_eq(other.status.as_str(), "succeeded") && other.id != row.id {
            assert(twin_at(*row, rows@, i as int));
            return true;
        }
        i = i + 1;
    }
    false
}

/// Whether a row may be recovered now, or the first reason why not. Nothing is changed.
///
/// `media_validation` is given by whoever has just looked into the file.
pub fn check_recovery_eligibility(
    row: &UploadMissingSegment,
    sessions: &Vec<SessionRow>,
    rows: &Vec<UploadMissingSegment>,
    source_is_file: bool,
    media_validation: Option<&MediaValidation>,
    now: Timestamp,
) -> (answer: RecoveryEligibility)
    ensures
        answer == eligibility(*row, sessions@, rows@, source_is_file, media_validation, now),
{
    if str_eq(row.status.as_str(), "succeeded") {
        return RecoveryEligibility::AlreadySucceeded;
    }
    match row.upload_session_id {
        Some(id) => {
            if find_finalized(sessions, id) {
                return if row.lifecycle_version < 2 {
                    RecoveryEligibility::LegacyFinalizedEdit
                } else {
                    RecoveryEligibility::FinalizedRejected
                };
            }
        },
        None => {
            if !find_session(sessions, row.live_streamer_id, row.streamer_info_id, false)
                && find_session(sessions, row.live_streamer_id, row.streamer_info_id, true) {
                return RecoveryEligibility::FinalizedRejected;
            }
        },
    }
    if find_twin(row, rows) {
        return RecoveryEligibility::Conflict;
    }
    if !source_is_file {
        return RecoveryEligibility::SourceMissing;
    }
    let passes: bool = match media_validation {
        None => true,
        Some(MediaValidation::Valid) => true,
        _ => false,
    };
    if !passes {
        return RecoveryEligibility::InvalidMedia;
    }
    if str_eq(row.status.as_str(), "uploading") && row.attempt_token.is_some() {
        return RecoveryEligibility::AlreadyRunning;
    }
    if (str_eq(row.status.as_str(), "pending") || str_eq(row.status.as_str(), "failed"))
        && row.next_retry_at.at_or_before(&now) {
        return RecoveryEligibility::Eligible;
    }
    RecoveryEligibility::Conflict
}

/// Nothing is recovered of a session that is finalized, without its file, of a file that is
/// uploaded already, or before its time.
pub proof fn law_recovery_needs_all(
    row: UploadMissingSegment,
    sessions: Seq<SessionRow>,
    rows: Seq<UploadMissingSegment>,
    source_is_file: bool,
    validation: Option<&MediaValidation>,
    now: Timestamp,
)
    ensures
        eligibility(row, sessions, rows, source_is_file, validation, now)
            == RecoveryEligibility::Eligible <==> {
            &&& is_retryable(row.status@)
            &&& row.next_retry_at@ <= now@
            &&& session_objection(row, sessions) is None
            &&& !has_twin(row, rows)
            &&& source_is_file
            &&& media_passes(validation)
        },
{
    reveal_strlit("succeeded");
    reveal_strlit("pending");
    reveal_strlit("failed");
    reveal_strlit("uploading");
    assert("succeeded"@.len() == 9);
    assert("uploading"@.len() == 9);
    assert("pending"@.len() == 7);
    assert("failed"@.len() == 6);
}

/// Whether a status is one that a vanished source changes.
pub open spec fn may_lose_source(status: Seq<char>) -> bool {
    status != "succeeded"@ && status != "source_missing"@ && status != "deleting"@
}

/// Notes that the source of a row has vanished: it is not tried again.
pub fn mark_source_missing(
    row: &mut UploadMissingSegment,
    reason: &str,
    now: Timestamp,
) -> (changed: bool)
    ensures
        changed == may_lose_source(old(row).status@),
        changed ==> final(row).status@ == "source_missing"@ && opt_view(final(row).last_error)
            == Some(reason@),
        *final(row) == (if changed {
            UploadMissingSegment {
                status: final(row).status,
                last_error: final(row).last_error,
                next_retry_at: now,
                attempt_token: None,
                current_line: None,
                updated_at: now,
                ..*old(row)
            }
        } else {
            *old(row)
        }),
{
    let status: &str = row.status.as_str();
    if str_eq(status, "succeeded") || str_eq(status, "source_missing") || str_eq(
        status,
        "deleting",
    ) {
        return false;
    }
    row.status = own("source_missing");
    row.last_error = Some(own(reason));
    row.next_retry_at = now;
    row.attempt_token = None;
    row.current_line = None;
    row.updated_at = now;
    true
}

/// A row whose source vanished is never found eligible again.
pub proof fn law_a_vanished_source_is_final(
    row: UploadMissingSegment,
    sessions: Seq<SessionRow>,
    rows: Seq<UploadMissingSegment>,
    source_is_file: bool,
    validation: Option<&MediaValidation>,
    now: Timestamp,
)
    requires
        row.status@ == "source_missing"@,
    ensures
        eligibility(row, sessions, rows, source_is_file, validation, now)
            != RecoveryEligibility::Eligible,
{
    reveal_strlit("source_missing");
    reveal_strlit("pending");
    reveal_strlit("failed");
    assert("source_missing"@.len() == 14);
    assert("pending"@.len() == 7);
    assert("failed"@.len() == 6);
    law_recovery_needs_all(row, sessions, rows, source_is_file, validation, now);
}

/// Whether session `a` was touched after session `b`, or at the same time under a larger id.
pub open spec fn later_session(a: SessionRow, b: SessionRow) -> bool {
    a.updated_at@ > b.updated_at@ || (a.updated_at@ == b.updated_at@ && a.id > b.id)
}

/// Whether session `i` is the finalized session of a broadcast that was touched last.
pub open spec fn is_last_finalized(
    sessions: Seq<SessionRow>,
    room: i64,
    info: i64,
    i: int,
) -> bool {
    is_broadcast_session(sessions, room, info, true, i) && forall|k: int|
        is_broadcast_session(sessions, room, info, true, k) ==> !later_session(
            #[trigger] sessions[k],
            sessions[i],
        )
}

/// The finalized session of a broadcast that was touched last.
pub fn finalized_session_for_streamer_info(
    sessions: &Vec<SessionRow>,
    live_streamer_id: i64,
    streamer_info_id: i64,
) -> (found: Option<i64>)
    ensures
        match found {
            Some(id) => exists|i: int|
                is_last_finalized(sessions@, live_streamer_id, streamer_info_id, i) && id
                    == #[trigger] sessions@[i].id,
            None => !has_session(sessions@, live_streamer_id, streamer_info_id, true),
        },
{
    let mut best: Option<usize> = None;
    let mut i: usize = 0;
    while i < sessions.len()
        invariant
            i <= sessions.len(),
            match best {
                Some(at) => at < i && is_broadcast_session(
                    sessions@,
                    live_streamer_id,
                    streamer_info_id,
                    true,
                    at as int,
                ) && forall|k: int|
                    0 <= k < i && is_broadcast_session(
                        sessions@,
                        live_streamer_id,
                        streamer_info_id,
                        true,
                        k,
                    ) ==> !later_session(#[trigger] sessions@[k], sessions@[at as int]),
                None => forall|k: int|
                    0 <= k < i ==> !is_broadcast_session(
                        sessions@,
                        live_streamer_id,
                        streamer_info_id,
                        true,
                        k,
                    ),
            },
        decreases sessions.len() - i,
    {
        let row: SessionRow = sessions[i];
        if row.live_streamer_id == live_streamer_id && row.streamer_info_id == streamer_info_id
            && row.finalized {
            assert(is_broadcast_session(
                sessions@,
                live_streamer_id,
                streamer_info_id,
                true,
                i as int,
            ));
            let take: bool = match best {
                Some(at) => {
                    let held: SessionRow = sessions[at];
                    let ahead: i128 = row.updated_at.since(&held.updated_at);
                    ahead > 0 || (ahead == 0 && row.id > held.id)
                },
                None => true,
            };
            if take {
                best = Some(i);
            }
        }
        i = i + 1;
    }
    match best {
        Some(at) => {
            assert(is_last_finalized(sessions@, live_streamer_id, streamer_info_id, at as int));
            Some(sessions[at].id)
        },
        None => None,
    }
}

/// What is kept of a segment that could not be recovered.
pub struct AuditRow {
    pub id: i64,
    pub live_streamer_id: i64,
    pub streamer_info_id: i64,
    pub file_path: String,
    pub reason: String,
    pub created_at: Timestamp,
    pub event_uid: Option<String>,
}

/// A new row of the audit under the identifier `event_uid`.
pub fn audit_row(
    id: i64,
    live_streamer_id: i64,
    streamer_info_id: i64,
    file_path: &str,
    reason: &str,
    now: Timestamp,
    event_uid: String,
) -> (row: AuditRow)
    ensures
        row.id == id,
        row.live_streamer_id == live_streamer_id,
        row.streamer_info_id == streamer_info_id,
        row.file_path@ == file_path@,
        row.reason@ == reason@,
        row.created_at == now,
        row.event_uid == Some(event_uid),
{
    AuditRow {
        id,
        live_streamer_id,
        streamer_info_id,
        file_path: own(file_path),
        reason: own(reason),
        created_at: now,
        event_uid: Some(event_uid),
    }
}

/// A new row of the audit, under a fresh identifier.
pub fn record_recovery_audit(
    id: i64,
    live_streamer_id: i64,
    streamer_info_id: i64,
    file_path: &str,
    reason: &str,
    now: Timestamp,
) -> (row: AuditRow)
    ensures
        row.id == id,
        row.live_streamer_id == live_streamer_id,
        row.streamer_info_id == streamer_info_id,
        row.file_path@ == file_path@,
        row.reason@ == reason@,
        row.created_at == now,
        row.event_uid matches Some(uid) && is_fresh_form(uid@),
        told_under(row) is Use,
{
    audit_row(id, live_streamer_id, streamer_info_id, file_path, reason, now, fresh_uuid())
}

/// Under which identifier a row of the audit is told.
#[derive(Clone, Copy, Debug, PartialEq, Eq, Structural)]
pub enum UidStep {
    /// It has one.
    Use(u128),
    /// It has none that can be read: it gets one, where it has none at all.
    Assign,
}

/// Under which identifier a row is told, by what is stored.
pub open spec fn uid_step(stored: Option<Seq<char>>, number: Option<u128>) -> UidStep {
    match number {
        Some(uid) => if stored is Some {
            UidStep::Use(uid)
        } else {
            UidStep::Assign
        },
        None => UidStep::Assign,
    }
}

/// Under which identifier a row is told, by what is stored and what was read out of it.
pub fn choose_uid(stored: &Option<String>, number: Option<u128>) -> (step: UidStep)
    ensures
        step == uid_step(opt_view(*stored), number),
{
    match number {
        Some(uid) => if stored.is_some() {
            UidStep::Use(uid)
        } else {
            UidStep::Assign
        },
        None => UidStep::Assign,
    }
}

/// Under which identifier a row of the audit is told.
pub open spec fn told_under(row: AuditRow) -> UidStep {
    uid_step(
        opt_view(row.event_uid),
        match row.event_uid {
            Some(text) => uuid_number(text@),
            None => None,
        },
    )
}

/// Under which identifier a row of the audit is told.
pub fn audit_uid(row: &AuditRow) -> (step: UidStep)
    ensures
        step == told_under(*row),
{
    let number: Option<u128> = match &row.event_uid {
        Some(text) => read_uuid(text.as_str()),
        None => None,
    };
    choose_uid(&row.event_uid, number)
}

/// Whether `after` is `before` with the identifier `candidate`, where `before` has none at all, and
/// unchanged otherwise.
pub open spec fn identified(before: AuditRow, candidate: Seq<char>, after: AuditRow) -> bool {
    &&& opt_view(after.event_uid) == (if before.event_uid is None {
        Some(candidate)
    } else {
        opt_view(before.event_uid)
    })
    &&& after == (AuditRow { event_uid: after.event_uid, ..before })
}

/// Gives a row the identifier `candidate`, where it has none at all.
pub fn assign_uid(row: &mut AuditRow, candidate: &str) -> (assigned: bool)
    ensures
        assigned == (old(row).event_uid is None),
        identified(*old(row), candidate@, *final(row)),
{
    if row.event_uid.is_some() {
        return false;
    }
    row.event_uid = Some(own(candidate));
    true
}

/// Gives a row a fresh identifier, where it has none at all.
pub fn assign_fresh_uid(row: &mut AuditRow) -> (assigned: bool)
    ensures
        assigned == (old(row).event_uid is None),
        assigned ==> (final(row).event_uid matches Some(uid) && is_fresh_form(uid@) && identified(
            *old(row),
            uid@,
            *final(row),
        )),
        assigned ==> told_under(*final(row)) is Use,
        !assigned ==> *final(row) == *old(row),
{
    if row.event_uid.is_some() {
        return false;
    }
    let candidate: String = fresh_uuid();
    assign_uid(row, candidate.as_str())
}

/// A row that got an identifier is told under it ever after: what is offered later is not taken.
pub proof fn law_an_identifier_stays(
    row: AuditRow,
    first: Seq<char>,
    once: AuditRow,
    second: Seq<char>,
    twice: AuditRow,
)
    requires
        identified(row, first, once),
        identified(once, second, twice),
    ensures
        told_under(twice) == told_under(once),
        row.event_uid is None && uuid_number(first) is Some ==> told_under(once) == UidStep::Use(
            uuid_number(first)->0,
        ),
        told_under(row) is Use ==> told_under(once) == told_under(row),
{
}

/// How far a replay of the audit has come.
#[derive(Clone, Copy, Debug, PartialEq, Eq, Structural)]
pub struct AuditReplay {
    pub last_id: i64,
    pub rows: usize,
    pub accepted: usize,
}

/// How many rows a page of the audit holds, by how many were asked for.
pub open spec fn page_size(limit: int) -> int {
    if limit < 1 {
        1
    } else if limit > 256 {
        256
    } else {
        limit
    }
}

/// The keys of the rows behind `after_id`.
pub open spec fn keys_behind(rows: Seq<AuditRow>, after_id: i64) -> Seq<SortKey>
    decreases rows.len(),
{
    if rows.len() == 0 {
        Seq::<SortKey>::empty()
    } else {
        let rest = keys_behind(rows.drop_last(), after_id);
        if rows.last().id > after_id {
            rest.push(SortKey { major: 0, minor: 0, id: rows.last().id })
        } else {
            rest
        }
    }
}

/// The ids on the next page of the audit.
pub open spec fn page_of(rows: Seq<AuditRow>, after_id: i64, limit: int) -> Seq<i64> {
    key_ids(first_keys(sorted_keys(keys_behind(rows, after_id)), page_size(limit)))
}

proof fn lemma_keys_behind(rows: Seq<AuditRow>, after_id: i64)
    ensures
        forall|k: int|
            0 <= k < rows.len() && (#[trigger] rows[k]).id > after_id ==> keys_behind(
                rows,
                after_id,
            ).contains(SortKey { major: 0, minor: 0, id: rows[k].id }),
        forall|key: SortKey| #[trigger]
            keys_behind(rows, after_id).contains(key) ==> key.major == 0 && key.minor == 0 && key.id
                > after_id && exists|k: int| 0 <= k < rows.len() && (#[trigger] rows[k]).id
                == key.id,
    decreases rows.len(),
{
    if rows.len() > 0 {
        let front = rows.drop_last();
        let rest = keys_behind(front, after_id);
        let all = keys_behind(rows, after_id);
        lemma_keys_behind(front, after_id);
        assert forall|k: int| 0 <= k < rows.len() && (#[trigger] rows[k]).id > after_id implies
            all.contains(SortKey { major: 0, minor: 0, id: rows[k].id }) by {
            let key = SortKey { major: 0, minor: 0, id: rows[k].id };
            if k < front.len() {
                assert(front[k] == rows[k]);
                let at = choose|at: int| 0 <= at < rest.len() && rest[at] == key;
                assert(all[at] == key);
            } else {
                assert(all[all.len() - 1] == key);
            }
        }
        assert forall|key: SortKey| #[trigger] all.contains(key) implies key.major == 0 && key.minor
            == 0 && key.id > after_id && exists|k: int|
            0 <= k < rows.len() && (#[trigger] rows[k]).id == key.id by {
            let at = choose|at: int| 0 <= at < all.len() && all[at] == key;
            if at < rest.len() {
                assert(rest.contains(rest[at]));
                let k = choose|k: int| 0 <= k < front.len() && (#[trigger] front[k]).id == key.id;
                assert(rows[k].id == key.id);
            } else {
                assert(rows[rows.len() - 1].id == key.id);
            }
        }
    }
}

/// A page holds rows behind the last one told, the oldest first, and skips none: whatever stands
/// behind and is not on it comes no earlier than its last row, and a page that is not full leaves
/// nothing.
pub proof fn law_a_page_leaves_no_gap(rows: Seq<AuditRow>, after_id: i64, limit: int)
    ensures
        page_of(rows, after_id, limit).len() <= page_size(limit) <= 256,
        forall|i: int|
            0 <= i < page_of(rows, after_id, limit).len() ==> (#[trigger] page_of(
                rows,
                after_id,
                limit,
            )[i]) > after_id && exists|k: int|
                0 <= k < rows.len() && (#[trigger] rows[k]).id == page_of(
                    rows,
                    after_id,
                    limit,
                )[i],
        forall|i: int, j: int|
            0 <= i < j < page_of(rows, after_id, limit).len() ==> #[trigger] page_of(
                rows,
                after_id,
                limit,
            )[i] <= #[trigger] page_of(rows, after_id, limit)[j],
        forall|k: int|
            0 <= k < rows.len() && (#[trigger] rows[k]).id > after_id ==> page_of(
                rows,
                after_id,
                limit,
            ).contains(rows[k].id) || (page_of(rows, after_id, limit).len() == page_size(limit)
                && rows[k].id > page_of(rows, after_id, limit).last()),
{
    broadcast use vstd::seq_lib::group_to_multiset_ensures;

    let keys = keys_behind(rows, after_id);
    let sorted = sorted_keys(keys);
    let first = first_keys(sorted, page_size(limit));
    let page = page_of(rows, after_id, limit);
    lemma_keys_behind(rows, after_id);
    law_ordering_only_reorders(keys);
    assert forall|i: int| 0 <= i < page.len() implies (#[trigger] page[i]) > after_id && exists|
        k: int,
    |
        0 <= k < rows.len() && (#[trigger] rows[k]).id == page[i] by {
        assert(sorted.contains(sorted[i]));
        assert(sorted.to_multiset().count(sorted[i]) > 0);
        assert(keys.contains(sorted[i]));
    }
    assert forall|i: int, j: int| 0 <= i < j < page.len() implies #[trigger] page[i]
        <= #[trigger] page[j] by {
        assert(sorted.contains(sorted[i]) && sorted.contains(sorted[j]));
        assert(sorted.to_multiset().count(sorted[i]) > 0);
        assert(sorted.to_multiset().count(sorted[j]) > 0);
        assert(keys.contains(sorted[i]) && keys.contains(sorted[j]));
        assert(key_le(sorted[i], sorted[j]));
    }
    assert forall|k: int| 0 <= k < rows.len() && (#[trigger] rows[k]).id > after_id implies
        page.contains(rows[k].id) || (page.len() == page_size(limit) && rows[k].id > page.last()) by {
        let key = SortKey { major: 0, minor: 0, id: rows[k].id };
        assert(keys.to_multiset().count(key) > 0);
        assert(sorted.contains(key));
        let at = choose|at: int| 0 <= at < sorted.len() && sorted[at] == key;
        if at < page.len() {
            assert(page[at] == key.id);
        } else {
            let last = page.len() - 1;
            assert(key_le(sorted[last], sorted[at]));
            assert(sorted.contains(sorted[last]));
            assert(sorted.to_multiset().count(sorted[last]) > 0);
            assert(keys.contains(sorted[last]));
            if key.id == page[last] {
                assert(page.contains(key.id));
            }
        }
    }
}

/// The next page of the audit: the rows behind `after_id`, the oldest first.
pub fn audit_page(rows: &Vec<AuditRow>, after_id: i64, limit: usize) -> (ids: Vec<i64>)
    ensures
        ids@ == page_of(rows@, after_id, limit as int),
{
    let size: usize = if limit < 1 {
        1
    } else if limit > 256 {
        256
    } else {
        limit
    };
    let mut keys: Vec<SortKey> = Vec::new();
    let mut i: usize = 0;
    while i < rows.len()
        invariant
            i <= rows.len(),
            keys@ == keys_behind(rows@.take(i as int), after_id),
        decreases rows.len() - i,
    {
        assert(rows@.take(i + 1).drop_last() =~= rows@.take(i as int));
        if rows[i].id > after_id {
            keys.push(SortKey { major: 0, minor: 0, id: rows[i].id });
        }
        i = i + 1;
    }
    assert(rows@.take(rows@.len() as int) =~= rows@);
    ordered_ids(&keys, size)
}

/// How many of the answers are yes.
pub open spec fn accepted_count(answers: Seq<bool>) -> int
    decreases answers.len(),
{
    if answers.len() == 0 {
        0
    } else {
        accepted_count(answers.drop_last()) + (if answers.last() {
            1int
        } else {
            0
        })
    }
}

/// How far a replay has come after the page `ids`, of which each was accepted or not.
pub fn replay_recovery_audits(
    after_id: i64,
    ids: &Vec<i64>,
    accepted: &Vec<bool>,
) -> (replay: AuditReplay)
    requires
        ids.len() == accepted.len(),
    ensures
        replay.last_id == (if ids@.len() == 0 {
            after_id
        } else {
            ids@.last()
        }),
        replay.rows == ids@.len(),
        replay.accepted == accepted_count(accepted@),
{
    let mut count: usize = 0;
    let mut i: usize = 0;
    while i < accepted.len()
        invariant
            i <= accepted.len(),
            count <= i,
            count == accepted_count(accepted@.take(i as int)),
        decreases accepted.len() - i,
    {
        assert(accepted@.take(i + 1).drop_last() =~= accepted@.take(i as int));
        if accepted[i] {
            count = count + 1;
        }
        i = i + 1;
    }
    assert(accepted@.take(accepted@.len() as int) =~= accepted@);
    let last_id: i64 = if ids.len() == 0 {
        after_id
    } else {
        ids[ids.len() - 1]
    };
    AuditReplay { last_id, rows: ids.len(), accepted: count }
}

} // verus!
