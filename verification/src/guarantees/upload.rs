//! What becomes of a segment on its way to the platform: how long an attempt may take, what is
//! remembered of it, when it is tried again and where it is put.
use crate::attempt_lease::{
    after_closing, after_opening, furthest, named_phase, phase_name, reason_text, record_at,
    shown_error, verdict, work_deadline, AttemptPhase, LeaseSnapshot, RecordView, StaleReason,
};
use crate::missing_segment::{
    calls_for, due_row_keys, is_open, is_open_row, is_retryable, largest, last_place, merged_row,
    open_count, open_row, owned_under, place, place_behind, queued, retry_secs, rotated,
    snapshot_of, stale_ages, still_since, whole_secs, LeaseRow, SegmentRequest, StaleStep,
    UploadMissingSegment, Video,
};
use crate::order::{
    key_ids, law_no_key_is_lost, law_ordering_only_reorders, law_smaller_keys_come_first,
    sorted_keys, SortKey,
};
use crate::redaction::redacted_text;
use crate::time::Timestamp;
use vstd::prelude::*;

verus! {

/// An attempt of no known phase is given up five minutes after it last made progress, or after
/// it began, or after it was last touched, whichever of these is known first; and not before.
pub proof fn law_an_attempt_without_phase_has_five_minutes(lease: LeaseSnapshot, now: int)
    requires
        lease.phase is None,
    ensures
        ({
            let since = match lease.last_progress_at {
                Some(at) => at@,
                None => match lease.upload_started_at {
                    Some(at) => at@,
                    None => lease.updated_at@,
                },
            };
            verdict(lease, now) == (if now - since >= 300 * 1_000_000_000 {
                Some(StaleReason::NoNetworkProgress)
            } else {
                None
            })
        }),
{
}

/// An attempt with a phase is given up where its owner has given no sign of life for three
/// minutes; else where local work outlasts its limit, the queue two hours or a transfer five
/// minutes without progress; and not before.
pub proof fn law_each_phase_has_its_time(lease: LeaseSnapshot, phase: AttemptPhase, now: int)
    requires
        lease.phase == Some(phase),
    ensures
        ({
            let since = match lease.phase_started_at {
                Some(at) => at@,
                None => match lease.upload_started_at {
                    Some(at) => at@,
                    None => lease.updated_at@,
                },
            };
            let moved = match lease.last_progress_at {
                Some(at) => at@,
                None => since,
            };
            let silent = lease.last_heartbeat_at matches Some(beat) && now - beat@ >= 180
                * 1_000_000_000;
            &&& silent ==> verdict(lease, now) == Some(StaleReason::HeartbeatLost)
            &&& !silent && phase == AttemptPhase::Preprocessing ==> verdict(lease, now) == (if now
                - since >= work_deadline(lease.total_bytes) {
                Some(StaleReason::PreprocessTimeout)
            } else {
                None
            })
            &&& !silent && phase == AttemptPhase::Queued ==> verdict(lease, now) == (if now - since
                >= 7200 * 1_000_000_000 {
                Some(StaleReason::QueueTimeout)
            } else {
                None
            })
            &&& !silent && phase == AttemptPhase::Transferring ==> verdict(lease, now) == (if now
                - moved >= 300 * 1_000_000_000 {
                Some(StaleReason::NoNetworkProgress)
            } else {
                None
            })
        }),
{
}

/// Local work has ten minutes and ten more for every gibibyte that is begun, of which no more than
/// 64 count; a file of unknown size counts as one.
pub proof fn law_large_files_get_more_time(bytes: i64, gib: int)
    requires
        0 <= gib,
        gib * 1_073_741_824 <= bytes < (gib + 1) * 1_073_741_824,
        bytes > 0,
    ensures
        gib < 64 ==> work_deadline(Some(bytes)) == (600 + 600 * (gib + 1)) * 1_000_000_000,
        gib >= 63 ==> work_deadline(Some(bytes)) == (600 + 600 * 64) * 1_000_000_000,
        work_deadline(None) == 1200 * 1_000_000_000,
        work_deadline(Some(0)) == 1200 * 1_000_000_000,
{
    assert(bytes as int / 1_073_741_824 == gib) by {
        vstd::arithmetic::div_mod::lemma_fundamental_div_mod_converse(
            bytes as int,
            1_073_741_824,
            gib,
            bytes - gib * 1_073_741_824,
        );
    }
}

/// A larger file never has less time.
pub proof fn law_no_larger_file_has_less_time(smaller: i64, larger: i64)
    requires
        smaller <= larger,
    ensures
        work_deadline(Some(smaller)) <= work_deadline(Some(larger)),
        work_deadline(None) <= work_deadline(Some(larger)),
{
    vstd::arithmetic::div_mod::lemma_div_is_ordered(
        smaller as int,
        larger as int,
        1_073_741_824,
    );
    if larger > 0 {
        vstd::arithmetic::div_mod::lemma_div_pos_is_pos(larger as int, 1_073_741_824);
    }
}

/// The phases and the reasons are told under these names.
pub proof fn law_phases_and_reasons_have_their_names(name: Seq<char>)
    ensures
        phase_name(AttemptPhase::Preprocessing) == "preprocessing"@,
        phase_name(AttemptPhase::Queued) == "queued"@,
        phase_name(AttemptPhase::Transferring) == "transferring"@,
        named_phase(name) is Some ==> name == "preprocessing"@ || name == "queued"@ || name
            == "transferring"@,
        reason_text(StaleReason::HeartbeatLost)
            == "stale_uploading_lease: attempt owner stopped heartbeating (process gone)"@,
        reason_text(StaleReason::PreprocessTimeout)
            == "preprocess_timeout: local normalization/repair exceeded its size-derived limit"@,
        reason_text(StaleReason::QueueTimeout)
            == "queue_timeout: attempt waited for the global upload permit past its limit"@,
        reason_text(StaleReason::NoNetworkProgress)
            == "stale_uploading_lease: no acknowledged upload chunk within the transfer deadline"@,
{
}

proof fn lemma_phases()
    ensures
        named_phase("preprocessing"@) == Some(AttemptPhase::Preprocessing),
        named_phase("queued"@) == Some(AttemptPhase::Queued),
        named_phase("transferring"@) == Some(AttemptPhase::Transferring),
{
    reveal_strlit("preprocessing");
    reveal_strlit("queued");
    reveal_strlit("transferring");
    assert("preprocessing"@[0] == 'p');
    assert("queued"@[0] == 'q');
    assert("transferring"@[0] == 't');
}

/// What is remembered of an attempt is the furthest phase it reached: local work is the first,
/// the queue the second and the transfer the last, and a name that is none of these gives way.
pub proof fn law_a_phase_is_never_taken_back(held: Seq<char>)
    ensures
        furthest("preprocessing"@, AttemptPhase::Preprocessing) == "preprocessing"@,
        furthest("preprocessing"@, AttemptPhase::Queued) == "queued"@,
        furthest("preprocessing"@, AttemptPhase::Transferring) == "transferring"@,
        furthest("queued"@, AttemptPhase::Preprocessing) == "queued"@,
        furthest("queued"@, AttemptPhase::Queued) == "queued"@,
        furthest("queued"@, AttemptPhase::Transferring) == "transferring"@,
        furthest("transferring"@, AttemptPhase::Preprocessing) == "transferring"@,
        furthest("transferring"@, AttemptPhase::Queued) == "transferring"@,
        furthest("transferring"@, AttemptPhase::Transferring) == "transferring"@,
        held != "preprocessing"@ && held != "queued"@ && held != "transferring"@ ==> furthest(
            held,
            AttemptPhase::Preprocessing,
        ) == "preprocessing"@,
{
    lemma_phases();
}

/// The record of an attempt is the first that carries its token.
pub proof fn law_a_record_is_found_by_its_token(records: Seq<RecordView>, token: Seq<char>, at: int)
    requires
        0 <= at <= records.len(),
        forall|i: int| 0 <= i < at ==> (#[trigger] records[i]).attempt_token != token,
        at < records.len() ==> records[at].attempt_token == token,
    ensures
        record_at(records, token) == (if at < records.len() {
            Some(at)
        } else {
            None::<int>
        }),
    decreases records.len(),
{
    if records.len() > 0 {
        let front = records.drop_last();
        assert forall|i: int| 0 <= i < front.len() && i < at implies (
        #[trigger] front[i]).attempt_token != token by {
            assert(front[i] == records[i]);
        }
        if at < front.len() {
            assert(front[at] == records[at]);
            law_a_record_is_found_by_its_token(front, token, at);
        } else {
            law_a_record_is_found_by_its_token(front, token, front.len() as int);
            if at == records.len() {
                assert(records[records.len() - 1].attempt_token != token);
            }
        }
    }
}

/// An attempt that begins is written down last, in its first phase and with nothing of its end,
/// and of those before it as many stay as make twenty with it; one that is known already only
/// gets its new line.
pub proof fn law_an_attempt_is_written_down(
    records: Seq<RecordView>,
    id: i64,
    token: Seq<char>,
    line_key: Seq<char>,
    line_source: Seq<char>,
    now: Timestamp,
    at: int,
)
    requires
        0 <= at <= records.len() <= 20,
        forall|i: int| 0 <= i < at ==> (#[trigger] records[i]).attempt_token != token,
        at < records.len() ==> records[at].attempt_token == token,
    ensures
        ({
            let after = after_opening(records, id, token, line_key, line_source, now);
            &&& at == records.len() ==> {
                let last = after[after.len() - 1];
                &&& after.len() == (if records.len() < 20 {
                    records.len() + 1
                } else {
                    20
                })
                &&& last.id == id
                &&& last.attempt_token == token
                &&& last.line_key == line_key
                &&& last.line_source == line_source
                &&& last.started_at == now
                &&& last.phase_reached == "preprocessing"@
                &&& last.ended_at is None
                &&& last.outcome is None
                &&& last.uploaded_bytes is None
                &&& last.last_chunk_index is None
                &&& last.error is None
                &&& forall|i: int|
                    0 <= i < after.len() - 1 ==> #[trigger] after[i] == records[i + records.len()
                        + 1 - after.len()]
            }
            &&& at < records.len() ==> {
                &&& after.len() == records.len()
                &&& after[at].line_key == line_key
                &&& after[at].line_source == line_source
                &&& after[at].phase_reached == records[at].phase_reached
                &&& after[at].ended_at == records[at].ended_at
                &&& after[at].outcome == records[at].outcome
                &&& forall|i: int|
                    0 <= i < records.len() && i != at ==> #[trigger] after[i] == records[i]
            }
        }),
{
    law_a_record_is_found_by_its_token(records, token, at);
}

/// The end of an attempt is written into its record where it has none yet, and nowhere else.
pub proof fn law_an_end_is_written_once(
    records: Seq<RecordView>,
    token: Seq<char>,
    outcome: Seq<char>,
    uploaded_bytes: i64,
    last_chunk_index: Option<i64>,
    error: Option<Seq<char>>,
    now: Timestamp,
    at: int,
)
    requires
        0 <= at <= records.len(),
        forall|i: int| 0 <= i < at ==> (#[trigger] records[i]).attempt_token != token,
        at < records.len() ==> records[at].attempt_token == token,
    ensures
        ({
            let after = after_closing(
                records,
                token,
                outcome,
                uploaded_bytes,
                last_chunk_index,
                error,
                now,
            );
            &&& after.len() == records.len()
            &&& at == records.len() || records[at].ended_at is Some ==> after == records
            &&& at < records.len() && records[at].ended_at is None ==> {
                &&& after[at].ended_at == Some(now)
                &&& after[at].outcome == Some(outcome)
                &&& after[at].uploaded_bytes == Some(uploaded_bytes)
                &&& after[at].last_chunk_index == last_chunk_index
                &&& after[at].error == error
                &&& after[at].started_at == records[at].started_at
                &&& after[at].phase_reached == records[at].phase_reached
                &&& after[at].line_key == records[at].line_key
                &&& forall|i: int|
                    0 <= i < records.len() && i != at ==> #[trigger] after[i] == records[i]
            }
        }),
{
    law_a_record_is_found_by_its_token(records, token, at);
}

/// An error is written down with what is secret taken out, and no error stays none.
pub proof fn law_errors_are_written_down_redacted(text: Seq<char>)
    ensures
        shown_error(Some(text)) == Some(redacted_text(text)),
        shown_error(None) is None,
{
}

/// Three lines are taken in turn: from each the next is another, and after three one is back
/// where one began; a line below the first leads to the first.
pub proof fn law_lines_take_turns(line: int)
    ensures
        line < 0 ==> rotated(line) == 0,
        0 <= line ==> 0 <= rotated(line) < 3,
        0 <= line < 3 ==> rotated(line) != line && rotated(rotated(line)) != line && rotated(
            rotated(rotated(line)),
        ) == line,
        rotated(0) == 1,
        rotated(1) == 2,
        rotated(2) == 0,
{
}

/// A segment is tried again after ten minutes, half an hour, one hour, two hours, and after six
/// hours from the fourth failure on.
pub proof fn law_segments_are_tried_again(attempts: int)
    ensures
        attempts <= 0 ==> retry_secs(attempts) == 10 * 60,
        retry_secs(1) == 30 * 60,
        retry_secs(2) == 60 * 60,
        retry_secs(3) == 2 * 60 * 60,
        attempts >= 4 ==> retry_secs(attempts) == 6 * 60 * 60,
{
}

/// A part goes where its place says: to the front where that is not above zero, to the end where
/// it lies behind it; what stood before it keeps its place and what stood behind it moves by one.
pub proof fn law_a_part_goes_to_its_place(videos: Seq<Video>, video: Video, order: int, i: int)
    requires
        0 <= i < videos.len(),
    ensures
        ({
            let after = videos.insert(place(videos.len() as int, order), video);
            &&& after.len() == videos.len() + 1
            &&& order <= 0 ==> after[0] == video
            &&& 0 <= order <= videos.len() ==> after[order] == video
            &&& order >= videos.len() ==> after[videos.len() as int] == video
            &&& i < order ==> after[i] == videos[i]
            &&& i >= order ==> after[i + 1] == videos[i]
        }),
{
}

/// A segment is tried again, and may be deleted, while it waits or has failed, and in no other
/// state; it is open besides while it is being uploaded.
pub proof fn law_which_segments_are_open(status: Seq<char>)
    ensures
        is_retryable("pending"@),
        is_retryable("failed"@),
        is_retryable(status) ==> status == "pending"@ || status == "failed"@,
        is_open("pending"@),
        is_open("failed"@),
        is_open("uploading"@),
        is_open(status) ==> status == "pending"@ || status == "failed"@ || status == "uploading"@,
{
}

/// A sign of life counts only from the attempt that holds the row: one of the present lifecycle
/// that is being uploaded under the same token.
pub proof fn law_only_the_holder_gives_a_sign_of_life(row: UploadMissingSegment, token: Seq<char>)
    ensures
        owned_under(row, token) <==> row.lifecycle_version == 2 && row.status@ == "uploading"@
            && row.attempt_token is Some && row.attempt_token->0@ == token,
{
}

/// What is done about a row that is being uploaded: nothing while its attempt lives; where it is
/// given up it is asked to stop under its token, and left to a person where it has none.
pub proof fn law_what_is_done_about_a_stuck_upload(row: LeaseRow, now: Timestamp, step: StaleStep)
    requires
        calls_for(row, now, step),
    ensures
        ({
            let stuck = verdict(snapshot_of(row), now@);
            &&& stuck is None <==> step is Keep
            &&& stuck is Some && row.attempt_token is None ==> step == StaleStep::Inspect(stuck->0)
            &&& stuck is Some && row.attempt_token is Some ==> (step matches StaleStep::Cancel {
                reason,
                token,
            } && reason == stuck->0 && token@ == row.attempt_token->0@)
        }),
        ({
            let seen = snapshot_of(row);
            &&& row.attempt_phase is None ==> seen.phase is None
            &&& row.attempt_phase is Some && row.attempt_phase->0@ == "preprocessing"@
                ==> seen.phase == Some(AttemptPhase::Preprocessing)
            &&& row.attempt_phase is Some && row.attempt_phase->0@ == "queued"@ ==> seen.phase
                == Some(AttemptPhase::Queued)
            &&& row.attempt_phase is Some && row.attempt_phase->0@ == "transferring"@
                ==> seen.phase == Some(AttemptPhase::Transferring)
            &&& seen.phase_started_at == row.phase_started_at
            &&& seen.last_heartbeat_at == row.last_heartbeat_at
            &&& seen.last_progress_at == row.last_progress_at
            &&& seen.upload_started_at == row.upload_started_at
            &&& seen.updated_at == row.updated_at
            &&& seen.total_bytes == row.total_bytes
        }),
{
    lemma_phases();
}

proof fn lemma_largest(numbers: Seq<int>)
    ensures
        numbers.len() > 0 ==> largest(numbers) is Some && numbers.contains(largest(numbers)->0),
        largest(numbers) is Some ==> numbers.len() > 0,
        forall|i: int|
            0 <= i < numbers.len() ==> #[trigger] numbers[i] <= largest(numbers)->0,
    decreases numbers.len(),
{
    if numbers.len() > 0 {
        let front = numbers.drop_last();
        lemma_largest(front);
        if front.len() > 0 {
            let k = choose|k: int| 0 <= k < front.len() && front[k] == largest(front)->0;
            assert(numbers[k] == front[k]);
        }
        assert(numbers[numbers.len() - 1] == numbers.last());
        assert forall|i: int| 0 <= i < numbers.len() implies #[trigger] numbers[i] <= largest(
            numbers,
        )->0 by {
            if i < front.len() {
                assert(front[i] == numbers[i]);
            }
        }
    }
}

proof fn lemma_ages(rows: Seq<LeaseRow>, now: Timestamp, i: int)
    requires
        0 <= i < rows.len(),
        verdict(snapshot_of(rows[i]), now@) is Some,
    ensures
        stale_ages(rows, now).contains(whole_secs(now@ - still_since(snapshot_of(rows[i]))@)),
    decreases rows.len(),
{
    let front = rows.drop_last();
    let rest = stale_ages(front, now);
    let all = stale_ages(rows, now);
    let age = whole_secs(now@ - still_since(snapshot_of(rows[i]))@);
    if i < front.len() {
        assert(front[i] == rows[i]);
        lemma_ages(front, now, i);
        let k = choose|k: int| 0 <= k < rest.len() && rest[k] == age;
        assert(all[k] == age);
    } else {
        assert(all[all.len() - 1] == age);
    }
}

/// The age that health reports is no less than that of any stuck upload: the whole seconds since
/// it last made progress, or entered its phase, or began, or was touched, whichever of these is
/// known first.
pub proof fn law_the_oldest_stuck_upload_is_reported(rows: Seq<LeaseRow>, now: Timestamp, i: int)
    requires
        0 <= i < rows.len(),
        verdict(snapshot_of(rows[i]), now@) is Some,
    ensures
        ({
            let since = match rows[i].last_progress_at {
                Some(at) => at@,
                None => match rows[i].phase_started_at {
                    Some(at) => at@,
                    None => match rows[i].upload_started_at {
                        Some(at) => at@,
                        None => rows[i].updated_at@,
                    },
                },
            };
            &&& largest(stale_ages(rows, now)) is Some
            &&& since <= now@ ==> largest(stale_ages(rows, now))->0 >= (now@ - since)
                / 1_000_000_000
            &&& stale_ages(rows, now).contains(largest(stale_ages(rows, now))->0)
        }),
{
    lemma_ages(rows, now, i);
    lemma_largest(stale_ages(rows, now));
    let ages = stale_ages(rows, now);
    let age = whole_secs(now@ - still_since(snapshot_of(rows[i]))@);
    let k = choose|k: int| 0 <= k < ages.len() && ages[k] == age;
    assert(ages[k] <= largest(ages)->0);
}

proof fn lemma_open_row(rows: Seq<UploadMissingSegment>, room: i64, path: Seq<char>)
    ensures
        match open_row(rows, room, path) {
            Some(at) => is_open_row(rows, room, path, at) && forall|i: int|
                0 <= i < at ==> !is_open_row(rows, room, path, i),
            None => forall|i: int| !is_open_row(rows, room, path, i),
        },
    decreases rows.len(),
{
    if rows.len() > 0 {
        let front = rows.drop_last();
        lemma_open_row(front, room, path);
        assert forall|i: int| 0 <= i < front.len() implies is_open_row(rows, room, path, i)
            == is_open_row(front, room, path, i) by {
            assert(front[i] == rows[i]);
        }
    }
}

/// A segment that is queued and has no open row of its room and path gets a row of its own, with
/// nothing of an upload in it; one that failed starts at the second line with one failure.
pub proof fn law_a_new_segment_gets_a_row(
    rows: Seq<UploadMissingSegment>,
    after: Seq<UploadMissingSegment>,
    id: i64,
    request: SegmentRequest,
    failed: bool,
    next_retry_at: int,
    now: Timestamp,
)
    requires
        queued(rows, after, id, request, failed, next_retry_at, now),
        forall|i: int|
            0 <= i < rows.len() && (#[trigger] rows[i]).live_streamer_id
                == request.live_streamer_id && rows[i].file_path@ == request.file_path@
                ==> rows[i].status@ != "pending"@ && rows[i].status@ != "uploading"@
                && rows[i].status@ != "failed"@,
    ensures
        after.len() == rows.len() + 1,
        forall|i: int| 0 <= i < rows.len() ==> #[trigger] after[i] == rows[i],
        ({
            let row = after[rows.len() as int];
            &&& row.id == id
            &&& row.live_streamer_id == request.live_streamer_id
            &&& row.streamer_info_id == request.streamer_info_id
            &&& row.upload_session_id == request.upload_session_id
            &&& row.aid == request.aid
            &&& row.file_path == request.file_path
            &&& row.danmaku_file_path == request.danmaku_file_path
            &&& row.segment_order == request.segment_order
            &&& row.last_error == Some(request.reason)
            &&& row.next_retry_at@ == next_retry_at
            &&& failed ==> row.status@ == "failed"@ && row.attempts == 1 && row.line_index == 1
            &&& !failed ==> row.status@ == "pending"@ && row.attempts == 0 && row.line_index == 0
            &&& row.lifecycle_version == 1
            &&& row.attempt_token is None
            &&& row.uploaded_bytes == 0
            &&& row.created_at == now
        }),
{
    lemma_open_row(rows, request.live_streamer_id, request.file_path@);
}

/// A segment that is queued and has an open row already is merged into it: it takes the new place
/// and the newest error and gains the number of the broadcast where it had none; a failure counts
/// one more, puts it off and moves it to the session of the request, while a segment that only
/// waits keeps its state, its count and its session where it has one.
pub proof fn law_a_known_segment_is_merged(
    rows: Seq<UploadMissingSegment>,
    after: Seq<UploadMissingSegment>,
    id: i64,
    request: SegmentRequest,
    failed: bool,
    next_retry_at: int,
    now: Timestamp,
    at: int,
)
    requires
        queued(rows, after, id, request, failed, next_retry_at, now),
        0 <= at < rows.len(),
        rows[at].live_streamer_id == request.live_streamer_id,
        rows[at].file_path@ == request.file_path@,
        rows[at].status@ == "pending"@ || rows[at].status@ == "uploading"@ || rows[at].status@
            == "failed"@,
        forall|i: int|
            0 <= i < at && (#[trigger] rows[i]).live_streamer_id == request.live_streamer_id
                && rows[i].file_path@ == request.file_path@ ==> rows[i].status@ != "pending"@
                && rows[i].status@ != "uploading"@ && rows[i].status@ != "failed"@,
        rows[at].attempts < i64::MAX,
    ensures
        after.len() == rows.len(),
        forall|i: int| 0 <= i < rows.len() && i != at ==> #[trigger] after[i] == rows[i],
        ({
            let row = after[at];
            let before = rows[at];
            &&& row.id == before.id
            &&& row.segment_order == request.segment_order
            &&& row.last_error == Some(request.reason)
            &&& row.aid == (if before.aid is Some {
                before.aid
            } else {
                request.aid
            })
            &&& row.updated_at == now
            &&& row.created_at == before.created_at
            &&& row.attempt_token == before.attempt_token
            &&& row.uploaded_bytes == before.uploaded_bytes
            &&& failed ==> row.status@ == "failed"@ && row.attempts == before.attempts + 1
                && row.line_index == 1 && row.next_retry_at@ == next_retry_at
                && row.upload_session_id == request.upload_session_id
            &&& !failed ==> row.status@ == before.status@ && row.attempts == before.attempts
                && row.line_index == before.line_index && row.next_retry_at@
                == before.next_retry_at@ && row.upload_session_id == (
            if before.upload_session_id is Some {
                before.upload_session_id
            } else {
                request.upload_session_id
            })
        }),
{
    lemma_open_row(rows, request.live_streamer_id, request.file_path@);
    assert(is_open_row(rows, request.live_streamer_id, request.file_path@, at));
    assert(open_row(rows, request.live_streamer_id, request.file_path@) == Some(at)) by {
        let found = open_row(rows, request.live_streamer_id, request.file_path@)->0;
        if found < at {
            assert(is_open_row(rows, request.live_streamer_id, request.file_path@, found));
        }
    }
    assert(merged_row(after[at], rows[at], request, failed, next_retry_at, now));
}

proof fn lemma_last_place(rows: Seq<UploadMissingSegment>, session: i64)
    ensures
        last_place(rows, session) is None <==> (forall|i: int|
            0 <= i < rows.len() ==> (#[trigger] rows[i]).upload_session_id != Some(session)),
        last_place(rows, session) matches Some(most) ==> (exists|i: int|
            0 <= i < rows.len() && (#[trigger] rows[i]).upload_session_id == Some(session)
                && rows[i].segment_order == most) && most <= i64::MAX,
    decreases rows.len(),
{
    if rows.len() > 0 {
        let front = rows.drop_last();
        lemma_last_place(front, session);
        assert forall|i: int| 0 <= i < front.len() implies #[trigger] rows[i] == front[i] by {}
        let last = rows.len() - 1;
        assert(rows[last] == rows.last());
        if last_place(front, session) is Some {
            let most = last_place(front, session)->0;
            let i = choose|i: int|
                0 <= i < front.len() && (#[trigger] front[i]).upload_session_id == Some(session)
                    && front[i].segment_order == most;
            assert(rows[i] == front[i]);
        }
        if forall|i: int|
            0 <= i < rows.len() ==> (#[trigger] rows[i]).upload_session_id != Some(session) {
            assert(forall|i: int|
                0 <= i < front.len() ==> (#[trigger] front[i]).upload_session_id != Some(session));
        }
        if last_place(front, session) is Some {
        } else {
            assert forall|i: int| 0 <= i < front.len() implies (
            #[trigger] rows[i]).upload_session_id != Some(session) by {
                assert(front[i].upload_session_id != Some(session));
            }
        }
    }
}

proof fn lemma_no_open(rows: Seq<UploadMissingSegment>, session: i64)
    requires
        forall|i: int|
            0 <= i < rows.len() ==> (#[trigger] rows[i]).upload_session_id != Some(session),
    ensures
        open_count(rows, session) == 0,
    decreases rows.len(),
{
    if rows.len() > 0 {
        let front = rows.drop_last();
        assert forall|i: int| 0 <= i < front.len() implies (#[trigger] front[i]).upload_session_id
            != Some(session) by {
            assert(front[i] == rows[i]);
        }
        lemma_no_open(front, session);
        assert(rows[rows.len() - 1].upload_session_id != Some(session));
    }
}

/// A session without rows puts its next segment behind the parts that went up; no place is ever
/// further back than the last row and the number of parts and open rows make it.
pub proof fn law_places_leave_no_needless_gap(
    rows: Seq<UploadMissingSegment>,
    session: i64,
    successful_count: int,
)
    requires
        0 <= successful_count <= i64::MAX,
    ensures
        (forall|i: int|
            0 <= i < rows.len() ==> (#[trigger] rows[i]).upload_session_id != Some(session))
            ==> place_behind(rows, session, successful_count) == successful_count,
        place_behind(rows, session, successful_count) >= successful_count,
        place_behind(rows, session, successful_count) <= i64::MAX,
        place_behind(rows, session, successful_count) > successful_count + open_count(rows, session)
            ==> exists|i: int|
            0 <= i < rows.len() && (#[trigger] rows[i]).upload_session_id == Some(session)
                && rows[i].segment_order + 1 >= place_behind(rows, session, successful_count),
{
    lemma_last_place(rows, session);
    lemma_open_count(rows, session);
    if forall|i: int|
        0 <= i < rows.len() ==> (#[trigger] rows[i]).upload_session_id != Some(session) {
        lemma_no_open(rows, session);
    }
}

proof fn lemma_open_count(rows: Seq<UploadMissingSegment>, session: i64)
    ensures
        0 <= open_count(rows, session) <= rows.len(),
    decreases rows.len(),
{
    if rows.len() > 0 {
        lemma_open_count(rows.drop_last(), session);
    }
}

/// Every open row of a session makes room for itself: one more moves the count by one.
pub proof fn law_open_rows_are_counted(rows: Seq<UploadMissingSegment>, row: UploadMissingSegment,
    session: i64)
    ensures
        row.upload_session_id == Some(session) && (row.status@ == "pending"@ || row.status@
            == "uploading"@ || row.status@ == "failed"@) ==> open_count(rows.push(row), session)
            == open_count(rows, session) + 1,
        row.upload_session_id != Some(session) || (row.status@ != "pending"@ && row.status@
            != "uploading"@ && row.status@ != "failed"@) ==> open_count(rows.push(row), session)
            == open_count(rows, session),
{
    assert(rows.push(row).drop_last() =~= rows);
}

spec fn session_key(row: UploadMissingSegment) -> SortKey {
    SortKey { major: row.segment_order as i128, minor: 0, id: row.id }
}

/// Whether row `i` is due in `session` and known by `key`.
spec fn due_under(
    rows: Seq<UploadMissingSegment>,
    session: i64,
    now: Timestamp,
    i: int,
    key: SortKey,
) -> bool {
    0 <= i < rows.len() && rows[i].upload_session_id == Some(session) && (rows[i].status@
        == "pending"@ || rows[i].status@ == "failed"@) && rows[i].next_retry_at@ <= now@
        && session_key(rows[i]) == key
}

proof fn lemma_due_row_keys(
    rows: Seq<UploadMissingSegment>,
    session: i64,
    now: Timestamp,
    key: SortKey,
)
    ensures
        due_row_keys(rows, session, now).contains(key) <==> exists|i: int|
            due_under(rows, session, now, i, key),
    decreases rows.len(),
{
    let all = due_row_keys(rows, session, now);
    if rows.len() > 0 {
        let front = rows.drop_last();
        let rest = due_row_keys(front, session, now);
        lemma_due_row_keys(front, session, now, key);
        if all.contains(key) {
            let k = choose|k: int| 0 <= k < all.len() && all[k] == key;
            if k < rest.len() {
                assert(rest[k] == key);
                let i = choose|i: int| due_under(front, session, now, i, key);
                assert(due_under(rows, session, now, i, key));
            } else {
                assert(due_under(rows, session, now, rows.len() - 1, key));
            }
        }
        if exists|i: int| due_under(rows, session, now, i, key) {
            let i = choose|i: int| due_under(rows, session, now, i, key);
            if i < front.len() {
                assert(due_under(front, session, now, i, key));
                let k = choose|k: int| 0 <= k < rest.len() && rest[k] == key;
                assert(all[k] == key);
            } else {
                assert(all[all.len() - 1] == key);
            }
        }
    }
}

/// The segments of a session that are tried now.
pub open spec fn tried(rows: Seq<UploadMissingSegment>, session: i64, now: Timestamp) -> Seq<i64> {
    key_ids(sorted_keys(due_row_keys(rows, session, now)))
}

/// A segment of the session that waits or has failed and whose time has come is tried.
pub proof fn law_a_due_segment_is_tried(
    rows: Seq<UploadMissingSegment>,
    session: i64,
    now: Timestamp,
    i: int,
)
    requires
        0 <= i < rows.len(),
        rows[i].upload_session_id == Some(session),
        rows[i].status@ == "pending"@ || rows[i].status@ == "failed"@,
        rows[i].next_retry_at@ <= now@,
    ensures
        tried(rows, session, now).contains(rows[i].id),
{
    let keys = due_row_keys(rows, session, now);
    let sorted = sorted_keys(keys);
    let key = session_key(rows[i]);
    lemma_due_row_keys(rows, session, now, key);
    assert(due_under(rows, session, now, i, key));
    law_no_key_is_lost(keys, key);
    let k = choose|k: int| 0 <= k < sorted.len() && sorted[k] == key;
    assert(tried(rows, session, now)[k] == rows[i].id);
}

/// Nothing else is tried, and what is tried is tried in the order of its places.
pub proof fn law_only_due_segments_are_tried(
    rows: Seq<UploadMissingSegment>,
    session: i64,
    now: Timestamp,
    p: int,
    q: int,
)
    requires
        0 <= p < q < tried(rows, session, now).len(),
    ensures
        exists|i: int, j: int|
            0 <= i < rows.len() && 0 <= j < rows.len() && (#[trigger] rows[i]).id == tried(
                rows,
                session,
                now,
            )[p] && (#[trigger] rows[j]).id == tried(rows, session, now)[q]
                && rows[i].upload_session_id == Some(session) && rows[j].upload_session_id == Some(
                session,
            ) && (rows[i].status@ == "pending"@ || rows[i].status@ == "failed"@) && (rows[j].status@
                == "pending"@ || rows[j].status@ == "failed"@) && rows[i].next_retry_at@ <= now@
                && rows[j].next_retry_at@ <= now@ && rows[i].segment_order <= rows[j].segment_order,
{
    let keys = due_row_keys(rows, session, now);
    let sorted = sorted_keys(keys);
    law_ordering_only_reorders(keys);
    law_smaller_keys_come_first(keys, p, q);
    law_no_key_is_lost(keys, sorted[p]);
    law_no_key_is_lost(keys, sorted[q]);
    lemma_due_row_keys(rows, session, now, sorted[p]);
    lemma_due_row_keys(rows, session, now, sorted[q]);
    let i = choose|i: int| due_under(rows, session, now, i, sorted[p]);
    let j = choose|j: int| due_under(rows, session, now, j, sorted[q]);
    assert(rows[i].id == tried(rows, session, now)[p]);
    assert(rows[j].id == tried(rows, session, now)[q]);
}

} // verus!
