//! How a finished segment is enrolled: under which path, in which session and at which place.
use crate::missing_segment::UploadMissingSegment;
use crate::segment_enrollment::ledger::{
    enrolls, first_row_of, has_row, highest_place, is_placed, is_row_of, law_new_place_is_after_all,
    lists, new_place, places, session_taken, stored_size, tells_of_row, EnrollmentLedger,
};
use crate::segment_enrollment::{
    enrollment_delay_ms, listed_parts, manifest_name_spec, newest_where, normalized, order_after,
    published_parts, reading_millis, recent_enough, same_broadcast, EnrollmentRequest,
    PathComponent, SegmentEnrollment, SessionRow,
};
use crate::text::{hex_spec, opt_view, signed_decimal};
use vstd::prelude::*;

verus! {

/// A path is worked out step by step: a step into the present directory changes nothing, one into
/// a directory is taken, and one back undoes it; one back at the root, at a prefix or at nothing
/// stays where it is.
pub proof fn law_paths_are_worked_out(path: Seq<PathComponent>, name: String)
    ensures
        normalized(path.push(PathComponent::CurDir)) == normalized(path),
        normalized(path.push(PathComponent::Normal(name))) == normalized(path).push(
            PathComponent::Normal(name),
        ),
        normalized(path.push(PathComponent::Normal(name)).push(PathComponent::ParentDir))
            == normalized(path),
        normalized(path).len() == 0 ==> normalized(path.push(PathComponent::ParentDir)).len() == 0,
        normalized(path).len() > 0 && !(normalized(path).last() is Normal) ==> normalized(
            path.push(PathComponent::ParentDir),
        ) == normalized(path),
        normalized(path.push(PathComponent::RootDir)) == normalized(path).push(
            PathComponent::RootDir,
        ),
        normalized(path.push(PathComponent::Prefix(name))) == normalized(path).push(
            PathComponent::Prefix(name),
        ),
        normalized(Seq::<PathComponent>::empty()).len() == 0,
{
    let into = path.push(PathComponent::Normal(name));
    assert(path.push(PathComponent::CurDir).drop_last() =~= path);
    assert(into.drop_last() =~= path);
    assert(into.push(PathComponent::ParentDir).drop_last() =~= into);
    assert(path.push(PathComponent::ParentDir).drop_last() =~= path);
    assert(path.push(PathComponent::RootDir).drop_last() =~= path);
    assert(path.push(PathComponent::Prefix(name)).drop_last() =~= path);
    assert(normalized(into) == normalized(path).push(PathComponent::Normal(name)));
    assert(normalized(into).drop_last() =~= normalized(path));
}

/// A segment goes to the open session of its own broadcast where there is one, and of several to
/// the one that was touched last, or has the largest id among those; the session stays as it is.
pub proof fn law_a_broadcast_keeps_its_session(
    before: EnrollmentLedger,
    after: EnrollmentLedger,
    new_id: i64,
    request: EnrollmentRequest,
    at: int,
    i: int,
)
    requires
        session_taken(before, after, new_id, request, at),
        0 <= i < before.sessions@.len(),
        before.sessions@[i].live_streamer_id == request.live_streamer_id,
        before.sessions@[i].streamer_info_id == request.streamer_info_id,
        !before.sessions@[i].finalized,
    ensures
        0 <= at < before.sessions@.len(),
        after.sessions@ == before.sessions@,
        after.snapshots@ == before.snapshots@,
        before.sessions@[at].live_streamer_id == request.live_streamer_id,
        before.sessions@[at].streamer_info_id == request.streamer_info_id,
        !before.sessions@[at].finalized,
        before.sessions@[i].updated_at@ <= before.sessions@[at].updated_at@,
        before.sessions@[i].updated_at@ == before.sessions@[at].updated_at@
            ==> before.sessions@[i].id <= before.sessions@[at].id,
{
    let same = |r: SessionRow| same_broadcast(r, request);
    assert(same(before.sessions@[i]));
    assert(newest_where(before.sessions@, same, at));
    assert(same(before.sessions@[at]));
}

/// Where the broadcast has no open session, an open one of the same room that was touched within
/// the window goes on with it, the last touched first; it is told so and counts as touched now.
pub proof fn law_a_recent_session_goes_on(
    before: EnrollmentLedger,
    after: EnrollmentLedger,
    new_id: i64,
    request: EnrollmentRequest,
    at: int,
    i: int,
)
    requires
        session_taken(before, after, new_id, request, at),
        forall|k: int|
            0 <= k < before.sessions@.len() && (#[trigger] before.sessions@[k]).live_streamer_id
                == request.live_streamer_id && before.sessions@[k].streamer_info_id
                == request.streamer_info_id ==> before.sessions@[k].finalized,
        0 <= i < before.sessions@.len(),
        before.sessions@[i].live_streamer_id == request.live_streamer_id,
        !before.sessions@[i].finalized,
        request.now@ - before.sessions@[i].updated_at@ <= request.recovery_window_minutes * 60
            * 1_000_000_000,
    ensures
        0 <= at < before.sessions@.len(),
        after.sessions@.len() == before.sessions@.len(),
        after.snapshots@ == before.snapshots@,
        after.sessions@[at].id == before.sessions@[at].id,
        after.sessions@[at].streamer_info_id == request.streamer_info_id,
        after.sessions@[at].updated_at == request.now,
        !after.sessions@[at].finalized,
        before.sessions@[at].live_streamer_id == request.live_streamer_id,
        !before.sessions@[at].finalized,
        request.now@ - before.sessions@[at].updated_at@ <= request.recovery_window_minutes * 60
            * 1_000_000_000,
        before.sessions@[i].updated_at@ <= before.sessions@[at].updated_at@,
        forall|k: int|
            0 <= k < before.sessions@.len() && k != at ==> #[trigger] after.sessions@[k]
                == before.sessions@[k],
{
    let same = |r: SessionRow| same_broadcast(r, request);
    let recent = |r: SessionRow| recent_enough(r, request);
    let window = request.recovery_window_minutes * 60 * 1_000_000_000;
    assert(recent(before.sessions@[i]));
    assert forall|k: int| 0 <= k < before.sessions@.len() implies !same(
        #[trigger] before.sessions@[k],
    ) by {}
    assert(newest_where(before.sessions@, recent, at));
    assert(recent(before.sessions@[at]));
}

/// Where no session fits, one is opened for the broadcast; it has no parts yet.
pub proof fn law_a_session_is_opened(
    before: EnrollmentLedger,
    after: EnrollmentLedger,
    new_id: i64,
    request: EnrollmentRequest,
    at: int,
)
    requires
        before.wf(),
        session_taken(before, after, new_id, request, at),
        forall|k: int|
            0 <= k < before.sessions@.len() && (#[trigger] before.sessions@[k]).live_streamer_id
                == request.live_streamer_id && !before.sessions@[k].finalized
                ==> before.sessions@[k].streamer_info_id != request.streamer_info_id && request.now@
                - before.sessions@[k].updated_at@ > request.recovery_window_minutes * 60
                * 1_000_000_000,
    ensures
        at == before.sessions@.len(),
        after.sessions@.len() == before.sessions@.len() + 1,
        after.sessions@[at].id == new_id,
        after.sessions@[at].live_streamer_id == request.live_streamer_id,
        after.sessions@[at].streamer_info_id == request.streamer_info_id,
        !after.sessions@[at].finalized,
        after.sessions@[at].updated_at == request.now,
        opt_view(after.snapshots@[at]) == Some("[]"@),
        forall|k: int|
            0 <= k < before.sessions@.len() ==> #[trigger] after.sessions@[k]
                == before.sessions@[k],
{
    let same = |r: SessionRow| same_broadcast(r, request);
    let recent = |r: SessionRow| recent_enough(r, request);
    assert forall|k: int| 0 <= k < before.sessions@.len() implies !same(
        #[trigger] before.sessions@[k],
    ) && !recent(before.sessions@[k]) by {}
}

/// A session is of the broadcast where room and broadcast agree and it is open; it is recent where
/// the room agrees, it is open and it was touched no longer ago than the window.
pub proof fn law_which_sessions_fit(row: SessionRow, request: EnrollmentRequest)
    ensures
        same_broadcast(row, request) <==> row.live_streamer_id == request.live_streamer_id
            && row.streamer_info_id == request.streamer_info_id && !row.finalized,
        recent_enough(row, request) <==> row.live_streamer_id == request.live_streamer_id
            && !row.finalized && request.now@ - row.updated_at@ <= request.recovery_window_minutes
            * 60 * 1_000_000_000,
{
}

/// A file that has a row already, of its room and of the present lifecycle, is not enrolled again:
/// nothing changes and the row that it has is told.
pub proof fn law_a_known_file_is_told(
    before: EnrollmentLedger,
    after: EnrollmentLedger,
    next_id: i64,
    new_session_id: i64,
    request: EnrollmentRequest,
    enrollment: SegmentEnrollment,
    i: int,
)
    requires
        enrolls(before, after, next_id, new_session_id, request, enrollment),
        0 <= i < before.rows@.len(),
        before.rows@[i].live_streamer_id == request.live_streamer_id,
        before.rows@[i].lifecycle_version == 2,
        before.rows@[i].normalized_file_path is Some,
        before.rows@[i].normalized_file_path->0@ == request.normalized_file_path@,
    ensures
        after == before,
        enrollment.duplicate,
        exists|k: int|
            0 <= k <= i && (#[trigger] before.rows@[k]).id == enrollment.missing_id
                && before.rows@[k].live_streamer_id == request.live_streamer_id
                && before.rows@[k].normalized_file_path is Some
                && before.rows@[k].normalized_file_path->0@ == request.normalized_file_path@
                && before.rows@[k].upload_session_id == Some(enrollment.upload_session_id)
                && before.rows@[k].segment_order == enrollment.segment_order,
{
    let room = request.live_streamer_id;
    let path = request.normalized_file_path@;
    lemma_first_row(before.rows@, room, path, i);
    let at = choose|at: int| #[trigger]
        first_row_of(before.rows@, room, path, at) && tells_of_row(
            enrollment,
            before.rows@[at],
            request,
        );
    if at > i {
        assert(!is_row_of(before.rows@[i], room, path));
    }
    assert(before.rows@[at].id == enrollment.missing_id);
}

proof fn lemma_first_row(rows: Seq<UploadMissingSegment>, room: i64, path: Seq<char>, i: int)
    requires
        0 <= i < rows.len(),
        is_row_of(rows[i], room, path),
    ensures
        has_row(rows, room, path),
    decreases i,
{
    if forall|k: int| 0 <= k < i ==> !is_row_of(#[trigger] rows[k], room, path) {
        assert(first_row_of(rows, room, path, i));
    } else {
        let k = choose|k: int| 0 <= k < i && is_row_of(#[trigger] rows[k], room, path);
        lemma_first_row(rows, room, path, k);
    }
}

/// A file without a row gets one, behind all others, that waits to be uploaded at once: with the
/// names and the size that it came with, at the place that is told, and with nothing of an
/// upload in it.
pub proof fn law_a_new_file_is_enrolled(
    before: EnrollmentLedger,
    after: EnrollmentLedger,
    next_id: i64,
    new_session_id: i64,
    request: EnrollmentRequest,
    enrollment: SegmentEnrollment,
)
    requires
        enrolls(before, after, next_id, new_session_id, request, enrollment),
        forall|i: int|
            0 <= i < before.rows@.len() && (#[trigger] before.rows@[i]).live_streamer_id
                == request.live_streamer_id && before.rows@[i].lifecycle_version == 2
                && before.rows@[i].normalized_file_path is Some
                ==> before.rows@[i].normalized_file_path->0@ != request.normalized_file_path@,
    ensures
        !enrollment.duplicate,
        enrollment.missing_id == next_id,
        enrollment.segment_id == request.segment_id,
        enrollment.total_bytes == request.total_bytes,
        after.rows@.len() == before.rows@.len() + 1,
        forall|i: int|
            0 <= i < before.rows@.len() ==> #[trigger] after.rows@[i] == before.rows@[i],
        ({
            let row = after.rows@[before.rows@.len() as int];
            &&& row.id == next_id
            &&& row.live_streamer_id == request.live_streamer_id
            &&& row.streamer_info_id == request.streamer_info_id
            &&& row.upload_session_id == Some(enrollment.upload_session_id)
            &&& row.segment_order == enrollment.segment_order
            &&& row.file_path == request.file_path
            &&& row.danmaku_file_path == request.danmaku_file_path
            &&& row.normalized_file_path == Some(request.normalized_file_path)
            &&& row.lifecycle_version == 2
            &&& row.status@ == "pending"@
            &&& row.attempts == 0
            &&& row.line_index == 0
            &&& row.next_retry_at == request.now
            &&& row.created_at == request.now
            &&& request.total_bytes <= i64::MAX ==> row.total_bytes == Some(
                request.total_bytes as i64,
            )
            &&& row.uploaded_bytes == 0
            &&& row.attempt_token is None
            &&& row.aid is None
            &&& row.last_error is Some
            &&& row.last_error->0@ == "validated segment accepted; awaiting upload"@
        }),
{
    let room = request.live_streamer_id;
    let path = request.normalized_file_path@;
    if has_row(before.rows@, room, path) {
        let at = choose|at: int| #[trigger] first_row_of(before.rows@, room, path, at);
        assert(is_row_of(before.rows@[at], room, path));
    }
    let at = choose|at: int|
        {
            let snapshot = opt_view(after.snapshots@[at]);
            &&& #[trigger] session_taken(before, after, new_session_id, request, at)
            &&& 0 <= at < after.sessions@.len()
            &&& places(
                before.rows@,
                after.rows@,
                next_id,
                after.sessions@[at].id,
                published_parts(snapshot),
                request,
                enrollment,
            )
        };
    assert(after.rows@[before.rows@.len() as int] == after.rows@.last());
}

proof fn lemma_highest(rows: Seq<UploadMissingSegment>, session: i64)
    ensures
        match highest_place(rows, session) {
            Some(most) => exists|i: int|
                0 <= i < rows.len() && (#[trigger] rows[i]).upload_session_id == Some(session)
                    && rows[i].lifecycle_version == 2 && rows[i].segment_order == most,
            None => forall|i: int|
                0 <= i < rows.len() && (#[trigger] rows[i]).upload_session_id == Some(session)
                    ==> rows[i].lifecycle_version != 2,
        },
    decreases rows.len(),
{
    if rows.len() > 0 {
        let front = rows.drop_last();
        lemma_highest(front, session);
        let last = rows.len() - 1;
        assert(rows[last] == rows.last());
        match highest_place(front, session) {
            Some(most) => {
                let i = choose|i: int|
                    0 <= i < front.len() && (#[trigger] front[i]).upload_session_id == Some(session)
                        && front[i].lifecycle_version == 2 && front[i].segment_order == most;
                assert(rows[i] == front[i]);
            },
            None => {
                assert forall|i: int|
                    0 <= i < front.len() && (#[trigger] rows[i]).upload_session_id == Some(
                        session,
                    ) implies rows[i].lifecycle_version != 2 by {
                    assert(front[i] == rows[i]);
                }
            },
        }
    }
}

/// A new segment stands directly behind the last row of its session or directly behind its parts,
/// whichever lies further back: it leaves no gap and takes no place twice.
pub proof fn law_a_new_segment_stands_last(
    rows: Seq<UploadMissingSegment>,
    session: i64,
    parts: Option<nat>,
    k: int,
)
    requires
        forall|i: int| 0 <= i < rows.len() ==> (#[trigger] rows[i]).segment_order < i64::MAX,
        parts is Some ==> parts->0 <= i64::MAX,
    ensures
        0 <= k < rows.len() && rows[k].upload_session_id == Some(session)
            && rows[k].lifecycle_version == 2 ==> new_place(rows, session, parts)
            > rows[k].segment_order,
        parts is Some ==> new_place(rows, session, parts) >= parts->0,
        new_place(rows, session, parts) == (match parts {
            Some(count) => count as int,
            None => 0,
        }) || exists|i: int|
            0 <= i < rows.len() && (#[trigger] rows[i]).upload_session_id == Some(session)
                && rows[i].lifecycle_version == 2 && rows[i].segment_order + 1 == new_place(
                rows,
                session,
                parts,
            ),
{
    lemma_highest(rows, session);
    if 0 <= k < rows.len() && is_placed(rows[k], session) {
        law_new_place_is_after_all(rows, session, parts, k);
    }
    match highest_place(rows, session) {
        Some(most) => {
            let i = choose|i: int|
                0 <= i < rows.len() && (#[trigger] rows[i]).upload_session_id == Some(session)
                    && rows[i].lifecycle_version == 2 && rows[i].segment_order == most;
            assert(order_after(Some(most)) == rows[i].segment_order + 1);
        },
        None => {},
    }
}

/// An enrollment that fails is tried again after 20, 50 and 100 milliseconds.
pub proof fn law_enrollment_is_tried_again()
    ensures
        enrollment_delay_ms(1) == 20,
        enrollment_delay_ms(2) == 50,
        enrollment_delay_ms(3) == 100,
{
}

/// The place behind the last one is one more, and the first place is zero; sizes and places stop
/// at the largest number that is stored.
pub proof fn law_places_count_on(order: i64, bytes: u64)
    ensures
        order_after(None) == 0,
        order < i64::MAX ==> order_after(Some(order)) == order + 1,
        order_after(Some(i64::MAX)) == i64::MAX,
        bytes <= i64::MAX ==> stored_size(bytes) == bytes,
        bytes > i64::MAX ==> stored_size(bytes) == i64::MAX,
{
}

/// A manifest is named after the millisecond in which it is written and a number of 32 digits.
pub proof fn law_manifests_are_named(nanos: int, nonce: u128)
    ensures
        reading_millis(nanos) * 1_000_000 <= nanos < (reading_millis(nanos) + 1) * 1_000_000,
        manifest_name_spec(reading_millis(nanos), nonce) == "enrollment-"@ + signed_decimal(
            reading_millis(nanos),
        ) + "-"@ + hex_spec(nonce as nat, 32) + ".json"@,
{
    vstd::arithmetic::div_mod::lemma_fundamental_div_mod(nanos, 1_000_000);
    vstd::arithmetic::div_mod::lemma_mod_bound(nanos, 1_000_000);
}

/// Of the sessions that fit, the one that was updated last is found, and of two that were updated
/// together the one with the higher id.
pub proof fn law_the_newest_session_is_found(
    rows: Seq<SessionRow>,
    fits: spec_fn(SessionRow) -> bool,
    at: int,
    i: int,
)
    requires
        newest_where(rows, fits, at),
        0 <= i < rows.len(),
        fits(rows[i]),
    ensures
        0 <= at < rows.len(),
        fits(rows[at]),
        rows[i].updated_at@ <= rows[at].updated_at@,
        rows[i].updated_at@ == rows[at].updated_at@ ==> rows[i].id <= rows[at].id,
{
}

/// A file that has a row is told with the size that the row holds, and with its own where the row
/// holds none; it is not counted as a new segment.
pub proof fn law_a_known_file_keeps_its_size(
    enrollment: SegmentEnrollment,
    row: UploadMissingSegment,
    request: EnrollmentRequest,
)
    requires
        tells_of_row(enrollment, row, request),
    ensures
        row.total_bytes is Some && row.total_bytes->0 >= 0 ==> enrollment.total_bytes
            == row.total_bytes->0,
        row.total_bytes is None || row.total_bytes->0 < 0 ==> enrollment.total_bytes
            == request.total_bytes,
        enrollment.segment_id is None,
        enrollment.duplicate,
{
}

/// What a session has published is read off its snapshot: nothing is known without one, and an
/// empty list has no parts.
pub proof fn law_what_a_snapshot_lists(snapshot: Option<Seq<char>>, parts: Option<nat>)
    requires
        lists(snapshot, parts),
    ensures
        snapshot is None ==> parts is None,
        snapshot == Some("[]"@) ==> parts == Some(0nat),
        snapshot is Some ==> parts == listed_parts(snapshot->0),
{
}

} // verus!
