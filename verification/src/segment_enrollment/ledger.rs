//! The rows of segments and the sessions they belong to, as far as an enrollment reads and
//! changes them.
use crate::missing_segment::UploadMissingSegment;
use crate::segment_enrollment::{
    baseline_count, count_view, enrolled_order, existing_enrollment, new_enrollment,
    newest_sessions, newest_where, order_after, published_parts, read_snapshot, recent_enough,
    same_broadcast, stored_total_bytes, EnrollmentRequest, SegmentEnrollment, SessionRow, NO_PARTS,
};
use crate::text::{opt_own, opt_view, own, str_eq};
use vstd::prelude::*;

verus! {

/// What the row of an enrolled segment says until its first upload.
pub const AWAITING_UPLOAD: &'static str = "validated segment accepted; awaiting upload";

/// The segments and sessions of a room. `snapshots` holds for each session the stored text that
/// lists its published parts, where it could be fetched.
pub struct EnrollmentLedger {
    pub rows: Vec<UploadMissingSegment>,
    pub sessions: Vec<SessionRow>,
    pub snapshots: Vec<Option<String>>,
}

/// Whether a row is that of the file `path` of a room.
pub open spec fn is_row_of(row: UploadMissingSegment, room: i64, path: Seq<char>) -> bool {
    row.live_streamer_id == room && row.lifecycle_version == 2
        && (row.normalized_file_path matches Some(p) && p@ == path)
}

/// Whether `at` is the first row of the file `path` of a room.
pub open spec fn first_row_of(
    rows: Seq<UploadMissingSegment>,
    room: i64,
    path: Seq<char>,
    at: int,
) -> bool {
    &&& 0 <= at < rows.len()
    &&& is_row_of(rows[at], room, path)
    &&& forall|k: int| 0 <= k < at ==> !is_row_of(#[trigger] rows[k], room, path)
}

/// Whether the file `path` of a room has a row.
pub open spec fn has_row(rows: Seq<UploadMissingSegment>, room: i64, path: Seq<char>) -> bool {
    exists|at: int| #[trigger] first_row_of(rows, room, path, at)
}

/// Whether a row has a place in a session.
pub open spec fn is_placed(row: UploadMissingSegment, session: i64) -> bool {
    row.upload_session_id == Some(session) && row.lifecycle_version == 2
}

/// The highest place in a session.
pub open spec fn highest_place(rows: Seq<UploadMissingSegment>, session: i64) -> Option<i64>
    decreases rows.len(),
{
    if rows.len() == 0 {
        None
    } else {
        let rest = highest_place(rows.drop_last(), session);
        if !is_placed(rows.last(), session) {
            rest
        } else {
            match rest {
                Some(most) if most >= rows.last().segment_order => Some(most),
                _ => Some(rows.last().segment_order),
            }
        }
    }
}

/// The place of a new segment of a session that published `parts`.
pub open spec fn new_place(
    rows: Seq<UploadMissingSegment>,
    session: i64,
    parts: Option<nat>,
) -> int {
    let behind_rows = order_after(highest_place(rows, session));
    let behind_parts = match parts {
        Some(count) if count <= i64::MAX => count as int,
        _ => 0,
    };
    if behind_rows >= behind_parts {
        behind_rows
    } else {
        behind_parts
    }
}

/// The size of a segment as its row keeps it.
pub open spec fn stored_size(bytes: u64) -> i64 {
    if bytes <= i64::MAX {
        bytes as i64
    } else {
        i64::MAX
    }
}

/// Whether `row` is the row of a segment that was just enrolled.
pub open spec fn is_enrolled_row(
    row: UploadMissingSegment,
    id: i64,
    session: i64,
    place: int,
    request: EnrollmentRequest,
) -> bool {
    &&& row.status@ == "pending"@
    &&& row.last_error matches Some(text) && text@ == AWAITING_UPLOAD@
    &&& row.segment_order == place
    &&& row == (UploadMissingSegment {
        id,
        live_streamer_id: request.live_streamer_id,
        streamer_info_id: request.streamer_info_id,
        upload_session_id: Some(session),
        aid: None,
        file_path: request.file_path,
        danmaku_file_path: request.danmaku_file_path,
        segment_order: row.segment_order,
        status: row.status,
        attempts: 0,
        line_index: 0,
        next_retry_at: request.now,
        last_error: row.last_error,
        created_at: request.now,
        updated_at: request.now,
        normalized_file_path: Some(request.normalized_file_path),
        lifecycle_version: 2,
        video_json: None,
        total_bytes: Some(stored_size(request.total_bytes)),
        uploaded_bytes: 0,
        current_line: None,
        upload_started_at: None,
        last_progress_at: None,
        attempt_token: None,
        attempt_phase: None,
        phase_started_at: None,
        last_heartbeat_at: None,
        line_source: None,
        last_chunk_index: None,
        last_chunk_started_at: None,
        last_chunk_error: None,
    })
}

/// Whether the session at `at` of `after` is the one for a segment: the newest open one of its
/// broadcast, else the newest open one of its room within the recovery window, which goes on with
/// this broadcast, else a new one with nothing published.
pub open spec fn session_taken(
    before: EnrollmentLedger,
    after: EnrollmentLedger,
    new_id: i64,
    request: EnrollmentRequest,
    at: int,
) -> bool {
    let same = |r: SessionRow| same_broadcast(r, request);
    let recent = |r: SessionRow| recent_enough(r, request);
    if exists|i: int| 0 <= i < before.sessions@.len() && same(#[trigger] before.sessions@[i]) {
        &&& newest_where(before.sessions@, same, at)
        &&& after.sessions@ == before.sessions@
        &&& after.snapshots@ == before.snapshots@
    } else if exists|i: int|
        0 <= i < before.sessions@.len() && recent(#[trigger] before.sessions@[i]) {
        &&& newest_where(before.sessions@, recent, at)
        &&& after.sessions@ == before.sessions@.update(
            at,
            SessionRow {
                streamer_info_id: request.streamer_info_id,
                updated_at: request.now,
                ..before.sessions@[at]
            },
        )
        &&& after.snapshots@ == before.snapshots@
    } else {
        &&& at == before.sessions@.len()
        &&& after.sessions@ == before.sessions@.push(
            SessionRow {
                id: new_id,
                live_streamer_id: request.live_streamer_id,
                streamer_info_id: request.streamer_info_id,
                finalized: false,
                updated_at: request.now,
            },
        )
        &&& after.snapshots@.len() == before.snapshots@.len() + 1
        &&& after.snapshots@ == before.snapshots@.push(after.snapshots@.last())
        &&& opt_view(after.snapshots@.last()) == Some(NO_PARTS@)
    }
}

/// Whether `enrollment` tells of the row that a segment already had.
pub open spec fn tells_of_row(
    enrollment: SegmentEnrollment,
    row: UploadMissingSegment,
    request: EnrollmentRequest,
) -> bool {
    &&& enrollment.duplicate
    &&& enrollment.missing_id == row.id
    &&& Some(enrollment.upload_session_id) == row.upload_session_id
    &&& enrollment.segment_order == row.segment_order
    &&& enrollment.normalized_file_path == request.normalized_file_path
    &&& enrollment.total_bytes == (match row.total_bytes {
        Some(bytes) if bytes >= 0 => bytes as int,
        _ => request.total_bytes as int,
    })
    &&& enrollment.segment_id is None
}

/// Whether `after` and `enrollment` are what giving a segment a row of its own makes of `rows`: it
/// gets the number `next_id` and a new place of `session`, which published `parts`.
pub open spec fn places(
    rows: Seq<UploadMissingSegment>,
    after: Seq<UploadMissingSegment>,
    next_id: i64,
    session: i64,
    parts: Option<nat>,
    request: EnrollmentRequest,
    enrollment: SegmentEnrollment,
) -> bool {
    &&& enrollment.upload_session_id == session
    &&& enrollment.segment_order == new_place(rows, session, parts)
    &&& !enrollment.duplicate
    &&& enrollment.missing_id == next_id
    &&& enrollment.normalized_file_path == request.normalized_file_path
    &&& enrollment.total_bytes == request.total_bytes
    &&& enrollment.segment_id == request.segment_id
    &&& after.len() == rows.len() + 1
    &&& after == rows.push(after.last())
    &&& is_enrolled_row(
        after.last(),
        next_id,
        session,
        enrollment.segment_order as int,
        request,
    )
}

/// Whether `parts` is what a stored snapshot lists; an empty one lists none.
pub open spec fn lists(snapshot: Option<Seq<char>>, parts: Option<nat>) -> bool {
    &&& parts == published_parts(snapshot)
    &&& snapshot == Some(NO_PARTS@) ==> parts == Some(0nat)
}

/// Whether `after` and `enrollment` are what enrolling a segment makes of `before`: a file that
/// has a row keeps it and nothing changes; any other gets a row of its own, at a new place of its
/// session.
pub open spec fn enrolls(
    before: EnrollmentLedger,
    after: EnrollmentLedger,
    next_id: i64,
    new_session_id: i64,
    request: EnrollmentRequest,
    enrollment: SegmentEnrollment,
) -> bool {
    let path = request.normalized_file_path@;
    if has_row(before.rows@, request.live_streamer_id, path) {
        &&& after == before
        &&& exists|at: int| #[trigger]
            first_row_of(before.rows@, request.live_streamer_id, path, at) && tells_of_row(
                enrollment,
                before.rows@[at],
                request,
            )
    } else {
        exists|at: int|
            {
                let snapshot = opt_view(after.snapshots@[at]);
                &&& #[trigger] session_taken(before, after, new_session_id, request, at)
                &&& 0 <= at < after.sessions@.len()
                &&& lists(snapshot, published_parts(snapshot))
                &&& places(
                    before.rows@,
                    after.rows@,
                    next_id,
                    after.sessions@[at].id,
                    published_parts(snapshot),
                    request,
                    enrollment,
                )
            }
    }
}

impl EnrollmentLedger {
    /// Whether the parts of a ledger fit together: every session has a place for its snapshot.
    pub open spec fn wf(self) -> bool {
        self.sessions@.len() == self.snapshots@.len()
    }

    fn find_row(&self, room: i64, path: &str) -> (found: Option<usize>)
        ensures
            match found {
                Some(at) => first_row_of(self.rows@, room, path@, at as int),
                None => !has_row(self.rows@, room, path@),
            },
    {
        let mut i: usize = 0;
        while i < self.rows.len()
            invariant
                i <= self.rows.len(),
                forall|k: int| 0 <= k < i ==> !is_row_of(#[trigger] self.rows@[k], room, path@),
            decreases self.rows.len() - i,
        {
            let row: &UploadMissingSegment = &self.rows[i];
            let same_path: bool = match &row.normalized_file_path {
                Some(p) => str_eq(p.as_str(), path),
                None => false,
            };
            if row.live_streamer_id == room && row.lifecycle_version == 2 && same_path {
                assert(first_row_of(self.rows@, room, path@, i as int));
                return Some(i);
            }
            i = i + 1;
        }
        None
    }

    fn highest_place(&self, session: i64) -> (most: Option<i64>)
        ensures
            most == highest_place(self.rows@, session),
    {
        let mut most: Option<i64> = None;
        let mut i: usize = 0;
        while i < self.rows.len()
            invariant
                i <= self.rows.len(),
                most == highest_place(self.rows@.take(i as int), session),
            decreases self.rows.len() - i,
        {
            assert(self.rows@.take(i + 1).drop_last() =~= self.rows@.take(i as int));
            let row: &UploadMissingSegment = &self.rows[i];
            let placed: bool = match row.upload_session_id {
                Some(id) => id == session && row.lifecycle_version == 2,
                None => false,
            };
            if placed {
                most =
                match most {
                    Some(order) => if order >= row.segment_order {
                        Some(order)
                    } else {
                        Some(row.segment_order)
                    },
                    None => Some(row.segment_order),
                };
            }
            i = i + 1;
        }
        assert(self.rows@.take(i as int) =~= self.rows@);
        most
    }

    /// Takes the session for a segment, and tells its position.
    pub fn find_or_create_session(
        &mut self,
        new_session_id: i64,
        request: &EnrollmentRequest,
    ) -> (at: usize)
        requires
            old(self).wf(),
        ensures
            final(self).wf(),
            final(self).rows == old(self).rows,
            at < final(self).sessions@.len(),
            session_taken(*old(self), *final(self), new_session_id, *request, at as int),
    {
        let (same, recent): (Option<usize>, Option<usize>) = newest_sessions(
            &self.sessions,
            request,
        );
        match same {
            Some(at) => {
                return at;
            },
            None => {},
        }
        match recent {
            Some(at) => {
                let mut row: SessionRow = self.sessions[at];
                row.streamer_info_id = request.streamer_info_id;
                row.updated_at = request.now;
                self.sessions.set(at, row);
                at
            },
            None => {
                let at: usize = self.sessions.len();
                self.sessions.push(
                    SessionRow {
                        id: new_session_id,
                        live_streamer_id: request.live_streamer_id,
                        streamer_info_id: request.streamer_info_id,
                        finalized: false,
                        updated_at: request.now,
                    },
                );
                self.snapshots.push(Some(own(NO_PARTS)));
                at
            },
        }
    }

    /// Gives a segment a row of its own, under the number `next_id`, at a new place of the session
    /// at `at`, which published `parts`.
    pub fn place_segment(
        &mut self,
        next_id: i64,
        at: usize,
        parts: Option<usize>,
        request: &EnrollmentRequest,
    ) -> (enrollment: SegmentEnrollment)
        requires
            at < old(self).sessions@.len(),
        ensures
            final(self).sessions == old(self).sessions,
            final(self).snapshots == old(self).snapshots,
            places(
                old(self).rows@,
                final(self).rows@,
                next_id,
                old(self).sessions@[at as int].id,
                count_view(parts),
                *request,
                enrollment,
            ),
    {
        let ghost before = self.rows@;
        let session: i64 = self.sessions[at].id;
        let place: i64 = enrolled_order(self.highest_place(session), baseline_count(parts));
        let enrollment: SegmentEnrollment = new_enrollment(next_id, session, place, request);
        self.rows.push(
            UploadMissingSegment {
                id: next_id,
                live_streamer_id: request.live_streamer_id,
                streamer_info_id: request.streamer_info_id,
                upload_session_id: Some(session),
                aid: None,
                file_path: request.file_path.clone(),
                danmaku_file_path: opt_own(&request.danmaku_file_path),
                segment_order: place,
                status: own("pending"),
                attempts: 0,
                line_index: 0,
                next_retry_at: request.now,
                last_error: Some(own(AWAITING_UPLOAD)),
                created_at: request.now,
                updated_at: request.now,
                normalized_file_path: Some(request.normalized_file_path.clone()),
                lifecycle_version: 2,
                video_json: None,
                total_bytes: Some(stored_total_bytes(request.total_bytes)),
                uploaded_bytes: 0,
                current_line: None,
                upload_started_at: None,
                last_progress_at: None,
                attempt_token: None,
                attempt_phase: None,
                phase_started_at: None,
                last_heartbeat_at: None,
                line_source: None,
                last_chunk_index: None,
                last_chunk_started_at: None,
                last_chunk_error: None,
            },
        );
        assert(self.rows@ =~= before.push(self.rows@.last()));
        enrollment
    }

    /// Enrolls a segment. A row that is added gets the number `next_id`, a session that is added
    /// the number `new_session_id`.
    pub fn enroll_in_database(
        &mut self,
        next_id: i64,
        new_session_id: i64,
        request: &EnrollmentRequest,
    ) -> (enrollment: SegmentEnrollment)
        requires
            old(self).wf(),
            forall|i: int|
                0 <= i < old(self).rows@.len() && is_row_of(
                    #[trigger] old(self).rows@[i],
                    request.live_streamer_id,
                    request.normalized_file_path@,
                ) ==> old(self).rows@[i].upload_session_id is Some,
        ensures
            final(self).wf(),
            enrolls(*old(self), *final(self), next_id, new_session_id, *request, enrollment),
    {
        let ghost before = *self;
        match self.find_row(request.live_streamer_id, request.normalized_file_path.as_str()) {
            Some(at) => {
                assert(first_row_of(
                    before.rows@,
                    request.live_streamer_id,
                    request.normalized_file_path@,
                    at as int,
                ));
                let row: &UploadMissingSegment = &self.rows[at];
                let session: i64 = match row.upload_session_id {
                    Some(id) => id,
                    None => 0,
                };
                return existing_enrollment(
                    row.id,
                    session,
                    row.segment_order,
                    row.total_bytes,
                    None,
                    request,
                );
            },
            None => {},
        }
        let at: usize = self.find_or_create_session(new_session_id, request);
        let parts: Option<usize> = read_snapshot(&self.snapshots[at]);
        let enrollment: SegmentEnrollment = self.place_segment(next_id, at, parts, request);
        assert(session_taken(before, *self, new_session_id, *request, at as int));
        enrollment
    }
}

/// A file is enrolled once: a second request for it changes nothing and is told the row, the
/// session and the place that the first one got.
pub proof fn law_a_file_is_enrolled_once(
    before: EnrollmentLedger,
    between: EnrollmentLedger,
    after: EnrollmentLedger,
    first: EnrollmentRequest,
    second: EnrollmentRequest,
    one: SegmentEnrollment,
    other: SegmentEnrollment,
    ids: (i64, i64, i64, i64),
)
    requires
        first.live_streamer_id == second.live_streamer_id,
        first.normalized_file_path@ == second.normalized_file_path@,
        enrolls(before, between, ids.0, ids.1, first, one),
        enrolls(between, after, ids.2, ids.3, second, other),
    ensures
        after == between,
        other.duplicate,
        other.missing_id == one.missing_id,
        other.upload_session_id == one.upload_session_id,
        other.segment_order == one.segment_order,
{
    let room = first.live_streamer_id;
    let path = first.normalized_file_path@;
    let known = if has_row(before.rows@, room, path) {
        choose|at: int| #[trigger]
            first_row_of(before.rows@, room, path, at) && tells_of_row(one, before.rows@[at], first)
    } else {
        let n = before.rows@.len() as int;
        assert forall|k: int| 0 <= k < n implies !is_row_of(
            #[trigger] between.rows@[k],
            room,
            path,
        ) by {
            assert(between.rows@[k] == before.rows@[k]);
            if is_row_of(before.rows@[k], room, path) {
                lemma_some_row_is_first(before.rows@, room, path, k);
            }
        }
        n
    };
    assert(first_row_of(between.rows@, room, path, known));
    let found = choose|at: int| #[trigger]
        first_row_of(between.rows@, room, path, at) && tells_of_row(
            other,
            between.rows@[at],
            second,
        );
    assert(found == known) by {
        if found < known {
            assert(is_row_of(between.rows@[found], room, path));
        } else if known < found {
            assert(is_row_of(between.rows@[known], room, path));
        }
    }
}

proof fn lemma_some_row_is_first(
    rows: Seq<UploadMissingSegment>,
    room: i64,
    path: Seq<char>,
    k: int,
)
    requires
        0 <= k < rows.len(),
        is_row_of(rows[k], room, path),
    ensures
        has_row(rows, room, path),
    decreases k,
{
    if exists|j: int| 0 <= j < k && is_row_of(#[trigger] rows[j], room, path) {
        let j = choose|j: int| 0 <= j < k && is_row_of(#[trigger] rows[j], room, path);
        lemma_some_row_is_first(rows, room, path, j);
    } else {
        assert(first_row_of(rows, room, path, k));
    }
}

/// Whether no two segments share a place of a session.
pub open spec fn places_are_distinct(rows: Seq<UploadMissingSegment>) -> bool {
    forall|i: int, j: int, session: i64|
        0 <= i < j < rows.len() && is_placed(rows[i], session) && is_placed(rows[j], session)
            ==> rows[i].segment_order != rows[j].segment_order
}

/// Enrolling gives no place of a session to two segments, as long as there are places left.
pub proof fn law_no_place_is_given_twice(
    before: EnrollmentLedger,
    after: EnrollmentLedger,
    next_id: i64,
    new_session_id: i64,
    request: EnrollmentRequest,
    enrollment: SegmentEnrollment,
)
    requires
        places_are_distinct(before.rows@),
        forall|i: int|
            0 <= i < before.rows@.len() ==> (#[trigger] before.rows@[i]).segment_order < i64::MAX,
        enrolls(before, after, next_id, new_session_id, request, enrollment),
    ensures
        places_are_distinct(after.rows@),
{
    if !has_row(before.rows@, request.live_streamer_id, request.normalized_file_path@) {
        let n = before.rows@.len() as int;
        assert forall|i: int, j: int, session: i64|
            0 <= i < j < after.rows@.len() && is_placed(after.rows@[i], session) && is_placed(
                after.rows@[j],
                session,
            ) implies after.rows@[i].segment_order != after.rows@[j].segment_order by {
            assert(after.rows@[i] == before.rows@[i]);
            if j < n {
                assert(after.rows@[j] == before.rows@[j]);
            } else {
                lemma_highest_place(before.rows@, session, i);
                lemma_highest_is_somewhere(before.rows@, session);
            }
        }
    }
}

/// A new segment is placed after every segment of its session that has a place, as long as there
/// are places left, and after every part that the session published.
pub proof fn law_new_place_is_after_all(
    rows: Seq<UploadMissingSegment>,
    session: i64,
    parts: Option<nat>,
    i: int,
)
    requires
        0 <= i < rows.len(),
        is_placed(rows[i], session),
        forall|k: int| 0 <= k < rows.len() ==> (#[trigger] rows[k]).segment_order < i64::MAX,
    ensures
        new_place(rows, session, parts) > rows[i].segment_order,
        parts is Some && parts->0 <= i64::MAX ==> new_place(rows, session, parts) >= parts->0,
{
    lemma_highest_place(rows, session, i);
    lemma_highest_is_somewhere(rows, session);
}

proof fn lemma_highest_place(rows: Seq<UploadMissingSegment>, session: i64, i: int)
    requires
        0 <= i < rows.len(),
        is_placed(rows[i], session),
    ensures
        highest_place(rows, session) matches Some(most) && most >= rows[i].segment_order,
    decreases rows.len(),
{
    let rest = rows.drop_last();
    if i < rest.len() {
        assert(rest[i] == rows[i]);
        lemma_highest_place(rest, session, i);
    }
}

proof fn lemma_highest_is_somewhere(rows: Seq<UploadMissingSegment>, session: i64)
    requires
        highest_place(rows, session) is Some,
    ensures
        exists|k: int|
            0 <= k < rows.len() && (#[trigger] rows[k]).segment_order == highest_place(
                rows,
                session,
            )->0,
    decreases rows.len(),
{
    let rest = rows.drop_last();
    let last = rows.len() - 1;
    assert(rows[last] == rows.last());
    match highest_place(rest, session) {
        Some(most) => {
            lemma_highest_is_somewhere(rest, session);
            let k = choose|k: int| 0 <= k < rest.len() && (#[trigger] rest[k]).segment_order == most;
            assert(rows[k] == rest[k]);
        },
        None => {},
    }
}

} // verus!
