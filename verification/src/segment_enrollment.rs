//! Enrolling finished segments for upload: the path they are known by, the session and the place
//! they get, and what happens while the database does not answer.
use crate::chance::random_u128;
use crate::text::{
    hex_spec, hex_text, opt_view, own, signed_decimal, signed_decimal_text, str_eq,
};
use crate::time::{Span, Timestamp, NANOS_PER_MILLI, NANOS_PER_SEC};
use vstd::prelude::*;
use vstd::string::*;

pub mod ledger;

verus! {

/// Where manifests wait while the database does not answer.
pub const DEFAULT_OUTBOX_DIRECTORY: &'static str = "data/upload-enrollment-outbox";

/// One component of a path.
#[derive(Debug, PartialEq, Eq)]
pub enum PathComponent {
    Prefix(String),
    RootDir,
    CurDir,
    ParentDir,
    Normal(String),
}

impl Clone for PathComponent {
    fn clone(&self) -> (copied: PathComponent)
        ensures
            copied == *self,
    {
        match self {
            PathComponent::Prefix(name) => PathComponent::Prefix(name.clone()),
            PathComponent::RootDir => PathComponent::RootDir,
            PathComponent::CurDir => PathComponent::CurDir,
            PathComponent::ParentDir => PathComponent::ParentDir,
            PathComponent::Normal(name) => PathComponent::Normal(name.clone()),
        }
    }
}

/// A path with one more component worked in: `.` is left out, `..` takes the last name away
/// where there is one.
pub open spec fn worked_in(done: Seq<PathComponent>, next: PathComponent) -> Seq<PathComponent> {
    match next {
        PathComponent::CurDir => done,
        PathComponent::ParentDir => if done.len() > 0 && done.last() is Normal {
            done.drop_last()
        } else {
            done
        },
        _ => done.push(next),
    }
}

/// A path without `.` and `..`.
pub open spec fn normalized(path: Seq<PathComponent>) -> Seq<PathComponent>
    decreases path.len(),
{
    if path.len() == 0 {
        Seq::empty()
    } else {
        worked_in(normalized(path.drop_last()), path.last())
    }
}

/// The components of the path that a segment is known by: absolute, and without `.` and `..`.
/// A relative `path` is taken from `current_dir`.
pub fn normalize_segment_path(
    current_dir: &Vec<PathComponent>,
    path: &Vec<PathComponent>,
    is_absolute: bool,
) -> (result: Vec<PathComponent>)
    ensures
        result@ == normalized(if is_absolute {
            path@
        } else {
            current_dir@ + path@
        }),
{
    let mut result: Vec<PathComponent> = Vec::new();
    if !is_absolute {
        work_in_all(&mut result, current_dir);
        assert(Seq::<PathComponent>::empty() + current_dir@ =~= current_dir@);
        work_in_all(&mut result, path);
        proof {
            lemma_folded_is_normalized(current_dir@);
            lemma_folded_append(Seq::empty(), current_dir@, path@);
            lemma_folded_is_normalized(current_dir@ + path@);
        }
    } else {
        work_in_all(&mut result, path);
        proof {
            lemma_folded_is_normalized(path@);
        }
    }
    result
}

/// `done` with the components of `path` worked in one after the other.
spec fn folded(done: Seq<PathComponent>, path: Seq<PathComponent>) -> Seq<PathComponent>
    decreases path.len(),
{
    if path.len() == 0 {
        done
    } else {
        worked_in(folded(done, path.drop_last()), path.last())
    }
}

proof fn lemma_folded_is_normalized(path: Seq<PathComponent>)
    ensures
        folded(Seq::empty(), path) == normalized(path),
    decreases path.len(),
{
    if path.len() > 0 {
        lemma_folded_is_normalized(path.drop_last());
    }
}

proof fn lemma_folded_append(
    done: Seq<PathComponent>,
    first: Seq<PathComponent>,
    second: Seq<PathComponent>,
)
    ensures
        folded(folded(done, first), second) == folded(done, first + second),
    decreases second.len(),
{
    if second.len() == 0 {
        assert(first + second =~= first);
    } else {
        assert((first + second).drop_last() =~= first + second.drop_last());
        lemma_folded_append(done, first, second.drop_last());
    }
}

fn work_in_all(result: &mut Vec<PathComponent>, path: &Vec<PathComponent>)
    ensures
        final(result)@ == folded(old(result)@, path@),
{
    let mut i: usize = 0;
    let ghost start = result@;
    assert(path@.take(0) =~= Seq::empty());
    while i < path.len()
        invariant
            i <= path.len(),
            result@ == folded(start, path@.take(i as int)),
        decreases path.len() - i,
    {
        assert(path@.take(i + 1).drop_last() =~= path@.take(i as int));
        assert(path@.take(i + 1).last() == path@[i as int]);
        match &path[i] {
            PathComponent::CurDir => {},
            PathComponent::ParentDir => {
                if result.len() > 0 {
                    let named: bool = match &result[result.len() - 1] {
                        PathComponent::Normal(_) => true,
                        _ => false,
                    };
                    if named {
                        let _ = result.pop();
                    }
                }
            },
            component => {
                result.push(component.clone());
            },
        }
        i = i + 1;
    }
    assert(path@.take(i as int) =~= path@);
}

/// A normalized path holds neither `.` nor `..`, and normalizing it again changes nothing.
pub proof fn law_normalizing_is_final(path: Seq<PathComponent>)
    ensures
        forall|i: int|
            0 <= i < normalized(path).len() ==> !((#[trigger] normalized(path)[i]) is CurDir) && !(
            normalized(path)[i] is ParentDir),
        normalized(normalized(path)) == normalized(path),
    decreases path.len(),
{
    lemma_no_dots(path);
    lemma_clean_is_fixed(normalized(path));
}

proof fn lemma_no_dots(path: Seq<PathComponent>)
    ensures
        forall|i: int|
            0 <= i < normalized(path).len() ==> !((#[trigger] normalized(path)[i]) is CurDir) && !(
            normalized(path)[i] is ParentDir),
    decreases path.len(),
{
    if path.len() > 0 {
        lemma_no_dots(path.drop_last());
        let before = normalized(path.drop_last());
        assert forall|i: int| 0 <= i < normalized(path).len() implies !((#[trigger] normalized(
            path,
        )[i]) is CurDir) && !(normalized(path)[i] is ParentDir) by {
            if i < before.len() {
                assert(normalized(path)[i] == before[i]);
            }
        }
    }
}

proof fn lemma_clean_is_fixed(path: Seq<PathComponent>)
    requires
        forall|i: int| 0 <= i < path.len() ==> !((#[trigger] path[i]) is CurDir) && !(
        path[i] is ParentDir),
    ensures
        normalized(path) == path,
    decreases path.len(),
{
    if path.len() > 0 {
        let front = path.drop_last();
        assert forall|i: int| 0 <= i < front.len() implies !((#[trigger] front[i]) is CurDir) && !(
        front[i] is ParentDir) by {
            assert(front[i] == path[i]);
        }
        lemma_clean_is_fixed(front);
        assert(!(path[path.len() - 1] is CurDir) && !(path[path.len() - 1] is ParentDir));
        assert(front.push(path.last()) =~= path);
    } else {
        assert(normalized(path) =~= path);
    }
}

/// A normalized path never climbs above the root it starts at.
pub proof fn law_root_is_never_left(path: Seq<PathComponent>)
    requires
        path.len() > 0,
        path[0] is RootDir,
    ensures
        normalized(path).len() > 0,
        normalized(path)[0] is RootDir,
    decreases path.len(),
{
    if path.len() > 1 {
        let front = path.drop_last();
        assert(front[0] == path[0]);
        law_root_is_never_left(front);
    } else {
        assert(path.drop_last() =~= Seq::empty());
        assert(normalized(path.drop_last()) =~= Seq::empty());
        assert(path.last() == path[0]);
    }
}

/// A segment that is to be enrolled.
#[derive(Debug)]
pub struct EnrollmentRequest {
    pub live_streamer_id: i64,
    pub streamer_info_id: i64,
    pub file_path: String,
    pub normalized_file_path: String,
    pub danmaku_file_path: Option<String>,
    pub total_bytes: u64,
    pub now: Timestamp,
    pub recovery_window_minutes: i64,
    pub segment_id: Option<String>,
}

/// The place a segment has got.
#[derive(Debug, PartialEq, Eq)]
pub struct SegmentEnrollment {
    pub missing_id: i64,
    pub upload_session_id: i64,
    pub segment_order: i64,
    pub normalized_file_path: String,
    pub total_bytes: u64,
    pub duplicate: bool,
    pub segment_id: Option<String>,
}

/// What became of a request to enroll a segment.
#[derive(Debug, PartialEq, Eq)]
pub enum EnrollmentOutcome {
    Enrolled(SegmentEnrollment),
    Outboxed(String),
    FinalizedRejected { session_id: i64 },
    SourceMissing,
}

/// Where enrollments are kept while the database does not answer.
#[derive(Debug)]
pub struct EnrollmentStore {
    outbox_directory: String,
}

impl EnrollmentStore {
    /// The directory of the outbox.
    pub closed spec fn directory(&self) -> Seq<char> {
        self.outbox_directory@
    }

    /// A store whose outbox is `outbox_directory`.
    pub fn new(outbox_directory: String) -> (store: EnrollmentStore)
        ensures
            store.directory() == outbox_directory@,
    {
        EnrollmentStore { outbox_directory }
    }

    /// The store of a running server.
    pub fn production() -> (store: EnrollmentStore)
        ensures
            store.directory() == DEFAULT_OUTBOX_DIRECTORY@,
    {
        EnrollmentStore::new(own(DEFAULT_OUTBOX_DIRECTORY))
    }

    /// The directory of the outbox.
    pub fn outbox_directory(&self) -> (directory: &str)
        ensures
            directory@ == self.directory(),
    {
        self.outbox_directory.as_str()
    }
}

/// What to do after an attempt to enroll a segment failed.
#[derive(Debug, Clone, Copy, PartialEq, Eq)]
pub enum EnrollStep {
    RetryAfter(Span),
    Outbox,
}

/// The number of times an enrollment is tried again before it goes to the outbox.
pub const ENROLLMENT_RETRIES: usize = 3;

/// Milliseconds before the retry that follows the first, second and third failure.
pub open spec fn enrollment_delay_ms(failures: int) -> int {
    if failures == 1 {
        20
    } else if failures == 2 {
        50
    } else {
        100
    }
}

/// What to do after `failures` attempts in a row failed to enroll a segment.
pub fn after_enrollment_failure(failures: usize) -> (step: EnrollStep)
    requires
        failures >= 1,
    ensures
        failures <= ENROLLMENT_RETRIES ==> (step matches EnrollStep::RetryAfter(delay) && delay@
            == enrollment_delay_ms(failures as int) * NANOS_PER_MILLI),
        failures > ENROLLMENT_RETRIES ==> step is Outbox,
{
    if failures == 1 {
        EnrollStep::RetryAfter(Span::from_millis(20))
    } else if failures == 2 {
        EnrollStep::RetryAfter(Span::from_millis(50))
    } else if failures == 3 {
        EnrollStep::RetryAfter(Span::from_millis(100))
    } else {
        EnrollStep::Outbox
    }
}

/// The number of parts a session already published, as far as it is known.
pub fn baseline_count(published_parts: Option<usize>) -> (count: i64)
    ensures
        count == (match published_parts {
            Some(parts) if parts <= i64::MAX => parts as int,
            _ => 0,
        }),
{
    match published_parts {
        Some(parts) => if parts as u64 <= i64::MAX as u64 {
            parts as i64
        } else {
            0
        },
        None => 0,
    }
}

/// How many elements the JSON array in a text has, as `serde_json` reads it; nothing where the text
/// is no JSON array.
pub uninterp spec fn listed_parts(text: Seq<char>) -> Option<nat>;

/// The snapshot of a session that has published nothing.
pub const NO_PARTS: &'static str = "[]";

/// A count as a mathematical value.
pub open spec fn count_view(count: Option<usize>) -> Option<nat> {
    match count {
        Some(n) => Some(n as nat),
        None => None,
    }
}

/// Calls `serde_json::from_str` for a `Vec<serde_json::Value>` and takes its length. Which texts are
/// arrays, and of what length, is named, but for the empty array, whose length is stated.
#[verifier::external_body]
fn count_parts(videos_json: &str) -> (count: Option<usize>)
    ensures
        count_view(count) == listed_parts(videos_json@),
        videos_json@ == NO_PARTS@ ==> count == Some(0usize),
{
    serde_json::from_str::<Vec<serde_json::Value>>(videos_json).ok().map(|parts| parts.len())
}

/// How many parts the stored snapshot of a session lists, where there is one and it can be read.
pub open spec fn published_parts(snapshot: Option<Seq<char>>) -> Option<nat> {
    match snapshot {
        Some(text) => listed_parts(text),
        None => None,
    }
}

/// How many parts the stored snapshot of a session lists, where there is one and it can be read.
pub fn read_snapshot(snapshot: &Option<String>) -> (parts: Option<usize>)
    ensures
        count_view(parts) == published_parts(opt_view(*snapshot)),
        opt_view(*snapshot) == Some(NO_PARTS@) ==> parts == Some(0usize),
{
    match snapshot {
        Some(text) => count_parts(text.as_str()),
        None => None,
    }
}

/// The order after the highest order given out, or zero.
pub open spec fn order_after(max_order: Option<i64>) -> int {
    match max_order {
        Some(order) => if order < i64::MAX {
            order + 1
        } else {
            i64::MAX as int
        },
        None => 0,
    }
}

/// The place of a new segment: after every segment that has a place, and after every part that
/// was published before places were given out.
pub fn enrolled_order(max_order: Option<i64>, baseline: i64) -> (order: i64)
    ensures
        order == (if order_after(max_order) >= baseline {
            order_after(max_order)
        } else {
            baseline as int
        }),
{
    let next: i64 = match max_order {
        Some(highest) => if highest < i64::MAX {
            highest + 1
        } else {
            i64::MAX
        },
        None => 0,
    };
    if next >= baseline {
        next
    } else {
        baseline
    }
}

/// The size of a segment as the database keeps it.
pub fn stored_total_bytes(total_bytes: u64) -> (stored: i64)
    ensures
        stored == (if total_bytes <= i64::MAX {
            total_bytes as int
        } else {
            i64::MAX as int
        }),
{
    if total_bytes <= i64::MAX as u64 {
        total_bytes as i64
    } else {
        i64::MAX
    }
}

/// The enrollment that a segment already had.
pub fn existing_enrollment(
    missing_id: i64,
    upload_session_id: i64,
    segment_order: i64,
    stored_bytes: Option<i64>,
    stored_segment_id: Option<String>,
    request: &EnrollmentRequest,
) -> (enrollment: SegmentEnrollment)
    ensures
        enrollment.missing_id == missing_id,
        enrollment.upload_session_id == upload_session_id,
        enrollment.segment_order == segment_order,
        enrollment.normalized_file_path == request.normalized_file_path,
        enrollment.total_bytes == (match stored_bytes {
            Some(bytes) if bytes >= 0 => bytes as int,
            _ => request.total_bytes as int,
        }),
        enrollment.duplicate,
        enrollment.segment_id == stored_segment_id,
{
    let total_bytes: u64 = match stored_bytes {
        Some(bytes) => if bytes >= 0 {
            bytes as u64
        } else {
            request.total_bytes
        },
        None => request.total_bytes,
    };
    SegmentEnrollment {
        missing_id,
        upload_session_id,
        segment_order,
        normalized_file_path: request.normalized_file_path.clone(),
        total_bytes,
        duplicate: true,
        segment_id: stored_segment_id,
    }
}

/// The enrollment of a segment that got a row of its own.
pub fn new_enrollment(
    missing_id: i64,
    upload_session_id: i64,
    segment_order: i64,
    request: &EnrollmentRequest,
) -> (enrollment: SegmentEnrollment)
    ensures
        enrollment.missing_id == missing_id,
        enrollment.upload_session_id == upload_session_id,
        enrollment.segment_order == segment_order,
        enrollment.normalized_file_path == request.normalized_file_path,
        enrollment.total_bytes == request.total_bytes,
        !enrollment.duplicate,
        enrollment.segment_id == request.segment_id,
{
    SegmentEnrollment {
        missing_id,
        upload_session_id,
        segment_order,
        normalized_file_path: request.normalized_file_path.clone(),
        total_bytes: request.total_bytes,
        duplicate: false,
        segment_id: crate::text::opt_own(&request.segment_id),
    }
}

/// What the choice of a session reads of an upload session.
#[derive(Debug, Clone, Copy)]
pub struct SessionRow {
    pub id: i64,
    pub live_streamer_id: i64,
    pub streamer_info_id: i64,
    pub finalized: bool,
    pub updated_at: Timestamp,
}

/// The session a segment belongs to.
#[derive(Debug, Clone, Copy, PartialEq, Eq, Structural)]
pub enum SessionChoice {
    /// The session of the same broadcast.
    Reuse { id: i64 },
    /// A session of the same room that is recent enough: it goes on with this broadcast.
    Adopt { id: i64 },
    /// No session fits: one is created.
    Create,
}

/// Whether `a` was updated after `b`, or at the same time with a higher id.
pub open spec fn newer(a: SessionRow, b: SessionRow) -> bool {
    a.updated_at@ > b.updated_at@ || (a.updated_at@ == b.updated_at@ && a.id > b.id)
}

/// Whether a session may take a segment of the same broadcast.
pub open spec fn same_broadcast(row: SessionRow, request: EnrollmentRequest) -> bool {
    row.live_streamer_id == request.live_streamer_id && row.streamer_info_id
        == request.streamer_info_id && !row.finalized
}

/// Whether a session may take a segment of another broadcast of the same room: it was updated
/// within the recovery window.
pub open spec fn recent_enough(row: SessionRow, request: EnrollmentRequest) -> bool {
    row.live_streamer_id == request.live_streamer_id && !row.finalized && row.updated_at@
        >= request.now@ - request.recovery_window_minutes * 60 * NANOS_PER_SEC
}

/// Whether `rows[at]` is the newest of those that `fits` admits.
pub open spec fn newest_where(
    rows: Seq<SessionRow>,
    fits: spec_fn(SessionRow) -> bool,
    at: int,
) -> bool {
    &&& 0 <= at < rows.len()
    &&& fits(rows[at])
    &&& forall|i: int| 0 <= i < rows.len() && fits(#[trigger] rows[i]) ==> !newer(rows[i], rows[at])
}

/// The newest open session of a segment's broadcast, and the newest open one of its room within
/// the recovery window.
pub(crate) fn newest_sessions(rows: &Vec<SessionRow>, request: &EnrollmentRequest) -> (found: (
    Option<usize>,
    Option<usize>,
))
    ensures
        match found.0 {
            Some(at) => newest_where(
                rows@,
                |r: SessionRow| same_broadcast(r, *request),
                at as int,
            ),
            None => forall|i: int|
                0 <= i < rows@.len() ==> !same_broadcast(#[trigger] rows@[i], *request),
        },
        match found.1 {
            Some(at) => newest_where(rows@, |r: SessionRow| recent_enough(r, *request), at as int),
            None => forall|i: int|
                0 <= i < rows@.len() ==> !recent_enough(#[trigger] rows@[i], *request),
        },
{
    let ghost same = |r: SessionRow| same_broadcast(r, *request);
    let ghost recent = |r: SessionRow| recent_enough(r, *request);
    let cutoff: i128 = request.now.nanos() - request.recovery_window_minutes as i128 * 60
        * 1_000_000_000;
    let mut best_same: Option<usize> = None;
    let mut best_recent: Option<usize> = None;
    let mut i: usize = 0;
    while i < rows.len()
        invariant
            i <= rows.len(),
            cutoff == request.now@ - request.recovery_window_minutes * 60 * NANOS_PER_SEC,
            same == (|r: SessionRow| same_broadcast(r, *request)),
            recent == (|r: SessionRow| recent_enough(r, *request)),
            match best_same {
                Some(at) => newest_where(rows@.take(i as int), same, at as int),
                None => forall|k: int| 0 <= k < i ==> !same_broadcast(#[trigger] rows@[k], *request),
            },
            match best_recent {
                Some(at) => newest_where(rows@.take(i as int), recent, at as int),
                None => forall|k: int| 0 <= k < i ==> !recent_enough(#[trigger] rows@[k], *request),
            },
        decreases rows.len() - i,
    {
        let row: SessionRow = rows[i];
        let open_here: bool = row.live_streamer_id == request.live_streamer_id && !row.finalized;
        let is_same: bool = open_here && row.streamer_info_id == request.streamer_info_id;
        let is_recent: bool = open_here && row.updated_at.nanos() >= cutoff;
        let ghost old_same = best_same;
        let ghost old_recent = best_recent;
        if is_same {
            best_same = newer_of(rows, best_same, i);
        }
        if is_recent {
            best_recent = newer_of(rows, best_recent, i);
        }
        proof {
            lemma_newest_step(rows@, same, old_same, best_same, i as int, is_same);
            lemma_newest_step(rows@, recent, old_recent, best_recent, i as int, is_recent);
        }
        i = i + 1;
    }
    assert(rows@.take(i as int) =~= rows@);
    (best_same, best_recent)
}

/// Whether `choice` is the session for a segment: the newest open one of its broadcast, else the
/// newest recent one of the room, else a new one.
pub open spec fn is_choice(
    rows: Seq<SessionRow>,
    request: EnrollmentRequest,
    choice: SessionChoice,
) -> bool {
    match choice {
        SessionChoice::Reuse { id } => exists|at: int|
            newest_where(rows, |r: SessionRow| same_broadcast(r, request), at) && (
            #[trigger] rows[at]).id == id,
        SessionChoice::Adopt { id } => (forall|i: int|
            0 <= i < rows.len() ==> !same_broadcast(#[trigger] rows[i], request)) && exists|at: int|
            newest_where(rows, |r: SessionRow| recent_enough(r, request), at) && (
            #[trigger] rows[at]).id == id,
        SessionChoice::Create => forall|i: int|
            0 <= i < rows.len() ==> !same_broadcast(#[trigger] rows[i], request) && !recent_enough(
                rows[i],
                request,
            ),
    }
}

/// The session for a segment: the newest open one of the same broadcast, else the newest open
/// one of the room within the recovery window, else a new one.
pub fn choose_session(rows: &Vec<SessionRow>, request: &EnrollmentRequest) -> (choice:
    SessionChoice)
    ensures
        is_choice(rows@, *request, choice),
{
    let (best_same, best_recent): (Option<usize>, Option<usize>) = newest_sessions(rows, request);
    match best_same {
        Some(at) => SessionChoice::Reuse { id: rows[at].id },
        None => match best_recent {
            Some(at) => SessionChoice::Adopt { id: rows[at].id },
            None => SessionChoice::Create,
        },
    }
}

/// The newer of the best row so far and row `i`.
fn newer_of(rows: &Vec<SessionRow>, best: Option<usize>, i: usize) -> (at: Option<usize>)
    requires
        i < rows.len(),
        best matches Some(b) ==> b < rows.len(),
    ensures
        at == (match best {
            Some(b) if !newer(rows@[i as int], rows@[b as int]) => best,
            _ => Some(i),
        }),
{
    match best {
        Some(b) => {
            let candidate: i128 = rows[i].updated_at.nanos();
            let current: i128 = rows[b].updated_at.nanos();
            if candidate > current || (candidate == current && rows[i].id > rows[b].id) {
                Some(i)
            } else {
                best
            }
        },
        None => Some(i),
    }
}

proof fn lemma_newest_step(
    rows: Seq<SessionRow>,
    fits: spec_fn(SessionRow) -> bool,
    before: Option<usize>,
    after: Option<usize>,
    i: int,
    fits_here: bool,
)
    requires
        0 <= i < rows.len(),
        fits_here == fits(rows[i]),
        match before {
            Some(at) => newest_where(rows.take(i), fits, at as int),
            None => forall|k: int| 0 <= k < i ==> !fits(#[trigger] rows[k]),
        },
        !fits_here ==> after == before,
        fits_here ==> after == (match before {
            Some(b) if !newer(rows[i], rows[b as int]) => before,
            _ => Some(i as usize),
        }),
        i <= usize::MAX,
    ensures
        match after {
            Some(at) => newest_where(rows.take(i + 1), fits, at as int),
            None => forall|k: int| 0 <= k < i + 1 ==> !fits(#[trigger] rows[k]),
        },
{
    let shorter = rows.take(i);
    let longer = rows.take(i + 1);
    match after {
        Some(at) => {
            assert(longer[at as int] == rows[at as int]);
            assert forall|k: int| 0 <= k < longer.len() && fits(#[trigger] longer[k]) implies !newer(
                longer[k],
                longer[at as int],
            ) by {
                if k < i {
                    assert(longer[k] == rows[k]);
                    match before {
                        Some(b) => {
                            assert(shorter[k] == rows[k]);
                            assert(shorter[b as int] == rows[b as int]);
                            assert(!newer(shorter[k], shorter[b as int]));
                        },
                        None => {
                            assert(!fits(rows[k]));
                        },
                    }
                } else {
                    assert(longer[k] == rows[i]);
                }
            }
        },
        None => {},
    }
}

/// The name of the outbox manifest for a request made `millis` milliseconds after the epoch.
pub open spec fn manifest_name_spec(millis: int, nonce: u128) -> Seq<char> {
    "enrollment-"@ + signed_decimal(millis) + "-"@ + hex_spec(nonce as nat, 32) + ".json"@
}

/// Whole milliseconds of a clock reading, rounded down.
pub open spec fn reading_millis(nanos: int) -> int {
    nanos / (NANOS_PER_MILLI as int)
}

/// The name of the outbox manifest for a request made at `now` under `nonce`.
pub fn manifest_name(now: Timestamp, nonce: u128) -> (name: String)
    ensures
        name@ == manifest_name_spec(reading_millis(now@), nonce),
{
    let nanos: i128 = now.nanos();
    let shifted: i128 = nanos + 8_334_601_228_800_000_000_000;
    let millis_up: i128 = shifted / 1_000_000;
    let millis: i128 = millis_up - 8_334_601_228_800_000;
    assert(millis == reading_millis(now@)) by {
        assert(shifted == nanos + 8_334_601_228_800_000 * 1_000_000);
        assert(shifted / 1_000_000 == nanos / 1_000_000 + 8_334_601_228_800_000) by {
            vstd::arithmetic::div_mod::lemma_hoist_over_denominator(
                nanos as int,
                8_334_601_228_800_000,
                1_000_000,
            );
        }
    }
    let mut name: String = own("enrollment-");
    let ms: String = signed_decimal_text(millis as i64);
    name.append(ms.as_str());
    name.append("-");
    let digits: String = hex_text(nonce, 32);
    name.append(digits.as_str());
    name.append(".json");
    name
}

/// A fresh name for the outbox manifest of a request made at `now`.
pub fn fresh_manifest_name(now: Timestamp) -> (name: String)
    ensures
        exists|nonce: u128| name@ == #[trigger] manifest_name_spec(reading_millis(now@), nonce),
{
    let nonce: u128 = random_u128();
    let name: String = manifest_name(now, nonce);
    assert(name@ == manifest_name_spec(reading_millis(now@), nonce));
    name
}

/// Whether a file of the outbox directory is a manifest.
pub fn is_manifest(extension: Option<&str>) -> (yes: bool)
    ensures
        yes == (extension matches Some(e) && e@ == "json"@),
{
    match extension {
        Some(e) => str_eq(e, "json"),
        None => false,
    }
}

/// How many manifests wait, and since when.
#[derive(Debug, Clone, Copy)]
pub struct OutboxHealth {
    pub count: u64,
    pub oldest: Option<Timestamp>,
}

impl Default for OutboxHealth {
    fn default() -> (health: OutboxHealth)
        ensures
            health.count == 0,
            health.oldest is None,
    {
        OutboxHealth { count: 0, oldest: None }
    }
}

impl OutboxHealth {
    /// Counts a manifest, which was written at `modified` where that is known.
    pub fn record(&mut self, modified: Option<Timestamp>)
        requires
            old(self).count < u64::MAX,
        ensures
            final(self).count == old(self).count + 1,
            final(self).oldest == (match (old(self).oldest, modified) {
                (Some(a), Some(b)) => if a@ <= b@ {
                    Some(a)
                } else {
                    Some(b)
                },
                (Some(a), None) => Some(a),
                (None, b) => b,
            }),
    {
        self.count = self.count + 1;
        self.oldest =
        match (self.oldest, modified) {
            (Some(a), Some(b)) => if a.at_or_before(&b) {
                Some(a)
            } else {
                Some(b)
            },
            (Some(a), None) => Some(a),
            (None, b) => b,
        };
    }
}

} // verus!
