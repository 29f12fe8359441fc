//! Which closed sessions are submitted, and what a scan reports of it.
use vstd::prelude::*;

use crate::order::{first_keys, key_ids, ordered_ids, sorted_keys, SortKey};
use crate::text::{opt_view, str_eq};
use crate::time::{Timestamp, NANOS_PER_SEC};

verus! {

/// How often a scan looks for sessions to submit.
pub const SCAN_INTERVAL_SECS: u64 = 60;

/// How long a session that waits for its segments is left alone.
pub const BLOCKED_RECHECK_SECS: u64 = 600;

/// How many submissions run at once.
pub const MAX_CONCURRENT_SUBMISSIONS: usize = 2;

/// How many sessions one scan takes.
pub const MAX_SCAN_CANDIDATES: usize = 128;

/// What a scan reads of a session.
pub struct SubmissionRow {
    pub id: i64,
    pub status: String,
    pub submit_requested_at: Option<Timestamp>,
    pub submit_claim_token: Option<String>,
    pub next_submit_at: Option<Timestamp>,
    pub submit_state: Option<String>,
    pub updated_at: Timestamp,
}

/// Whether a session is in a state of which nothing tells whether it was submitted already.
pub open spec fn is_ambiguous(state: Option<Seq<char>>) -> bool {
    state == Some("ok_no_aid"@) || state == Some("submitting"@)
}

/// Whether a session is safe to submit at `now`.
pub open spec fn is_due(row: SubmissionRow, now: Timestamp, include_recent_blocked: bool) -> bool {
    &&& row.status@ != "finalized"@
    &&& row.submit_requested_at is Some
    &&& row.submit_claim_token is None
    &&& row.next_submit_at matches Some(at) ==> at@ <= now@
    &&& !is_ambiguous(opt_view(row.submit_state))
    &&& include_recent_blocked || opt_view(row.submit_state) != Some("blocked_missing_segments"@)
        || row.updated_at@ + BLOCKED_RECHECK_SECS * NANOS_PER_SEC <= now@
}

/// When a session was to be submitted: when it is to be tried again, or else when it was asked for.
pub open spec fn due_time(row: SubmissionRow) -> int {
    match row.next_submit_at {
        Some(at) => at@,
        None => match row.submit_requested_at {
            Some(at) => at@,
            None => 0,
        },
    }
}

/// The keys of the sessions to submit.
pub open spec fn due_keys(
    rows: Seq<SubmissionRow>,
    now: Timestamp,
    include_recent_blocked: bool,
) -> Seq<SortKey>
    decreases rows.len(),
{
    if rows.len() == 0 {
        Seq::<SortKey>::empty()
    } else {
        let rest = due_keys(rows.drop_last(), now, include_recent_blocked);
        let row = rows.last();
        if is_due(row, now, include_recent_blocked) {
            rest.push(SortKey { major: due_time(row) as i128, minor: 0, id: row.id })
        } else {
            rest
        }
    }
}

fn state_is(state: &Option<String>, name: &str) -> (yes: bool)
    ensures
        yes == (opt_view(*state) == Some(name@)),
{
    match state {
        Some(held) => str_eq(held.as_str(), name),
        None => false,
    }
}

fn row_is_due(row: &SubmissionRow, now: Timestamp, include_recent_blocked: bool) -> (due: bool)
    ensures
        due == is_due(*row, now, include_recent_blocked),
{
    let come: bool = match &row.next_submit_at {
        Some(at) => at.at_or_before(&now),
        None => true,
    };
    !str_eq(row.status.as_str(), "finalized") && row.submit_requested_at.is_some()
        && row.submit_claim_token.is_none() && come && !state_is(&row.submit_state, "ok_no_aid")
        && !state_is(&row.submit_state, "submitting") && (include_recent_blocked || !state_is(
        &row.submit_state,
        "blocked_missing_segments",
    ) || now.since(&row.updated_at) >= 600_000_000_000i128)
}

/// The sessions that are safe to submit at `now`: the longest due first, and no more than one scan
/// takes.
pub fn due_submission_session_ids(
    rows: &Vec<SubmissionRow>,
    now: Timestamp,
    include_recent_blocked: bool,
) -> (ids: Vec<i64>)
    ensures
        ids@ == key_ids(
            first_keys(
                sorted_keys(due_keys(rows@, now, include_recent_blocked)),
                MAX_SCAN_CANDIDATES as int,
            ),
        ),
{
    let mut keys: Vec<SortKey> = Vec::new();
    let mut i: usize = 0;
    while i < rows.len()
        invariant
            i <= rows.len(),
            keys@ == due_keys(rows@.take(i as int), now, include_recent_blocked),
        decreases rows.len() - i,
    {
        assert(rows@.take(i + 1).drop_last() =~= rows@.take(i as int));
        let row: &SubmissionRow = &rows[i];
        if row_is_due(row, now, include_recent_blocked) {
            let time: i128 = match &row.next_submit_at {
                Some(at) => at.nanos(),
                None => match &row.submit_requested_at {
                    Some(at) => at.nanos(),
                    None => 0,
                },
            };
            keys.push(SortKey { major: time, minor: 0, id: row.id });
        }
        i = i + 1;
    }
    assert(rows@.take(rows@.len() as int) =~= rows@);
    ordered_ids(&keys, MAX_SCAN_CANDIDATES)
}

/// A session that is being submitted, or may have been, is never taken again by a scan.
pub proof fn law_no_session_is_submitted_twice(
    row: SubmissionRow,
    now: Timestamp,
    include_recent_blocked: bool,
)
    requires
        row.status@ == "finalized"@ || row.submit_claim_token is Some || is_ambiguous(
            opt_view(row.submit_state),
        ),
    ensures
        !is_due(row, now, include_recent_blocked),
{
}

/// What starts a scan.
#[derive(Clone, Copy, Debug, PartialEq, Eq, Structural)]
pub enum SubmissionTrigger {
    /// The service has just started.
    StartupScan,
    PeriodicScan,
}

/// Whether a scan also looks at sessions that were found to wait for their segments only lately:
/// the first one does.
pub fn includes_recent_blocked(trigger: SubmissionTrigger) -> (yes: bool)
    ensures
        yes == (trigger == SubmissionTrigger::StartupScan),
{
    match trigger {
        SubmissionTrigger::StartupScan => true,
        SubmissionTrigger::PeriodicScan => false,
    }
}

/// What came of the submission of a session.
#[derive(Clone, Copy, Debug, PartialEq, Eq, Structural)]
pub enum SessionSubmissionOutcome {
    Blocked,
    Submitted,
    RetryScheduled,
    ClaimedElsewhere,
    ManualInspectionRequired,
    NotRequested,
    NotDue,
    Finalized,
    /// The submission could not be tried.
    Failed,
}

/// What a scan reports.
pub struct SubmissionScanSummary {
    pub candidates: usize,
    pub blocked: Vec<i64>,
    pub submitted: Vec<i64>,
    pub retry_scheduled: Vec<i64>,
    pub claimed_elsewhere: Vec<i64>,
    pub manual_inspection: Vec<i64>,
    pub skipped: Vec<i64>,
    pub failed: Vec<i64>,
}

/// A report as a mathematical value.
#[verifier::ext_equal]
pub ghost struct SummaryView {
    pub candidates: int,
    pub blocked: Seq<i64>,
    pub submitted: Seq<i64>,
    pub retry_scheduled: Seq<i64>,
    pub claimed_elsewhere: Seq<i64>,
    pub manual_inspection: Seq<i64>,
    pub skipped: Seq<i64>,
    pub failed: Seq<i64>,
}

impl View for SubmissionScanSummary {
    type V = SummaryView;

    open spec fn view(&self) -> SummaryView {
        SummaryView {
            candidates: self.candidates as int,
            blocked: self.blocked@,
            submitted: self.submitted@,
            retry_scheduled: self.retry_scheduled@,
            claimed_elsewhere: self.claimed_elsewhere@,
            manual_inspection: self.manual_inspection@,
            skipped: self.skipped@,
            failed: self.failed@,
        }
    }
}

/// The report after one more session.
pub open spec fn recorded(
    summary: SummaryView,
    session: i64,
    outcome: SessionSubmissionOutcome,
) -> SummaryView {
    match outcome {
        SessionSubmissionOutcome::Blocked => SummaryView {
            blocked: summary.blocked.push(session),
            ..summary
        },
        SessionSubmissionOutcome::Submitted => SummaryView {
            submitted: summary.submitted.push(session),
            ..summary
        },
        SessionSubmissionOutcome::RetryScheduled => SummaryView {
            retry_scheduled: summary.retry_scheduled.push(session),
            ..summary
        },
        SessionSubmissionOutcome::ClaimedElsewhere => SummaryView {
            claimed_elsewhere: summary.claimed_elsewhere.push(session),
            ..summary
        },
        SessionSubmissionOutcome::ManualInspectionRequired => SummaryView {
            manual_inspection: summary.manual_inspection.push(session),
            ..summary
        },
        SessionSubmissionOutcome::NotRequested => SummaryView {
            skipped: summary.skipped.push(session),
            ..summary
        },
        SessionSubmissionOutcome::NotDue => SummaryView {
            skipped: summary.skipped.push(session),
            ..summary
        },
        SessionSubmissionOutcome::Finalized => SummaryView {
            skipped: summary.skipped.push(session),
            ..summary
        },
        SessionSubmissionOutcome::Failed => SummaryView {
            failed: summary.failed.push(session),
            ..summary
        },
    }
}

/// The report of a scan that has just begun.
pub open spec fn nothing_recorded(candidates: int) -> SummaryView {
    SummaryView {
        candidates,
        blocked: Seq::empty(),
        submitted: Seq::empty(),
        retry_scheduled: Seq::empty(),
        claimed_elsewhere: Seq::empty(),
        manual_inspection: Seq::empty(),
        skipped: Seq::empty(),
        failed: Seq::empty(),
    }
}

/// The report after all the outcomes, in the order in which they came in.
pub open spec fn all_recorded(
    candidates: int,
    outcomes: Seq<(i64, SessionSubmissionOutcome)>,
) -> SummaryView
    decreases outcomes.len(),
{
    if outcomes.len() == 0 {
        nothing_recorded(candidates)
    } else {
        recorded(
            all_recorded(candidates, outcomes.drop_last()),
            outcomes.last().0,
            outcomes.last().1,
        )
    }
}

impl SubmissionScanSummary {
    /// The report of a scan that found `candidates` sessions.
    pub fn new(candidates: usize) -> (summary: SubmissionScanSummary)
        ensures
            summary@ == nothing_recorded(candidates as int),
    {
        SubmissionScanSummary {
            candidates,
            blocked: Vec::new(),
            submitted: Vec::new(),
            retry_scheduled: Vec::new(),
            claimed_elsewhere: Vec::new(),
            manual_inspection: Vec::new(),
            skipped: Vec::new(),
            failed: Vec::new(),
        }
    }

    /// Notes what came of one session.
    pub fn record(&mut self, session_id: i64, outcome: SessionSubmissionOutcome)
        ensures
            final(self)@ == recorded(old(self)@, session_id, outcome),
    {
        match outcome {
            SessionSubmissionOutcome::Blocked => self.blocked.push(session_id),
            SessionSubmissionOutcome::Submitted => self.submitted.push(session_id),
            SessionSubmissionOutcome::RetryScheduled => self.retry_scheduled.push(session_id),
            SessionSubmissionOutcome::ClaimedElsewhere => self.claimed_elsewhere.push(session_id),
            SessionSubmissionOutcome::ManualInspectionRequired => self.manual_inspection.push(
                session_id,
            ),
            SessionSubmissionOutcome::NotRequested => self.skipped.push(session_id),
            SessionSubmissionOutcome::NotDue => self.skipped.push(session_id),
            SessionSubmissionOutcome::Finalized => self.skipped.push(session_id),
            SessionSubmissionOutcome::Failed => self.failed.push(session_id),
        }
    }
}

/// The report of a scan that found `candidates` sessions, of which these outcomes came in.
pub fn scan_due_submissions(
    candidates: usize,
    outcomes: &Vec<(i64, SessionSubmissionOutcome)>,
) -> (summary: SubmissionScanSummary)
    ensures
        summary@ == all_recorded(candidates as int, outcomes@),
{
    let mut summary: SubmissionScanSummary = SubmissionScanSummary::new(candidates);
    let mut i: usize = 0;
    while i < outcomes.len()
        invariant
            i <= outcomes.len(),
            summary@ == all_recorded(candidates as int, outcomes@.take(i as int)),
        decreases outcomes.len() - i,
    {
        assert(outcomes@.take(i + 1).drop_last() =~= outcomes@.take(i as int));
        summary.record(outcomes[i].0, outcomes[i].1);
        i = i + 1;
    }
    assert(outcomes@.take(outcomes@.len() as int) =~= outcomes@);
    summary
}

/// How many sessions a report names.
pub open spec fn named_sessions(summary: SummaryView) -> nat {
    summary.blocked.len() + summary.submitted.len() + summary.retry_scheduled.len()
        + summary.claimed_elsewhere.len() + summary.manual_inspection.len() + summary.skipped.len()
        + summary.failed.len()
}

/// The list of a report on which sessions of an outcome stand.
pub open spec fn list_of(summary: SummaryView, outcome: SessionSubmissionOutcome) -> Seq<i64> {
    match outcome {
        SessionSubmissionOutcome::Blocked => summary.blocked,
        SessionSubmissionOutcome::Submitted => summary.submitted,
        SessionSubmissionOutcome::RetryScheduled => summary.retry_scheduled,
        SessionSubmissionOutcome::ClaimedElsewhere => summary.claimed_elsewhere,
        SessionSubmissionOutcome::ManualInspectionRequired => summary.manual_inspection,
        SessionSubmissionOutcome::NotRequested => summary.skipped,
        SessionSubmissionOutcome::NotDue => summary.skipped,
        SessionSubmissionOutcome::Finalized => summary.skipped,
        SessionSubmissionOutcome::Failed => summary.failed,
    }
}

/// A report names every session whose outcome came in, once, on the list of its outcome.
pub proof fn law_every_outcome_is_reported(
    candidates: int,
    outcomes: Seq<(i64, SessionSubmissionOutcome)>,
)
    ensures
        named_sessions(all_recorded(candidates, outcomes)) == outcomes.len(),
        all_recorded(candidates, outcomes).candidates == candidates,
        forall|i: int|
            0 <= i < outcomes.len() ==> list_of(
                all_recorded(candidates, outcomes),
                (#[trigger] outcomes[i]).1,
            ).contains(outcomes[i].0),
    decreases outcomes.len(),
{
    if outcomes.len() > 0 {
        let front = outcomes.drop_last();
        law_every_outcome_is_reported(candidates, front);
        let before = all_recorded(candidates, front);
        let after = all_recorded(candidates, outcomes);
        assert forall|i: int| 0 <= i < outcomes.len() implies list_of(
            after,
            (#[trigger] outcomes[i]).1,
        ).contains(outcomes[i].0) by {
            let outcome = outcomes[i].1;
            if i < front.len() {
                assert(front[i] == outcomes[i]);
                let at = list_of(before, outcome).index_of(outcomes[i].0);
                assert(list_of(after, outcome)[at] == outcomes[i].0);
            } else {
                assert(list_of(after, outcome).last() == outcomes[i].0);
            }
        }
    }
}

} // verus!
