use biliup_common::lifecycle_backfill::{
    after_batch, apply_plan, parking_order, part_name, plan_session, session_event, session_step,
    snapshot_kind, BackfillJournal, BackfillSummary, BatchEnd, LegacyRow, PlanWrite, PublishedPart,
    SessionStep, SnapshotKind, SyntheticRow, CONFLICT,
};
use biliup_common::segment_enrollment::{normalize_segment_path, PathComponent};
use biliup_common::time::Timestamp;
use serde_json::Value;

fn at(second: i64) -> Timestamp {
    Timestamp::from_secs(second).unwrap()
}

fn video_json(title: &str, remote: &str) -> String {
    let mut fields = serde_json::Map::new();
    fields.insert("title".to_string(), Value::String(title.to_string()));
    fields.insert("filename".to_string(), Value::String(remote.to_string()));
    fields.insert("desc".to_string(), Value::String(String::new()));
    serde_json::to_string(&Value::Object(fields)).unwrap()
}

fn video(title: &str, remote: &str) -> PublishedPart {
    PublishedPart {
        filename: remote.to_string(),
        title: Some(title.to_string()),
        json: video_json(title, remote),
    }
}

fn legacy(id: i64, path: &str, order: i64, status: &str) -> LegacyRow {
    let identity = path.replace("/./", "/");
    LegacyRow {
        id,
        identity,
        segment_order: order,
        status: status.to_string(),
        attempts: 0,
        aid: None,
        last_error: None,
        video_json: None,
        remote_filename: None,
        updated_at: at(1_000),
    }
}

fn published(row: &mut LegacyRow, title: &str, remote: &str) {
    row.video_json = Some(video_json(title, remote));
    row.remote_filename = Some(remote.to_string());
}

#[test]
fn parts_and_rows_are_matched_by_the_stem_of_their_names() {
    let mut untitled = video("", "dir/part-0.v2.mp4");
    untitled.title = None;
    let plan = plan_session(
        9,
        &vec![untitled, video("part-1.flv", "remote-1")],
        vec![
            legacy(1, "/media/part-1.mkv", 0, "pending"),
            legacy(2, "/media/part-0.v2.flv", 1, "pending"),
        ],
    );
    assert_eq!(plan.keep.iter().map(|row| row.id).collect::<Vec<_>>(), [2, 1]);
    assert!(plan.synthetic.is_empty());
}

#[test]
fn every_plan_keeps_one_row_per_source() {
    let rows = ["/m/a.flv", "/m/b.flv", "/m/a.flv", "/m/c.flv", "/m/a.flv"]
        .iter()
        .zip(1..)
        .map(|(path, id)| legacy(id, path, id, "pending"))
        .collect();
    let plan = plan_session(9, &vec![video("b", "remote-b"), video("x", "remote-x")], rows);
    let kept: Vec<&str> = plan.keep.iter().map(|row| row.normalized_file_path.as_str()).collect();
    assert_eq!(kept, ["/m/b.flv", "/m/c.flv", "/m/a.flv"]);
    assert_eq!(plan.detach.len(), 2);
}

#[test]
fn a_clash_among_any_number_of_rows_is_a_conflict() {
    let merged = |claims: [Option<&str>; 4]| {
        let rows = claims
            .iter()
            .zip(1..)
            .map(|(claim, id)| {
                let mut row = legacy(id, "/m/a.flv", id, "pending");
                if let Some(remote) = claim {
                    published(&mut row, "a", remote);
                }
                row
            })
            .collect();
        plan_session(9, &vec![], rows).keep[0].status.clone()
    };
    assert_eq!(merged([Some("x"), None, Some("x"), None]), "succeeded");
    assert_eq!(merged([Some("x"), None, Some("y"), None]), CONFLICT);
    assert_eq!(merged([Some("y"), Some("x"), Some("x"), None]), CONFLICT);
    assert_eq!(merged([None, None, None, None]), "pending");
}

#[test]
fn published_parts_define_the_rebuilt_order() {
    let rows = vec![
        legacy(2, "/media/part-1.flv", 7, "failed"),
        legacy(1, "/media/part-0.flv", 3, "pending"),
    ];
    let plan = plan_session(
        9,
        &vec![video("part-0", "remote-0"), video("part-1", "remote-1")],
        rows,
    );
    assert_eq!(
        plan.keep
            .iter()
            .map(|row| (row.id, row.segment_order, row.status.as_str()))
            .collect::<Vec<_>>(),
        [(1, 0, "succeeded"), (2, 1, "succeeded")]
    );
    assert!(plan.synthetic.is_empty());
}

#[test]
fn unmatched_parts_become_synthetic_and_unmatched_rows_keep_owing() {
    let rows = vec![legacy(1, "/media/still-owed.flv", 0, "pending")];
    let plan = plan_session(4, &vec![video("vanished-source", "remote-0")], rows);
    assert_eq!(
        plan.synthetic,
        [SyntheticRow {
            segment_order: 0,
            file_path: "legacy://session/4/part/0".to_string(),
            video_json: video_json("vanished-source", "remote-0"),
        }]
    );
    assert_eq!(plan.keep.len(), 1);
    assert_eq!(plan.keep[0].segment_order, 1);
    assert_eq!(plan.keep[0].status, "pending");
}

#[test]
fn duplicate_rows_merge_into_the_succeeded_one_without_losing_diagnostics() {
    let mut succeeded = legacy(2, "/media/dup.flv", 1, "succeeded");
    published(&mut succeeded, "dup", "remote-a");
    let mut failed = legacy(1, "/media/./dup.flv", 0, "failed");
    failed.attempts = 9;
    failed.last_error = Some("boom".to_string());
    failed.aid = Some(77);

    let plan = plan_session(1, &vec![], vec![failed, succeeded]);
    assert_eq!(plan.keep.len(), 1);
    assert_eq!(plan.keep[0].id, 2);
    assert_eq!(plan.keep[0].attempts, 9);
    assert_eq!(plan.keep[0].aid, Some(77));
    assert_eq!(plan.keep[0].last_error.as_deref(), Some("boom"));
    assert_eq!(plan.detach, [1]);
}

#[test]
fn two_different_remote_claims_are_a_conflict_not_a_guess() {
    let mut first = legacy(1, "/media/dup.flv", 0, "succeeded");
    published(&mut first, "dup", "remote-a");
    let mut second = legacy(2, "/media/dup.flv", 1, "succeeded");
    published(&mut second, "dup", "remote-b");

    let plan = plan_session(1, &vec![], vec![first, second]);
    assert_eq!(plan.keep.len(), 1);
    assert_eq!(plan.keep[0].status, CONFLICT);
    assert_eq!(plan.conflict_count(), 1);
}

#[test]
fn places_are_written_without_a_gap_and_never_collide() {
    let rows = vec![
        legacy(5, "/media/b.flv", 1, "pending"),
        legacy(4, "/media/a.flv", 0, "pending"),
        legacy(6, "/media/a.flv", 2, "failed"),
    ];
    let plan = plan_session(3, &vec![video("c", "remote-c")], rows);
    assert_eq!(
        plan.keep.iter().map(|row| row.segment_order).collect::<Vec<_>>(),
        [1, 2]
    );
    let writes = apply_plan(&plan);
    assert_eq!(writes[0], PlanWrite::Park { id: plan.keep[0].id, order: parking_order(0) });
    assert!(parking_order(0) < 0 && parking_order(1) < 0 && parking_order(0) != parking_order(1));
    assert_eq!(
        writes.iter().filter(|write| matches!(write, PlanWrite::Detach { .. })).count(),
        1
    );
    assert_eq!(
        writes.iter().filter(|write| matches!(write, PlanWrite::Keep { .. })).count(),
        2
    );
    assert_eq!(
        writes.iter().filter(|write| matches!(write, PlanWrite::Insert { .. })).count(),
        1
    );
}

#[test]
fn a_part_without_a_title_is_known_by_its_file() {
    assert_eq!(part_name(Some("title"), "file"), "title");
    assert_eq!(part_name(None, "file"), "file");
}

#[test]
fn finalized_sessions_and_unusable_videos_json_are_only_audited() {
    assert_eq!(session_step("finalized", &vec![1, 1], true), SessionStep::SkipFinalized);
    assert_eq!(session_step("uploading", &vec![], true), SessionStep::SkipEmpty);
    assert_eq!(session_step("uploading", &vec![2, 2], true), SessionStep::SkipCurrent);
    assert_eq!(session_step("uploading", &vec![1, 2], true), SessionStep::Rebuild);
    assert_eq!(session_step("uploading", &vec![1], false), SessionStep::Corrupt);
}

#[test]
fn what_is_left_alone_is_written_down() {
    let told = |step| session_event(step, 2).map(|event| (event.kind, event.detail));
    let note = |kind: &str, detail: &str| Some((kind.to_string(), detail.to_string()));
    assert_eq!(told(SessionStep::SkipEmpty), note("skipped", "no lifecycle rows"));
    assert_eq!(
        told(SessionStep::SkipFinalized),
        note("skipped_finalized", "2 legacy rows left untouched")
    );
    assert_eq!(told(SessionStep::SkipCurrent), note("skipped", "already lifecycle v2"));
    assert_eq!(told(SessionStep::Corrupt).unwrap().0, "corrupt_videos_json");
    assert_eq!(told(SessionStep::Rebuild), None);
}

#[test]
fn an_empty_snapshot_is_no_snapshot() {
    assert_eq!(snapshot_kind(""), SnapshotKind::Absent);
    assert_eq!(snapshot_kind(" \n"), SnapshotKind::Absent);
    assert_eq!(snapshot_kind("[]"), SnapshotKind::Present);
}

#[test]
fn the_batches_end_where_there_is_nothing_left() {
    assert_eq!(after_batch(0, false), BatchEnd::Finished);
    assert_eq!(after_batch(50, false), BatchEnd::Next);
    assert_eq!(after_batch(50, true), BatchEnd::StopDryRun);
}

#[test]
fn rerunning_and_resuming_never_duplicates_a_synthetic_baseline() {
    let mut journal = BackfillJournal { last_session_id: 0, summary: BackfillSummary::default() };
    assert!(journal.advance(7, 2, 1, 0));
    assert!(!journal.advance(7, 2, 1, 0));
    assert!(!journal.advance(6, 2, 1, 0));
    assert_eq!(journal.last_session_id, 7);
    assert_eq!(journal.summary.processed_sessions, 1);
    assert_eq!(journal.summary.migrated_rows, 2);
    assert_eq!(journal.summary.synthetic_rows, 1);
    let mut summary = BackfillSummary::default();
    summary.add_session(3, 2, 1);
    assert_eq!(
        (summary.migrated_rows, summary.synthetic_rows, summary.conflict_rows),
        (3, 2, 1)
    );
}

fn normalized(path: &str) -> String {
    let components: Vec<PathComponent> = path
        .split('/')
        .map(|name| match name {
            "" => PathComponent::RootDir,
            "." => PathComponent::CurDir,
            ".." => PathComponent::ParentDir,
            _ => PathComponent::Normal(name.to_string()),
        })
        .collect();
    normalize_segment_path(&vec![], &components, true)
        .iter()
        .map(|component| match component {
            PathComponent::Normal(name) => format!("/{name}"),
            _ => String::new(),
        })
        .collect()
}

#[test]
fn duplicate_legacy_rows_survive_migration_and_merge_on_backfill() {
    let paths = ["/media/dup.flv", "/media/./dup.flv", "/media/sub/../dup.flv"];
    let rows: Vec<LegacyRow> = paths
        .iter()
        .zip(0..)
        .map(|(path, order)| legacy(order + 1, &normalized(path), order, "pending"))
        .collect();
    assert!(rows.iter().all(|row| row.identity == "/media/dup.flv"));

    let plan = plan_session(1, &vec![video("dup", "remote-0")], rows);
    assert_eq!(plan.keep.len(), 1);
    assert_eq!(plan.conflict_count(), 0);
    assert_eq!(plan.keep[0].status, "succeeded");
    assert_eq!(plan.detach.len(), 2);
    assert!(plan.synthetic.is_empty());
}

#[test]
fn a_corrupt_published_snapshot_blocks_instead_of_re_uploading() {
    let snapshot = "[{\"filename\":";
    assert_eq!(snapshot_kind(snapshot), SnapshotKind::Present);
    let readable = serde_json::from_str::<Vec<Value>>(snapshot).is_ok();
    assert_eq!(session_step("uploading", &vec![1], readable), SessionStep::Corrupt);

    let mut summary = BackfillSummary::default();
    summary.add_session(0, 0, 0);
    assert_eq!(summary.processed_sessions, 1);
    assert_eq!(summary.migrated_rows, 0);
}

#[test]
fn dry_run_reports_the_plan_without_writing() {
    let rows = vec![legacy(1, "/media/part-0.flv", 0, "pending")];
    let plan = plan_session(1, &vec![video("part-0", "remote-0")], rows);
    let mut summary = BackfillSummary::default();
    summary.add_session(plan.keep.len() as i64, plan.synthetic.len() as i64, 0);
    assert_eq!(after_batch(1, true), BatchEnd::StopDryRun);
    assert_eq!(summary.migrated_rows, 1);
    assert!(!summary.completed);
}

#[test]
fn merging_keeps_what_was_known_of_a_source() {
    let mut newest = legacy(3, "/media/a.flv", 1, "failed");
    newest.updated_at = at(3_000);
    newest.attempts = 1;
    let mut middle = legacy(2, "/media/a.flv", 1, "failed");
    middle.updated_at = at(2_000);
    middle.attempts = 5;
    middle.last_error = Some("timeout".to_string());
    let mut oldest = legacy(1, "/media/a.flv", 1, "pending");
    oldest.aid = Some(42);
    let plan = plan_session(7, &Vec::new(), vec![oldest, newest, middle]);
    assert_eq!(plan.keep.len(), 1);
    assert_eq!(plan.keep[0].id, 3);
    assert_eq!(plan.keep[0].attempts, 5);
    assert_eq!(plan.keep[0].aid, Some(42));
    assert_eq!(plan.keep[0].last_error.as_deref(), Some("timeout"));
    assert_eq!(plan.detach, vec![2, 1]);
}

#[test]
fn merging_keeps_the_newest_error() {
    let mut survivor = legacy(1, "/media/a.flv", 1, "succeeded");
    survivor.updated_at = at(1);
    survivor.last_error = Some("old".to_string());
    let mut duplicate = legacy(2, "/media/a.flv", 1, "failed");
    duplicate.updated_at = at(2);
    duplicate.last_error = Some("new".to_string());
    let plan = plan_session(7, &Vec::new(), vec![survivor, duplicate]);
    assert_eq!(plan.keep.len(), 1);
    assert_eq!(plan.keep[0].id, 1);
    assert_eq!(plan.keep[0].last_error.as_deref(), Some("new"));
    assert_eq!(plan.detach, vec![2]);
}
