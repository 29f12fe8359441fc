//! Recovering short segments: which of them are joined, how, and what is written down where
//! they are not.
use crate::download::segments::{bounded_diagnostic, SegmentInfo, MANIFEST_ERROR_CHARS};
use crate::identifier::{fresh_uuid, is_fresh_form};
use crate::text::{
    decimal, decimal_text, first_chars, join_spec, opt_own, own, replace, replace_spec, text_views,
    words_spec,
};
use crate::time::{Span, NANOS_PER_MILLI};
use vstd::prelude::*;
use vstd::string::*;

verus! {

/// The elements of the groups one after the other.
pub open spec fn flat<T>(groups: Seq<Seq<T>>) -> Seq<T>
    decreases groups.len(),
{
    if groups.len() == 0 {
        Seq::empty()
    } else {
        flat(groups.drop_last()) + groups.last()
    }
}

/// Whether two neighbours may be joined: both have a key, and the same.
pub open spec fn joinable(keys: Seq<Option<u64>>, i: int) -> bool {
    keys[i] is Some && keys[i] == keys[i + 1]
}

/// The number of segments from `from` on that may all be joined with their neighbour.
pub open spec fn run_length(keys: Seq<Option<u64>>, from: int) -> int
    decreases keys.len() - from,
{
    if from < 0 || from >= keys.len() {
        0
    } else if from + 1 < keys.len() && joinable(keys, from) {
        1 + run_length(keys, from + 1)
    } else {
        1
    }
}

/// The segments from position `from` on, in the longest runs of neighbours that may be joined,
/// in order.
pub open spec fn grouped(
    events: Seq<SegmentInfo>,
    keys: Seq<Option<u64>>,
    from: int,
) -> Seq<Seq<SegmentInfo>>
    decreases keys.len() - from,
{
    let n = run_length(keys, from);
    if from < 0 || from >= keys.len() || n <= 0 || from + n > keys.len() {
        Seq::empty()
    } else {
        seq![events.subrange(from, from + n)] + grouped(events, keys, from + n)
    }
}

/// The views of groups.
pub open spec fn group_views(groups: Seq<Vec<SegmentInfo>>) -> Seq<Seq<SegmentInfo>> {
    groups.map_values(|g: Vec<SegmentInfo>| g@)
}

proof fn lemma_run_length(keys: Seq<Option<u64>>, from: int)
    requires
        0 <= from < keys.len(),
    ensures
        1 <= run_length(keys, from) <= keys.len() - from,
    decreases keys.len() - from,
{
    if from + 1 < keys.len() && joinable(keys, from) {
        lemma_run_length(keys, from + 1);
    }
}

/// Splits the segments into the longest runs of neighbours that may be joined; `keys` are their
/// compatibility keys.
pub fn compatible_segment_groups(events: Vec<SegmentInfo>, keys: &Vec<Option<u64>>) -> (groups: Vec<
    Vec<SegmentInfo>,
>)
    requires
        events@.len() == keys@.len(),
    ensures
        group_views(groups@) == grouped(events@, keys@, 0),
{
    let mut rest: Vec<SegmentInfo> = events;
    let mut groups: Vec<Vec<SegmentInfo>> = Vec::new();
    let mut from: usize = 0;
    let ghost all = events@;
    proof {
        assert(all.skip(0) =~= all);
        assert(group_views(groups@) + grouped(all, keys@, 0) =~= grouped(all, keys@, 0));
    }
    while from < keys.len()
        invariant
            from <= keys.len(),
            all.len() == keys@.len(),
            rest@ == all.skip(from as int),
            group_views(groups@) + grouped(all, keys@, from as int) == grouped(all, keys@, 0),
        decreases keys.len() - from,
    {
        let mut n: usize = 1;
        while from + n < keys.len() && keys[from + n - 1].is_some() && keys[from + n - 1]
            == keys[from + n]
            invariant
                1 <= n,
                from + n <= keys.len(),
                run_length(keys@, from as int) == n - 1 + run_length(keys@, from + n - 1),
            decreases keys.len() - from - n,
        {
            assert(joinable(keys@, from + n - 1));
            n = n + 1;
        }
        proof {
            assert(from + n < keys.len() ==> !joinable(keys@, from + n - 1));
            assert(run_length(keys@, from + n - 1) == 1);
        }
        let tail: Vec<SegmentInfo> = rest.split_off(n);
        let ghost before = groups@;
        groups.push(rest);
        proof {
            let run = all.subrange(from as int, from + n);
            assert(groups@.last()@ =~= run);
            assert(group_views(groups@) =~= group_views(before).push(run));
            assert(tail@ =~= all.skip(from + n));
            assert(group_views(groups@) + grouped(all, keys@, from + n) =~= group_views(before)
                + grouped(all, keys@, from as int));
        }
        rest = tail;
        from = from + n;
    }
    assert(group_views(groups@) + grouped(all, keys@, from as int) =~= group_views(groups@));
    groups
}

/// Grouping loses nothing and keeps the order: the groups one after the other are the segments.
pub proof fn law_grouping_keeps_every_segment(
    events: Seq<SegmentInfo>,
    keys: Seq<Option<u64>>,
    from: int,
)
    requires
        events.len() == keys.len(),
        0 <= from <= keys.len(),
    ensures
        flat(grouped(events, keys, from)) == events.skip(from),
    decreases keys.len() - from,
{
    if from < keys.len() {
        lemma_run_length(keys, from);
        let n = run_length(keys, from);
        let head = events.subrange(from, from + n);
        let tail = grouped(events, keys, from + n);
        law_grouping_keeps_every_segment(events, keys, from + n);
        lemma_flat_cons(head, tail);
        assert(head + events.skip(from + n) =~= events.skip(from));
    } else {
        assert(events.skip(from) =~= Seq::empty());
    }
}

proof fn lemma_flat_cons<T>(head: Seq<T>, tail: Seq<Seq<T>>)
    ensures
        flat(seq![head] + tail) == head + flat(tail),
    decreases tail.len(),
{
    let all = seq![head] + tail;
    if tail.len() == 0 {
        assert(all.drop_last() =~= Seq::empty());
        assert(flat(all.drop_last()) =~= Seq::empty());
        assert(flat(all) =~= head + flat(tail));
    } else {
        assert(all.drop_last() =~= seq![head] + tail.drop_last());
        assert(all.last() == tail.last());
        lemma_flat_cons(head, tail.drop_last());
        assert(flat(all) =~= head + flat(tail));
    }
}

/// Neighbours inside a run all have the same key.
pub proof fn law_only_equal_keys_are_joined(keys: Seq<Option<u64>>, from: int, i: int, j: int)
    requires
        0 <= from < keys.len(),
        from <= i < j < from + run_length(keys, from),
    ensures
        keys[i] is Some,
        keys[i] == keys[j],
    decreases keys.len() - from,
{
    lemma_run_length(keys, from);
    lemma_run_is_uniform(keys, from);
}

proof fn lemma_run_is_uniform(keys: Seq<Option<u64>>, from: int)
    requires
        0 <= from < keys.len(),
    ensures
        run_length(keys, from) > 1 ==> keys[from] is Some,
        forall|k: int|
            from <= k < from + run_length(keys, from) && k < keys.len() ==> #[trigger] keys[k]
                == keys[from],
    decreases keys.len() - from,
{
    if from + 1 < keys.len() && joinable(keys, from) {
        lemma_run_is_uniform(keys, from + 1);
    }
}

/// The pieces of `group` of at most `size` segments, all full but the last.
pub open spec fn chunked(group: Seq<SegmentInfo>, size: int) -> Seq<Seq<SegmentInfo>>
    decreases group.len(),
{
    if size <= 0 || group.len() == 0 {
        Seq::empty()
    } else if group.len() <= size {
        seq![group]
    } else {
        seq![group.take(size)] + chunked(group.skip(size), size)
    }
}

/// Splits a group into pieces of at most `size` segments.
pub fn chunk_group(group: Vec<SegmentInfo>, size: usize) -> (pieces: Vec<Vec<SegmentInfo>>)
    requires
        size >= 1,
    ensures
        group_views(pieces@) == chunked(group@, size as int),
{
    let mut pieces: Vec<Vec<SegmentInfo>> = Vec::new();
    let mut rest: Vec<SegmentInfo> = group;
    let ghost all = group@;
    assert(group_views(pieces@) + chunked(all, size as int) =~= chunked(all, size as int));
    while rest.len() > size
        invariant
            size >= 1,
            group_views(pieces@) + chunked(rest@, size as int) == chunked(all, size as int),
        decreases rest.len(),
    {
        let ghost current = rest@;
        let tail: Vec<SegmentInfo> = rest.split_off(size);
        let ghost before = pieces@;
        pieces.push(rest);
        proof {
            assert(pieces@.last()@ =~= current.take(size as int));
            assert(tail@ =~= current.skip(size as int));
            assert(group_views(pieces@) =~= group_views(before).push(current.take(size as int)));
            assert(group_views(pieces@) + chunked(tail@, size as int) =~= group_views(before)
                + chunked(current, size as int));
        }
        rest = tail;
    }
    if rest.len() > 0 {
        let ghost before = pieces@;
        let ghost current = rest@;
        pieces.push(rest);
        assert(group_views(pieces@) =~= group_views(before).push(current));
        assert(chunked(current, size as int) =~= seq![current]);
        assert(group_views(pieces@) =~= group_views(before) + chunked(current, size as int));
    } else {
        assert(group_views(pieces@) + chunked(rest@, size as int) =~= group_views(pieces@));
    }
    pieces
}

/// Splitting a group loses nothing and keeps the order, and no piece is empty or too large.
pub proof fn law_pieces_keep_every_segment(group: Seq<SegmentInfo>, size: int)
    requires
        size >= 1,
    ensures
        flat(chunked(group, size)) == group,
        forall|i: int|
            0 <= i < chunked(group, size).len() ==> 1 <= (#[trigger] chunked(group, size)[i]).len()
                <= size,
    decreases group.len(),
{
    if group.len() == 0 {
        assert(flat(chunked(group, size)) =~= group);
    } else if group.len() <= size {
        let one = seq![group];
        assert(one.drop_last() =~= Seq::empty());
        assert(flat(one.drop_last()) =~= Seq::empty());
        assert(flat(one) =~= group);
    } else {
        law_pieces_keep_every_segment(group.skip(size), size);
        lemma_flat_cons(group.take(size), chunked(group.skip(size), size));
        assert(group.take(size) + group.skip(size) =~= group);
        assert forall|i: int| 0 <= i < chunked(group, size).len() implies 1 <= (#[trigger] chunked(
            group,
            size,
        )[i]).len() <= size by {
            if i > 0 {
                assert(chunked(group, size)[i] == chunked(group.skip(size), size)[i - 1]);
            }
        }
    }
}

/// What is done with a batch of short segments.
#[derive(Debug, Clone, Copy, PartialEq, Eq, Structural)]
pub enum BatchStep {
    /// Join the files of the batch.
    Merge,
    /// Put the batch off: no neighbour is compatible.
    DeferIncompatible,
}

/// A batch of one segment has nothing to be joined with.
pub fn batch_step(batch: &Vec<SegmentInfo>) -> (step: BatchStep)
    ensures
        step == (if batch@.len() > 1 {
            BatchStep::Merge
        } else {
            BatchStep::DeferIncompatible
        }),
{
    if batch.len() > 1 {
        BatchStep::Merge
    } else {
        BatchStep::DeferIncompatible
    }
}

/// Some short segments that are recovered together, and how.
#[derive(Debug)]
pub struct RecoveryBatch {
    pub step: BatchStep,
    pub segments: Vec<SegmentInfo>,
}

/// The batches of the groups from position `from` on: each group in pieces of at most `size`.
pub open spec fn all_pieces(groups: Seq<Seq<SegmentInfo>>, from: int, size: int) -> Seq<
    Seq<SegmentInfo>,
>
    decreases groups.len() - from,
{
    if from < 0 || from >= groups.len() {
        Seq::empty()
    } else {
        chunked(groups[from], size) + all_pieces(groups, from + 1, size)
    }
}

/// The segments of each batch.
pub open spec fn batch_views(batches: Seq<RecoveryBatch>) -> Seq<Seq<SegmentInfo>> {
    batches.map_values(|b: RecoveryBatch| b.segments@)
}

/// The batches in which the segments that wait are recovered: neighbours that may be joined, at
/// most `max_files` at a time. A batch of one has nothing to be joined with.
pub fn recovery_batches(
    pending: Vec<SegmentInfo>,
    keys: &Vec<Option<u64>>,
    max_files: usize,
) -> (batches: Vec<RecoveryBatch>)
    requires
        pending@.len() == keys@.len(),
        max_files >= 1,
    ensures
        batch_views(batches@) == all_pieces(grouped(pending@, keys@, 0), 0, max_files as int),
        forall|i: int|
            0 <= i < batches@.len() ==> ((#[trigger] batches@[i]).step is Merge
                <==> batches@[i].segments@.len() > 1),
{
    let mut groups: Vec<Vec<SegmentInfo>> = compatible_segment_groups(pending, keys);
    let mut batches: Vec<RecoveryBatch> = Vec::new();
    let ghost all = group_views(groups@);
    let ghost size = max_files as int;
    let ghost mut done: int = 0;
    proof {
        assert(all.skip(0) =~= all);
        assert(batch_views(batches@) + all_pieces(all, 0, size) =~= all_pieces(all, 0, size));
    }
    while groups.len() > 0
        invariant
            max_files >= 1,
            size == max_files,
            0 <= done <= all.len(),
            group_views(groups@) == all.skip(done),
            batch_views(batches@) + all_pieces(all, done, size) == all_pieces(all, 0, size),
            forall|i: int|
                0 <= i < batches@.len() ==> ((#[trigger] batches@[i]).step is Merge
                    <==> batches@[i].segments@.len() > 1),
        decreases groups.len(),
    {
        let ghost rest = group_views(groups@);
        let group: Vec<SegmentInfo> = groups.remove(0);
        proof {
            assert(rest.len() > 0);
            assert(rest[0] == group@);
            assert(all[done] == rest[0]);
            assert(group_views(groups@) =~= rest.skip(1));
            assert(rest.skip(1) =~= all.skip(done + 1));
        }
        let mut pieces: Vec<Vec<SegmentInfo>> = chunk_group(group, max_files);
        let ghost kept = batch_views(batches@);
        let ghost made = group_views(pieces@);
        let ghost mut moved: int = 0;
        assert(made.skip(0) =~= made);
        assert(batch_views(batches@) =~= kept + made.take(0));
        while pieces.len() > 0
            invariant
                0 <= moved <= made.len(),
                group_views(pieces@) == made.skip(moved),
                batch_views(batches@) == kept + made.take(moved),
                forall|i: int|
                    0 <= i < batches@.len() ==> ((#[trigger] batches@[i]).step is Merge
                        <==> batches@[i].segments@.len() > 1),
            decreases pieces.len(),
        {
            let ghost left = group_views(pieces@);
            let segments: Vec<SegmentInfo> = pieces.remove(0);
            let step: BatchStep = batch_step(&segments);
            let ghost before = batches@;
            let ghost piece = segments@;
            batches.push(RecoveryBatch { step, segments });
            proof {
                assert(left.len() > 0);
                assert(left[0] == piece);
                assert(made[moved] == left[0]);
                assert(group_views(pieces@) =~= left.skip(1));
                assert(left.skip(1) =~= made.skip(moved + 1));
                assert(batch_views(batches@) =~= batch_views(before).push(piece));
                assert(made.take(moved + 1) =~= made.take(moved).push(piece));
                assert(batch_views(batches@) =~= kept + made.take(moved + 1));
                moved = moved + 1;
            }
        }
        proof {
            assert(made.skip(moved).len() == group_views(pieces@).len());
            assert(made.take(moved) =~= made);
            assert(kept + made + all_pieces(all, done + 1, size) =~= kept + all_pieces(
                all,
                done,
                size,
            ));
            done = done + 1;
        }
    }
    proof {
        assert(all.skip(done).len() == group_views(groups@).len());
        assert(batch_views(batches@) + all_pieces(all, done, size) =~= batch_views(batches@));
    }
    batches
}

/// Recovery loses no segment and keeps their order: the batches one after the other are the
/// segments that waited, and none is empty or too large.
pub proof fn law_batches_keep_every_segment(
    pending: Seq<SegmentInfo>,
    keys: Seq<Option<u64>>,
    size: int,
)
    requires
        pending.len() == keys.len(),
        size >= 1,
    ensures
        flat(all_pieces(grouped(pending, keys, 0), 0, size)) == pending,
        forall|i: int|
            0 <= i < all_pieces(grouped(pending, keys, 0), 0, size).len() ==> 1 <= (
            #[trigger] all_pieces(grouped(pending, keys, 0), 0, size)[i]).len() <= size,
{
    let groups = grouped(pending, keys, 0);
    lemma_pieces_are_flat(groups, 0, size);
    law_grouping_keeps_every_segment(pending, keys, 0);
    assert(groups.skip(0) =~= groups);
    assert(pending.skip(0) =~= pending);
}

proof fn lemma_pieces_are_flat(groups: Seq<Seq<SegmentInfo>>, from: int, size: int)
    requires
        0 <= from <= groups.len(),
        size >= 1,
    ensures
        flat(all_pieces(groups, from, size)) == flat(groups.skip(from)),
        forall|i: int|
            0 <= i < all_pieces(groups, from, size).len() ==> 1 <= (#[trigger] all_pieces(
                groups,
                from,
                size,
            )[i]).len() <= size,
    decreases groups.len() - from,
{
    if from < groups.len() {
        let head = chunked(groups[from], size);
        let tail = all_pieces(groups, from + 1, size);
        lemma_pieces_are_flat(groups, from + 1, size);
        law_pieces_keep_every_segment(groups[from], size);
        lemma_flat_concat(head, tail);
        lemma_flat_cons(groups[from], groups.skip(from + 1));
        assert(groups.skip(from) =~= seq![groups[from]] + groups.skip(from + 1));
        assert forall|i: int| 0 <= i < all_pieces(groups, from, size).len() implies 1 <= (
        #[trigger] all_pieces(groups, from, size)[i]).len() <= size by {
            if i >= head.len() {
                assert(all_pieces(groups, from, size)[i] == tail[i - head.len()]);
            }
        }
    } else {
        assert(groups.skip(from) =~= Seq::empty());
    }
}

proof fn lemma_flat_concat<T>(a: Seq<Seq<T>>, b: Seq<Seq<T>>)
    ensures
        flat(a + b) == flat(a) + flat(b),
    decreases b.len(),
{
    if b.len() == 0 {
        assert(a + b =~= a);
        assert(flat(a) + flat(b) =~= flat(a));
    } else {
        assert((a + b).drop_last() =~= a + b.drop_last());
        lemma_flat_concat(a, b.drop_last());
        assert(flat(a + b) =~= flat(a) + flat(b));
    }
}

/// What is written down of a batch that was put off.
#[derive(Debug)]
pub struct RecoveryManifest {
    pub recovery_batch_id: String,
    pub manifest_name: String,
    pub temp_name: String,
    pub created_at_ms: u128,
    pub next_retry_at_ms: u128,
    pub files: Vec<String>,
    pub last_error: String,
}

/// The files of a segment: its own, then those it was made of.
pub open spec fn files_of(segment: SegmentInfo) -> Seq<Seq<char>> {
    seq![segment.prev_file_path@] + text_views(segment.recovery_source_paths@)
}

/// The files of the segments, in order.
pub open spec fn all_files(events: Seq<SegmentInfo>) -> Seq<Seq<char>>
    decreases events.len(),
{
    if events.len() == 0 {
        Seq::empty()
    } else {
        all_files(events.drop_last()) + files_of(events.last())
    }
}

/// The id of a batch: the process, the index of its first segment and the time.
pub open spec fn batch_id_spec(process_id: u32, segment_index: usize, created_ms: u128) -> Seq<char> {
    decimal(process_id as nat) + "-"@ + decimal(segment_index as nat) + "-"@ + decimal(
        created_ms as nat,
    )
}

fn collect_files(events: &Vec<SegmentInfo>) -> (files: Vec<String>)
    ensures
        text_views(files@) == all_files(events@),
{
    let mut files: Vec<String> = Vec::new();
    let mut i: usize = 0;
    assert(events@.take(0) =~= Seq::empty());
    assert(text_views(files@) =~= all_files(events@.take(0)));
    while i < events.len()
        invariant
            i <= events.len(),
            text_views(files@) == all_files(events@.take(i as int)),
        decreases events.len() - i,
    {
        let ghost before = files@;
        files.push(events[i].prev_file_path.clone());
        assert(text_views(files@) =~= text_views(before).push(events@[i as int].prev_file_path@));
        let sources = &events[i].recovery_source_paths;
        let ghost base = text_views(files@);
        let mut k: usize = 0;
        assert(base + text_views(sources@.take(0)) =~= base);
        while k < sources.len()
            invariant
                k <= sources.len(),
                text_views(files@) == base + text_views(sources@.take(k as int)),
            decreases sources.len() - k,
        {
            let ghost inner = files@;
            files.push(sources[k].clone());
            assert(text_views(files@) =~= text_views(inner).push(sources@[k as int]@));
            assert(text_views(sources@.take(k + 1)) =~= text_views(sources@.take(k as int)).push(
                sources@[k as int]@,
            ));
            k = k + 1;
        }
        proof {
            assert(sources@.take(k as int) =~= sources@);
            assert(events@.take(i + 1).drop_last() =~= events@.take(i as int));
            assert(events@.take(i + 1).last() == events@[i as int]);
            assert(text_views(files@) =~= all_files(events@.take(i as int)) + files_of(
                events@[i as int],
            ));
        }
        i = i + 1;
    }
    assert(events@.take(i as int) =~= events@);
    files
}

/// What is written down of a batch that process `process_id` puts off at `created_ms`
/// milliseconds after the epoch; nothing for an empty batch.
pub fn defer_recovery_batch(
    events: &Vec<SegmentInfo>,
    error: &str,
    retry_interval: Span,
    process_id: u32,
    created_ms: u128,
) -> (manifest: Option<RecoveryManifest>)
    ensures
        manifest is Some <==> events@.len() > 0,
        manifest matches Some(m) ==> {
            let id = batch_id_spec(process_id, events@[0].segment_index, created_ms);
            &&& m.recovery_batch_id@ == id
            &&& m.manifest_name@ == ".biliup-recovery-"@ + id + ".json"@
            &&& m.temp_name@ == ".biliup-recovery-"@ + id + ".json.tmp"@
            &&& m.created_at_ms == created_ms
            &&& m.next_retry_at_ms == (if created_ms + retry_interval@ / (NANOS_PER_MILLI as int)
                <= u128::MAX {
                created_ms + retry_interval@ / (NANOS_PER_MILLI as int)
            } else {
                u128::MAX as int
            })
            &&& text_views(m.files@) == all_files(events@)
            &&& m.last_error@ == first_chars(
                join_spec(words_spec(error@), " "@),
                MANIFEST_ERROR_CHARS as int,
            )
        },
{
    if events.len() == 0 {
        return None;
    }
    let mut id: String = decimal_text(process_id as u128);
    id.append("-");
    let index: String = decimal_text(events[0].segment_index as u128);
    id.append(index.as_str());
    id.append("-");
    let stamp: String = decimal_text(created_ms);
    id.append(stamp.as_str());
    let mut manifest_name: String = own(".biliup-recovery-");
    manifest_name.append(id.as_str());
    manifest_name.append(".json");
    let mut temp_name: String = own(".biliup-recovery-");
    temp_name.append(id.as_str());
    temp_name.append(".json.tmp");
    let wait: u128 = retry_interval.as_millis();
    Some(
        RecoveryManifest {
            recovery_batch_id: id,
            manifest_name,
            temp_name,
            created_at_ms: created_ms,
            next_retry_at_ms: created_ms.saturating_add(wait),
            files: collect_files(events),
            last_error: bounded_diagnostic(error, MANIFEST_ERROR_CHARS),
        },
    )
}

/// The names of the files that joining a batch makes, all in the directory of its first segment.
#[derive(Debug)]
pub struct MergeNames {
    pub list: String,
    pub copied: String,
    pub remuxed: String,
    pub stem: String,
    pub suffix: String,
}

/// The stem that names are made from.
pub open spec fn stem_or_default(stem: Option<&str>) -> Seq<char> {
    match stem {
        Some(s) => s@,
        None => "segment"@,
    }
}

/// The part of the names that tells batches apart: the process and the index of the first
/// segment.
pub open spec fn merge_suffix(process_id: u32, segment_index: usize) -> Seq<char> {
    decimal(process_id as nat) + "-"@ + decimal(segment_index as nat)
}

impl MergeNames {
    /// The names for the batch whose first file has the stem `stem` and the index
    /// `segment_index`.
    pub fn new(stem: Option<&str>, process_id: u32, segment_index: usize) -> (names: MergeNames)
        ensures
            names.stem@ == stem_or_default(stem),
            names.suffix@ == merge_suffix(process_id, segment_index),
            names.list@ == "."@ + stem_or_default(stem) + "."@ + merge_suffix(
                process_id,
                segment_index,
            ) + ".concat.txt"@,
            names.copied@ == stem_or_default(stem) + "."@ + merge_suffix(process_id, segment_index)
                + ".recovered.flv"@,
            names.remuxed@ == stem_or_default(stem) + "."@ + merge_suffix(process_id, segment_index)
                + ".recovered.mkv"@,
    {
        let base: String = match stem {
            Some(s) => own(s),
            None => own("segment"),
        };
        let mut suffix: String = decimal_text(process_id as u128);
        suffix.append("-");
        let index: String = decimal_text(segment_index as u128);
        suffix.append(index.as_str());
        let mut list: String = own(".");
        list.append(base.as_str());
        list.append(".");
        list.append(suffix.as_str());
        list.append(".concat.txt");
        let mut copied: String = base.clone();
        copied.append(".");
        copied.append(suffix.as_str());
        copied.append(".recovered.flv");
        let mut remuxed: String = base.clone();
        remuxed.append(".");
        remuxed.append(suffix.as_str());
        remuxed.append(".recovered.mkv");
        MergeNames { list, copied, remuxed, stem: base, suffix }
    }

    /// The name of the file that segment number `index` of the batch is remuxed into.
    pub fn normalized(&self, index: usize) -> (name: String)
        ensures
            name@ == "."@ + self.stem@ + "."@ + self.suffix@ + "."@ + decimal(index as nat)
                + ".normalized.mkv"@,
    {
        let mut name: String = own(".");
        name.append(self.stem.as_str());
        name.append(".");
        name.append(self.suffix.as_str());
        name.append(".");
        let number: String = decimal_text(index as u128);
        name.append(number.as_str());
        name.append(".normalized.mkv");
        name
    }
}

/// A path in a concat list: in quotes, each quote in it closed, escaped and opened again.
pub open spec fn concat_line(path: Seq<char>) -> Seq<char> {
    "file '"@ + replace_spec(path, "'"@, "'\\''"@) + "'\n"@
}

/// The concat list of the paths.
pub open spec fn concat_list_spec(paths: Seq<Seq<char>>) -> Seq<char>
    decreases paths.len(),
{
    if paths.len() == 0 {
        Seq::empty()
    } else {
        concat_list_spec(paths.drop_last()) + concat_line(paths.last())
    }
}

/// The concat list of the absolute `paths`.
pub fn concat_list(paths: &Vec<String>) -> (list: String)
    ensures
        list@ == concat_list_spec(text_views(paths@)),
{
    let mut list: String = String::new();
    let mut i: usize = 0;
    assert(text_views(paths@.take(0)) =~= Seq::empty());
    proof {
        reveal_strlit("'");
    }
    while i < paths.len()
        invariant
            i <= paths.len(),
            "'"@.len() == 1,
            list@ == concat_list_spec(text_views(paths@.take(i as int))),
        decreases paths.len() - i,
    {
        let escaped: String = replace(paths[i].as_str(), "'", "'\\''");
        let ghost before = list@;
        list.append("file '");
        list.append(escaped.as_str());
        list.append("'\n");
        proof {
            let more = text_views(paths@.take(i + 1));
            assert(more.drop_last() =~= text_views(paths@.take(i as int)));
            assert(more.last() == paths@[i as int]@);
            assert(list@ =~= before + concat_line(paths@[i as int]@));
        }
        i = i + 1;
    }
    assert(paths@.take(i as int) =~= paths@);
    list
}

/// The next step of joining a batch.
#[derive(Debug, Clone, Copy, PartialEq, Eq, Structural)]
pub enum MergeStep {
    /// Join the files as they are.
    ConcatCopy,
    /// Remux segment number `index`.
    Remux { index: usize },
    /// Join the remuxed files.
    ConcatRemuxed,
    /// Look into the joined file: the copied one, or the remuxed one.
    Validate { remuxed: bool },
    /// The joined file is the result.
    Done { remuxed: bool },
    /// Joining failed.
    Failed { reason: MergeFailure },
}

/// Why joining a batch failed.
#[derive(Debug, Clone, Copy, PartialEq, Eq, Structural)]
pub enum MergeFailure {
    RemuxInput { index: usize },
    RemuxConcat,
    InvalidOutput { remuxed: bool },
}

/// What became of a step of joining a batch.
#[derive(Debug, Clone, Copy, PartialEq, Eq, Structural)]
pub enum MergeEvent {
    Succeeded,
    Failed,
}

/// The files that joining a batch has made and not removed.
pub struct MergeFiles {
    pub list: bool,
    pub copied: bool,
    pub remuxed: bool,
    pub normalized: Set<int>,
}

/// A batch of `count` segments that is being joined.
pub struct MergeRun {
    count: usize,
    step: MergeStep,
    files: Ghost<MergeFiles>,
}

/// Files that are to be removed after a step.
#[derive(Debug, Clone, Copy, PartialEq, Eq, Structural)]
pub struct MergeCleanup {
    pub list: bool,
    pub copied: bool,
    pub remuxed: bool,
    /// The remuxed files of the segments before this number.
    pub normalized: usize,
}

/// Nothing to remove.
pub open spec fn no_cleanup() -> MergeCleanup {
    MergeCleanup { list: false, copied: false, remuxed: false, normalized: 0 }
}

/// The step after `event`, and what is removed before it.
pub open spec fn merge_next(count: int, step: MergeStep, event: MergeEvent) -> (
    MergeStep,
    MergeCleanup,
) {
    match (step, event) {
        (MergeStep::ConcatCopy, MergeEvent::Succeeded) => (
            MergeStep::Validate { remuxed: false },
            MergeCleanup { list: true, ..no_cleanup() },
        ),
        (MergeStep::ConcatCopy, MergeEvent::Failed) => (
            if count == 0 {
                MergeStep::ConcatRemuxed
            } else {
                MergeStep::Remux { index: 0 }
            },
            MergeCleanup { copied: true, ..no_cleanup() },
        ),
        (MergeStep::Remux { index }, MergeEvent::Succeeded) => (
            if index + 1 < count {
                MergeStep::Remux { index: (index + 1) as usize }
            } else {
                MergeStep::ConcatRemuxed
            },
            no_cleanup(),
        ),
        (MergeStep::Remux { index }, MergeEvent::Failed) => (
            MergeStep::Failed { reason: MergeFailure::RemuxInput { index } },
            MergeCleanup { list: true, normalized: (index + 1) as usize, ..no_cleanup() },
        ),
        (MergeStep::ConcatRemuxed, MergeEvent::Succeeded) => (
            MergeStep::Validate { remuxed: true },
            MergeCleanup { list: true, normalized: count as usize, ..no_cleanup() },
        ),
        (MergeStep::ConcatRemuxed, MergeEvent::Failed) => (
            MergeStep::Failed { reason: MergeFailure::RemuxConcat },
            MergeCleanup { list: true, remuxed: true, normalized: count as usize, ..no_cleanup() },
        ),
        (MergeStep::Validate { remuxed }, MergeEvent::Succeeded) => (
            MergeStep::Done { remuxed },
            no_cleanup(),
        ),
        (MergeStep::Validate { remuxed }, MergeEvent::Failed) => (
            MergeStep::Failed { reason: MergeFailure::InvalidOutput { remuxed } },
            MergeCleanup { copied: !remuxed, remuxed, ..no_cleanup() },
        ),
        _ => (step, no_cleanup()),
    }
}

/// The files that a step may leave behind, whether it succeeds or not.
pub open spec fn made_by(files: MergeFiles, step: MergeStep) -> MergeFiles {
    match step {
        MergeStep::ConcatCopy => MergeFiles { list: true, copied: true, ..files },
        MergeStep::Remux { index } => MergeFiles {
            normalized: files.normalized.insert(index as int),
            ..files
        },
        MergeStep::ConcatRemuxed => MergeFiles { list: true, remuxed: true, ..files },
        _ => files,
    }
}

/// The files after a cleanup.
pub open spec fn cleaned(files: MergeFiles, cleanup: MergeCleanup) -> MergeFiles {
    MergeFiles {
        list: files.list && !cleanup.list,
        copied: files.copied && !cleanup.copied,
        remuxed: files.remuxed && !cleanup.remuxed,
        normalized: files.normalized.filter(|i: int| i >= cleanup.normalized),
    }
}

/// Whether a run in `step` may have left exactly these kinds of files behind.
pub open spec fn files_ok(count: int, step: MergeStep, files: MergeFiles) -> bool {
    match step {
        MergeStep::ConcatCopy => !files.list && !files.copied && !files.remuxed
            && files.normalized =~= Set::empty(),
        MergeStep::Remux { index } => index < count && !files.copied && !files.remuxed && (forall|
            i: int,
        | #[trigger]
            files.normalized.contains(i) ==> 0 <= i < index),
        MergeStep::ConcatRemuxed => !files.copied && !files.remuxed && (forall|i: int| #[trigger]
            files.normalized.contains(i) ==> 0 <= i < count),
        MergeStep::Validate { remuxed } | MergeStep::Done { remuxed } => !files.list
            && files.copied == !remuxed && files.remuxed == remuxed && files.normalized
            =~= Set::empty(),
        MergeStep::Failed { .. } => !files.list && !files.copied && !files.remuxed
            && files.normalized =~= Set::empty(),
    }
}

impl MergeRun {
    /// The step the run is at.
    pub closed spec fn at(&self) -> MergeStep {
        self.step
    }

    /// The number of segments of the batch.
    pub closed spec fn batch_len(&self) -> int {
        self.count as int
    }

    /// The files the run has made and not removed.
    pub closed spec fn files(&self) -> MergeFiles {
        self.files@
    }

    /// Whether the run has left no other files than it may at its step.
    pub open spec fn fits_together(&self) -> bool {
        files_ok(self.batch_len(), self.at(), self.files())
    }

    #[verifier::type_invariant]
    spec fn ok(self) -> bool {
        files_ok(self.count as int, self.step, self.files@)
    }

    /// Begins to join a batch of `count` segments.
    pub fn new(count: usize) -> (run: MergeRun)
        ensures
            run.batch_len() == count,
            run.at() is ConcatCopy,
            run.fits_together(),
    {
        MergeRun {
            count,
            step: MergeStep::ConcatCopy,
            files: Ghost(
                MergeFiles {
                    list: false,
                    copied: false,
                    remuxed: false,
                    normalized: Set::empty(),
                },
            ),
        }
    }

    /// The step the run is at.
    pub fn step(&self) -> (step: MergeStep)
        ensures
            step == self.at(),
    {
        self.step
    }

    /// Takes note of what became of the step the run is at; what is to be removed before the
    /// next.
    pub fn advance(&mut self, event: MergeEvent) -> (cleanup: MergeCleanup)
        ensures
            final(self).fits_together(),
            final(self).batch_len() == old(self).batch_len(),
            (final(self).at(), cleanup) == merge_next(old(self).batch_len(), old(self).at(), event),
            final(self).files() == cleaned(made_by(old(self).files(), old(self).at()), cleanup),
    {
        proof {
            use_type_invariant(&*self);
        }
        let (step, cleanup): (MergeStep, MergeCleanup) = next_merge_step(
            self.count,
            self.step,
            event,
        );
        let ghost left = cleaned(made_by(self.files@, self.step), cleanup);
        proof {
            lemma_merge_keeps_files(self.count as int, self.step, self.files@, event);
        }
        *self = MergeRun { count: self.count, step, files: Ghost(left) };
        cleanup
    }
}

fn next_merge_step(count: usize, step: MergeStep, event: MergeEvent) -> (next: (
    MergeStep,
    MergeCleanup,
))
    requires
        step matches MergeStep::Remux { index } ==> index < count,
    ensures
        next == merge_next(count as int, step, event),
{
    let nothing = MergeCleanup { list: false, copied: false, remuxed: false, normalized: 0 };
    let ok: bool = match event {
        MergeEvent::Succeeded => true,
        MergeEvent::Failed => false,
    };
    match step {
        MergeStep::ConcatCopy => if ok {
            (MergeStep::Validate { remuxed: false }, MergeCleanup { list: true, ..nothing })
        } else if count == 0 {
            (MergeStep::ConcatRemuxed, MergeCleanup { copied: true, ..nothing })
        } else {
            (MergeStep::Remux { index: 0 }, MergeCleanup { copied: true, ..nothing })
        },
        MergeStep::Remux { index } => if !ok {
            (
                MergeStep::Failed { reason: MergeFailure::RemuxInput { index } },
                MergeCleanup { list: true, normalized: index + 1, ..nothing },
            )
        } else if index + 1 < count {
            (MergeStep::Remux { index: index + 1 }, nothing)
        } else {
            (MergeStep::ConcatRemuxed, nothing)
        },
        MergeStep::ConcatRemuxed => if ok {
            (
                MergeStep::Validate { remuxed: true },
                MergeCleanup { list: true, normalized: count, ..nothing },
            )
        } else {
            (
                MergeStep::Failed { reason: MergeFailure::RemuxConcat },
                MergeCleanup { list: true, remuxed: true, normalized: count, ..nothing },
            )
        },
        MergeStep::Validate { remuxed } => if ok {
            (MergeStep::Done { remuxed }, nothing)
        } else {
            (
                MergeStep::Failed { reason: MergeFailure::InvalidOutput { remuxed } },
                MergeCleanup { copied: !remuxed, remuxed, ..nothing },
            )
        },
        _ => (step, nothing),
    }
}

proof fn lemma_merge_keeps_files(count: int, step: MergeStep, files: MergeFiles, event: MergeEvent)
    requires
        0 <= count <= usize::MAX,
        files_ok(count, step, files),
    ensures
        ({
            let (next, cleanup) = merge_next(count, step, event);
            files_ok(count, next, cleaned(made_by(files, step), cleanup))
        }),
{
    let (next, cleanup) = merge_next(count, step, event);
    let left = cleaned(made_by(files, step), cleanup);
    match next {
        MergeStep::Validate { .. } | MergeStep::Done { .. } | MergeStep::Failed { .. } => {
            assert(left.normalized =~= Set::empty());
        },
        _ => {},
    }
}

/// A run that has ended leaves nothing behind but the joined file of a success.
pub proof fn law_merge_leaves_no_temporary_files(run: MergeRun)
    requires
        run.fits_together(),
        run.at() is Done || run.at() is Failed,
    ensures
        !run.files().list,
        run.files().normalized =~= Set::empty(),
        run.at() is Failed ==> !run.files().copied && !run.files().remuxed,
        run.at() matches MergeStep::Done { remuxed } ==> run.files().copied == !remuxed
            && run.files().remuxed == remuxed,
{
}

/// Whether `merged` is the segment that the joined batch `events` becomes: a new file with an id of
/// its own, made of the files of the batch, closed as the last of them.
pub open spec fn merges(
    merged: SegmentInfo,
    events: Seq<SegmentInfo>,
    output_path: String,
    segment_id: String,
) -> bool {
    &&& merged.prev_file_path == output_path
    &&& merged.danmaku_file_path is None
    &&& merged.next_file_path is None
    &&& merged.segment_index == events[0].segment_index
    &&& merged.close_reason == events.last().close_reason
    &&& merged.attempt_id == events[0].attempt_id
    &&& merged.segment_id == Some(segment_id)
    &&& text_views(merged.recovery_source_paths@) == events.map_values(
        |e: SegmentInfo| e.prev_file_path@,
    )
    &&& merged.enrollment is None
}

/// The segment that a joined batch becomes.
pub fn merged_segment(
    events: &Vec<SegmentInfo>,
    output_path: String,
    segment_id: String,
) -> (merged: SegmentInfo)
    requires
        events@.len() > 0,
    ensures
        merges(merged, events@, output_path, segment_id),
{
    let mut sources: Vec<String> = Vec::new();
    let mut i: usize = 0;
    while i < events.len()
        invariant
            i <= events.len(),
            sources.len() == i,
            forall|k: int| 0 <= k < i ==> (#[trigger] sources@[k])@ == events@[k].prev_file_path@,
        decreases events.len() - i,
    {
        sources.push(events[i].prev_file_path.clone());
        i = i + 1;
    }
    assert(text_views(sources@) =~= events@.map_values(|e: SegmentInfo| e.prev_file_path@));
    SegmentInfo {
        prev_file_path: output_path,
        danmaku_file_path: None,
        next_file_path: None,
        segment_index: events[0].segment_index,
        close_reason: events[events.len() - 1].close_reason,
        attempt_id: opt_own(&events[0].attempt_id),
        segment_id: Some(segment_id),
        recovery_source_paths: sources,
        enrollment: None,
    }
}

/// The segment that a joined batch becomes, under a fresh id.
pub fn merged_afresh(events: &Vec<SegmentInfo>, output_path: String) -> (merged: SegmentInfo)
    requires
        events@.len() > 0,
    ensures
        merged.segment_id matches Some(id) && is_fresh_form(id@) && merges(
            merged,
            events@,
            output_path,
            id,
        ),
{
    merged_segment(events, output_path, fresh_uuid())
}

} // verus!
