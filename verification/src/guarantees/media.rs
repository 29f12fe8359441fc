//! What is done with the media of a recording: which files are joined and how, what is read out
//! of them, and when their timestamps are repaired.
use crate::download::commands::{
    concat_merge_arguments, copy_merge_arguments, remux_input_arguments,
};
use crate::download::flv::{
    be24, be32, carries_media, codec_headers, flv_tags, hashed_writes, is_keyframe,
    is_sequence_header, is_tag, le_bytes, lemma_tags_before, sequence_headers, tag_bytes, FlvTag,
};
use crate::download::recovery::{
    all_files, batch_id_spec, chunked, concat_line, concat_list_spec, files_of, merge_next,
    merge_suffix, merges, run_length, MergeCleanup, MergeEvent, MergeFailure, MergeStep,
};
use crate::download::segments::{SegmentCloseReason, SegmentInfo};
use crate::download::workflow::{is_configured_split, or_unknown};
use crate::ffmpeg_args::ArgView;
use crate::ffmpeg_scan::{
    after_line, backward_step, begin_apart, begins_after, cut_off, fault_fields, fed, is_start_skew,
    larger, names_fault, next_boundary, packet_fields, tail_window, Packet, PacketJumpScan,
    PacketScanModel,
    StderrScan,
};
use crate::guarantees::wording::{law_cutting_once, law_the_first_place_is_found};
use crate::parse::{after_last, find_spec, front_number, split_once_spec, split_spec, whole_number};
use crate::path_safety::{
    file_name, goes_up, is_within, last_dot, name_stem, names_something, naming_pieces, path_names,
    path_stem, resolved, PathRejection,
};
use crate::text::{contains_text, decimal, occurs_at, replace_spec, text_views, trim_spec};
use crate::timestamp_repair::{
    delta_setts_spec, detect_arguments, next_step, packet_scan_arguments, packets_verdict,
    remux_arguments, repaired_name, Detection, RepairEvent, RepairFallbackReason, RepairOutcome,
    RepairStep,
};
use vstd::prelude::*;
use vstd::utf8::is_char_boundary;

verus! {

/// Neighbours with the same key are joined as far as they go on: a run holds every following file
/// up to the first whose key is missing or another.
pub proof fn law_equal_neighbours_are_joined(keys: Seq<Option<u64>>, from: int, upto: int)
    requires
        0 <= from <= upto < keys.len(),
        forall|j: int|
            from <= j < upto ==> (#[trigger] keys[j]) is Some && keys[j] == keys[j + 1],
    ensures
        run_length(keys, from) >= upto - from + 1,
        from + run_length(keys, from) <= keys.len(),
        from + run_length(keys, from) < keys.len() ==> ({
            let end = from + run_length(keys, from);
            keys[end - 1] is None || keys[end - 1] != keys[end]
        }),
    decreases keys.len() - from,
{
    if from < upto {
        assert(keys[from] is Some && keys[from] == keys[from + 1]);
        law_equal_neighbours_are_joined(keys, from + 1, upto);
    } else if from + 1 < keys.len() && keys[from] is Some && keys[from] == keys[from + 1] {
        law_equal_neighbours_are_joined(keys, from + 1, from + 1);
    }
}

/// A group is cut only where it must be: every piece but the last is as long as allowed.
pub proof fn law_pieces_are_as_long_as_allowed(group: Seq<SegmentInfo>, size: int, i: int)
    requires
        size >= 1,
        0 <= i < chunked(group, size).len() - 1,
    ensures
        chunked(group, size)[i].len() == size,
        group.len() > size,
    decreases group.len(),
{
    if group.len() > size {
        let rest = chunked(group.skip(size), size);
        assert(chunked(group, size) =~= seq![group.take(size)] + rest);
        if i > 0 {
            law_pieces_are_as_long_as_allowed(group.skip(size), size, i - 1);
        }
    }
}

/// A group that is no longer than allowed is joined whole.
pub proof fn law_a_short_group_stays_whole(group: Seq<SegmentInfo>, size: int)
    requires
        0 < group.len() <= size,
    ensures
        chunked(group, size) == seq![group],
{
}

/// Files are first joined as they are. Where that fails each is remuxed, in order, and the remuxed
/// files are joined; what was joined is looked into before it counts, and a failure on the way
/// ends the run.
pub proof fn law_how_files_are_joined(count: int, index: usize, remuxed: bool)
    requires
        0 <= index < count <= usize::MAX,
    ensures
        merge_next(count, MergeStep::ConcatCopy, MergeEvent::Succeeded).0 == (MergeStep::Validate {
            remuxed: false,
        }),
        merge_next(count, MergeStep::ConcatCopy, MergeEvent::Failed).0 == (MergeStep::Remux {
            index: 0,
        }),
        index + 1 < count ==> merge_next(
            count,
            MergeStep::Remux { index },
            MergeEvent::Succeeded,
        ).0 == (MergeStep::Remux { index: (index + 1) as usize }),
        index + 1 == count ==> merge_next(
            count,
            MergeStep::Remux { index },
            MergeEvent::Succeeded,
        ).0 == MergeStep::ConcatRemuxed,
        merge_next(count, MergeStep::Remux { index }, MergeEvent::Failed).0 == (MergeStep::Failed {
            reason: MergeFailure::RemuxInput { index },
        }),
        merge_next(count, MergeStep::ConcatRemuxed, MergeEvent::Succeeded).0
            == (MergeStep::Validate { remuxed: true }),
        merge_next(count, MergeStep::ConcatRemuxed, MergeEvent::Failed).0 == (MergeStep::Failed {
            reason: MergeFailure::RemuxConcat,
        }),
        merge_next(count, MergeStep::Validate { remuxed }, MergeEvent::Succeeded).0
            == (MergeStep::Done { remuxed }),
        merge_next(count, MergeStep::Validate { remuxed }, MergeEvent::Failed).0
            == (MergeStep::Failed { reason: MergeFailure::InvalidOutput { remuxed } }),
{
}

/// What is removed on the way: a joined file that failed, every remuxed file once it is joined or
/// the run fails, and the list at the end of each; never the file that counts.
pub proof fn law_what_is_removed_on_the_way(count: int, index: usize, remuxed: bool)
    requires
        0 <= index < count <= usize::MAX,
    ensures
        merge_next(count, MergeStep::Validate { remuxed }, MergeEvent::Succeeded).1
            == (MergeCleanup { list: false, copied: false, remuxed: false, normalized: 0 }),
        merge_next(count, MergeStep::Validate { remuxed }, MergeEvent::Failed).1 == (MergeCleanup {
            list: false,
            copied: !remuxed,
            remuxed,
            normalized: 0,
        }),
        merge_next(count, MergeStep::ConcatCopy, MergeEvent::Succeeded).1 == (MergeCleanup {
            list: true,
            copied: false,
            remuxed: false,
            normalized: 0,
        }),
        merge_next(count, MergeStep::ConcatCopy, MergeEvent::Failed).1.copied,
        merge_next(count, MergeStep::Remux { index }, MergeEvent::Failed).1 == (MergeCleanup {
            list: true,
            copied: false,
            remuxed: false,
            normalized: (index + 1) as usize,
        }),
        merge_next(count, MergeStep::ConcatRemuxed, MergeEvent::Succeeded).1 == (MergeCleanup {
            list: true,
            copied: false,
            remuxed: false,
            normalized: count as usize,
        }),
        merge_next(count, MergeStep::ConcatRemuxed, MergeEvent::Failed).1 == (MergeCleanup {
            list: true,
            copied: false,
            remuxed: true,
            normalized: count as usize,
        }),
{
}

/// The joined segment stands for its parts: it has the number and the attempt of the first, ends
/// as the last did, lists every file that went into it, and is not enrolled yet.
pub proof fn law_a_joined_segment_stands_for_its_parts(
    merged: SegmentInfo,
    events: Seq<SegmentInfo>,
    output_path: String,
    segment_id: String,
    i: int,
)
    requires
        merges(merged, events, output_path, segment_id),
        0 <= i < events.len(),
    ensures
        merged.prev_file_path == output_path,
        merged.segment_index == events[0].segment_index,
        merged.attempt_id == events[0].attempt_id,
        merged.close_reason == events[events.len() - 1].close_reason,
        merged.segment_id == Some(segment_id),
        merged.recovery_source_paths@.len() == events.len(),
        merged.recovery_source_paths@[i]@ == events[i].prev_file_path@,
        merged.enrollment is None,
        merged.danmaku_file_path is None,
        merged.next_file_path is None,
{
    let paths = text_views(merged.recovery_source_paths@);
    let sources = events.map_values(|e: SegmentInfo| e.prev_file_path@);
    assert(paths.len() == merged.recovery_source_paths@.len());
    assert(sources.len() == events.len());
    assert(paths[i] == sources[i]);
    assert(paths[i] == merged.recovery_source_paths@[i]@);
    assert(sources[i] == events[i].prev_file_path@);
}

/// The manifest of a batch names the file of every segment and the files that it was made of, one
/// segment after the other.
pub proof fn law_a_manifest_names_every_file(events: Seq<SegmentInfo>, segment: SegmentInfo)
    ensures
        all_files(Seq::<SegmentInfo>::empty()).len() == 0,
        all_files(events.push(segment)) == all_files(events).push(segment.prev_file_path@)
            + text_views(segment.recovery_source_paths@),
        files_of(segment)[0] == segment.prev_file_path@,
{
    assert(events.push(segment).drop_last() =~= events);
    assert(all_files(events) + files_of(segment) =~= all_files(events).push(
        segment.prev_file_path@,
    ) + text_views(segment.recovery_source_paths@));
}

/// The list of files to join has one line for each, quoted, with every quote inside it closed,
/// escaped and opened again.
pub proof fn law_lists_are_quoted(paths: Seq<Seq<char>>, path: Seq<char>)
    ensures
        concat_list_spec(Seq::<Seq<char>>::empty()).len() == 0,
        concat_list_spec(paths.push(path)) == concat_list_spec(paths) + ("file '"@ + replace_spec(
            path,
            "'"@,
            "'\\''"@,
        ) + "'\n"@),
        concat_line(path) == "file '"@ + replace_spec(path, "'"@, "'\\''"@) + "'\n"@,
{
    assert(paths.push(path).drop_last() =~= paths);
}

/// Batches and joined files are named after the process, the segment and the time.
pub proof fn law_batches_are_named(process: u32, index: usize, ms: u128)
    ensures
        batch_id_spec(process, index, ms) == decimal(process as nat) + "-"@ + decimal(index as nat)
            + "-"@ + decimal(ms as nat),
        merge_suffix(process, index) == decimal(process as nat) + "-"@ + decimal(index as nat),
{
}

/// A tag describes a codec where it is audio of format 10 or video of format 7 and its second byte
/// is zero; it carries media where it does not; and it is a keyframe where it is video of frame
/// type 1 that carries media. The format of audio is the upper half of the first byte, that of
/// video the lower half.
pub proof fn law_what_a_tag_is(tag: FlvTag)
    ensures
        tag.kind == 8 && tag.body.len() > 2 ==> (is_sequence_header(tag) <==> tag.body[0] as int
            / 16 == 10 && tag.body[1] == 0),
        tag.kind == 9 && tag.body.len() > 5 ==> (is_sequence_header(tag) <==> tag.body[0] as int
            % 16 == 7 && tag.body[1] == 0),
        tag.kind == 8 && tag.body.len() > 1 ==> (carries_media(tag) <==> tag.body[0] as int / 16
            != 10 || tag.body[1] == 1),
        tag.kind == 9 && tag.body.len() > 1 ==> (carries_media(tag) <==> tag.body[0] as int % 16
            != 7 || tag.body[1] == 1),
        tag.kind == 9 && tag.body.len() > 1 ==> (is_keyframe(tag) <==> tag.body[0] as int / 16 == 1
            && (tag.body[0] as int % 16 != 7 || tag.body[1] == 1)),
        tag.kind != 8 && tag.kind != 9 ==> !is_sequence_header(tag) && !carries_media(tag)
            && !is_keyframe(tag),
        tag.body.len() == 0 ==> !is_sequence_header(tag) && !carries_media(tag) && !is_keyframe(
            tag,
        ),
{
    if tag.body.len() > 0 {
        let b: u8 = tag.body[0];
        assert(b >> 4 == b / 16) by (bit_vector);
        assert(b & 0x0f == b % 16) by (bit_vector);
    }
}

/// A tag with what stands round it in a file: its kind, the seven bytes of its times, its body and
/// the four bytes of its size.
pub struct WrittenTag {
    pub kind: u8,
    pub stamp: Seq<u8>,
    pub body: Seq<u8>,
    pub size: Seq<u8>,
}

/// The bytes of the tags, one behind the other.
pub open spec fn written(tags: Seq<WrittenTag>) -> Seq<u8>
    decreases tags.len(),
{
    if tags.len() == 0 {
        Seq::<u8>::empty()
    } else {
        written(tags.drop_last()) + tag_bytes(
            tags.last().kind,
            tags.last().stamp,
            tags.last().body,
            tags.last().size,
        )
    }
}

/// The tags without what stands round them.
pub open spec fn bare(tags: Seq<WrittenTag>) -> Seq<FlvTag> {
    tags.map_values(|t: WrittenTag| FlvTag { kind: t.kind, body: t.body })
}

proof fn lemma_written(head: Seq<u8>, tags: Seq<WrittenTag>)
    requires
        forall|i: int|
            0 <= i < tags.len() ==> (#[trigger] tags[i]).stamp.len() == 7 && tags[i].size.len() == 4
                && tags[i].body.len() < 16_777_216,
    ensures
        flv_tags(head + written(tags), head.len() as int) == Some(bare(tags)),
    decreases tags.len(),
{
    let at = head.len() as int;
    if tags.len() == 0 {
        assert(head + written(tags) =~= head);
        assert(bare(tags) =~= Seq::<FlvTag>::empty());
    } else {
        let front = tags.drop_last();
        let last = tags.last();
        let more = tag_bytes(last.kind, last.stamp, last.body, last.size);
        assert(tags[tags.len() - 1] == last);
        assert forall|i: int| 0 <= i < front.len() implies (#[trigger] front[i]).stamp.len() == 7
            && front[i].size.len() == 4 && front[i].body.len() < 16_777_216 by {
            assert(front[i] == tags[i]);
        }
        lemma_written(head, front);
        assert(more =~= more.take(more.len() as int));
        assert(is_tag(last.stamp, last.body, last.size));
        lemma_tags_before(
            head + written(front),
            more,
            at,
            last.kind,
            last.stamp,
            last.body,
            last.size,
        );
        assert(head + written(tags) =~= (head + written(front)) + more);
        assert(bare(tags) =~= bare(front).push(FlvTag { kind: last.kind, body: last.body }));
    }
}

/// Every tag that was written into a file is read out of it again, with its kind and its body.
pub proof fn law_tags_are_read_back(head: Seq<u8>, tags: Seq<WrittenTag>)
    requires
        head.len() == 13,
        forall|i: int|
            0 <= i < tags.len() ==> (#[trigger] tags[i]).stamp.len() == 7 && tags[i].size.len() == 4
                && tags[i].body.len() < 16_777_216,
    ensures
        flv_tags(head + written(tags), 13) == Some(bare(tags)),
{
    lemma_written(head, tags);
}

/// A file that begins as FLV, describes a codec and carries media shows the codecs it describes,
/// provided that one with a description of video has a keyframe; a file that lacks any of this
/// shows none.
pub proof fn law_a_recording_shows_its_codecs(head: Seq<u8>, tags: Seq<WrittenTag>)
    requires
        head.len() == 13,
        head[5] == 0,
        head[6] == 0,
        head[7] == 0,
        head[8] == 9,
        tags.len() > 0,
        forall|i: int|
            0 <= i < tags.len() ==> (#[trigger] tags[i]).stamp.len() == 7 && tags[i].size.len() == 4
                && tags[i].body.len() < 16_777_216,
    ensures
        ({
            let found = codec_headers(head + written(tags));
            let headers = sequence_headers(bare(tags));
            let flv = head[0] == 0x46 && head[1] == 0x4c && head[2] == 0x56;
            let media = exists|i: int|
                0 <= i < tags.len() && carries_media(#[trigger] bare(tags)[i]);
            let video = exists|i: int| 0 <= i < headers.len() && (#[trigger] headers[i]).kind == 9;
            let keyframe = exists|i: int|
                0 <= i < tags.len() && is_keyframe(#[trigger] bare(tags)[i]);
            &&& flv && headers.len() > 0 && media && (video ==> keyframe) ==> found == Some(headers)
            &&& !flv || headers.len() == 0 || !media || (video && !keyframe) ==> found is None
        }),
{
    let bytes = head + written(tags);
    lemma_written(head, tags);
    lemma_written_len(tags);
    assert(bytes[5] == 0 && bytes[6] == 0 && bytes[7] == 0 && bytes[8] == 9);
    assert(be24(bytes, 6) == 9);
    assert(be32(bytes, 5) == 9);
    let magic = seq![0x46u8, 0x4c, 0x56];
    let front = bytes.subrange(0, 3);
    assert(front[0] == head[0] && front[1] == head[1] && front[2] == head[2]);
    if head[0] == 0x46 && head[1] == 0x4c && head[2] == 0x56 {
        assert(front =~= magic);
    } else {
        assert(magic[0] == 0x46 && magic[1] == 0x4c && magic[2] == 0x56);
        assert(front != magic);
    }
}

proof fn lemma_written_len(tags: Seq<WrittenTag>)
    requires
        tags.len() > 0,
    ensures
        written(tags).len() > 0,
{
}

/// The codecs that a file shows are the tags that describe one, in their order.
pub proof fn law_codecs_keep_their_order(tags: Seq<FlvTag>, tag: FlvTag)
    ensures
        sequence_headers(Seq::<FlvTag>::empty()).len() == 0,
        is_sequence_header(tag) ==> sequence_headers(tags.push(tag)) == sequence_headers(tags).push(
            tag,
        ),
        !is_sequence_header(tag) ==> sequence_headers(tags.push(tag)) == sequence_headers(tags),
{
    assert(tags.push(tag).drop_last() =~= tags);
}

proof fn lemma_hashed_len(headers: Seq<FlvTag>)
    ensures
        hashed_writes(headers).len() == 3 * headers.len(),
    decreases headers.len(),
{
    if headers.len() > 0 {
        lemma_hashed_len(headers.drop_last());
    }
}

/// What goes into the key tells two lists of codecs apart: nothing of a kind or a body is left
/// out.
pub proof fn law_the_key_is_made_of_everything(a: Seq<FlvTag>, b: Seq<FlvTag>)
    requires
        hashed_writes(a) == hashed_writes(b),
    ensures
        a == b,
    decreases a.len(),
{
    lemma_hashed_len(a);
    lemma_hashed_len(b);
    if a.len() == 0 {
        assert(a =~= b);
    } else {
        let n = 3 * a.len() as int;
        let x = hashed_writes(a);
        let y = hashed_writes(b);
        lemma_hashed_len(a.drop_last());
        lemma_hashed_len(b.drop_last());
        assert(x[n - 1] == a.last().body && y[n - 1] == b.last().body);
        assert(x[n - 3] == seq![a.last().kind] && y[n - 3] == seq![b.last().kind]);
        assert(seq![a.last().kind][0] == seq![b.last().kind][0]);
        assert(x.take(n - 3) =~= hashed_writes(a.drop_last()));
        assert(y.take(n - 3) =~= hashed_writes(b.drop_last()));
        law_the_key_is_made_of_everything(a.drop_last(), b.drop_last());
        assert(a =~= a.drop_last().push(a.last()));
        assert(b =~= b.drop_last().push(b.last()));
    }
}

/// A number is written byte by byte, the least first.
pub proof fn law_numbers_are_written_least_first(n: int, width: nat)
    requires
        0 <= n,
    ensures
        le_bytes(n, width).len() == width,
        width > 0 ==> le_bytes(n, width)[0] == n % 256,
        width > 0 ==> le_bytes(n, width).skip(1) == le_bytes(n / 256, (width - 1) as nat),
    decreases width,
{
    if width > 0 {
        vstd::arithmetic::div_mod::lemma_div_pos_is_pos(n, 256);
        law_numbers_are_written_least_first(n / 256, (width - 1) as nat);
        assert(le_bytes(n, width).skip(1) =~= le_bytes(n / 256, (width - 1) as nat));
    }
}

/// A line names a fault of timestamps where it holds one of these words, and otherwise not.
pub proof fn law_faults_are_known_by_their_words(text: Seq<char>)
    ensures
        names_fault(text) <==> contains_text(text, "Non-monotonic DTS"@) || contains_text(
            text,
            "non monotonically increasing dts"@,
        ) || contains_text(text, "timestamp discontinuity"@) || contains_text(
            text,
            "Invalid timestamp"@,
        ) || contains_text(text, "Application provided invalid"@),
{
}

/// How far a fault goes back: from the number before ` >= ` to the one behind it, or from the
/// number behind `previous:` to the one behind `current:`; and only where it does go back.
pub proof fn law_how_far_a_fault_goes_back(
    line: Seq<char>,
    front: Seq<char>,
    back: Seq<char>,
    before: int,
    after: int,
)
    requires
        split_once_spec(line, " >= "@) == Some((front, back)),
        front_number(after_last(front, ':')) == Some(before),
        front_number(back) == Some(after),
        before - after <= i64::MAX,
    ensures
        before > after ==> backward_step(line) == Some(before - after),
        before <= after ==> backward_step(line) is None,
{
    assert(fault_fields(line) == Some((after_last(front, ':'), back)));
}

/// A scan of the diagnostics never forgets a fault, counts every line that names one, and keeps
/// the largest step back that such a line tells.
pub proof fn law_no_fault_is_forgotten(before: StderrScan, line: Seq<char>, after: StderrScan)
    requires
        after_line(before, line, after),
    ensures
        before.timestamp_anomaly ==> after.timestamp_anomaly,
        contains_text(line, "Non-monotonic DTS"@) ==> after.timestamp_anomaly
            && after.anomaly_lines == before.anomaly_lines + 1,
        !names_fault(line) ==> after.timestamp_anomaly == before.timestamp_anomaly
            && after.anomaly_lines == before.anomaly_lines && after.max_backward_ms
            == before.max_backward_ms,
        before.max_backward_ms is Some ==> after.max_backward_ms is Some
            && after.max_backward_ms->0 >= before.max_backward_ms->0,
        names_fault(line) && backward_step(line) is Some ==> after.max_backward_ms is Some
            && after.max_backward_ms->0 >= backward_step(line)->0,
        after.max_backward_ms is Some && after.max_backward_ms != before.max_backward_ms
            ==> backward_step(line) == Some(after.max_backward_ms->0 as int),
{
}

/// The larger of two is kept.
pub proof fn law_the_larger_is_kept(seen: Option<int>, now: int)
    ensures
        larger(seen, now) is Some,
        larger(seen, now)->0 >= now,
        seen is Some ==> larger(seen, now)->0 >= seen->0,
        larger(seen, now) == Some(now) || larger(seen, now) == seen,
{
}

/// A packet that lies more than thirty seconds behind the one before it in its stream is a jump;
/// one that lies thirty seconds behind it or less is none, and the first of a stream never is.
pub proof fn law_thirty_seconds_are_a_jump(scan: PacketScanModel, packet: Packet)
    ensures
        ({
            let after = fed(scan, packet);
            let known = scan.clocks.dom().contains(packet.stream);
            let step = packet.ms - scan.clocks[packet.stream].1;
            &&& !known || step <= 30_000 ==> after.max_jump == scan.max_jump
            &&& known && 30_000 < step <= i64::MAX ==> after.max_jump is Some && after.max_jump->0
                >= step && (scan.max_jump is Some ==> after.max_jump->0 >= scan.max_jump->0)
            &&& after.packets == scan.packets + 1
            &&& after.clocks.dom().contains(packet.stream)
            &&& after.clocks[packet.stream].1 == packet.ms
            &&& !known ==> after.clocks[packet.stream].0 == packet.ms
            &&& known ==> after.clocks[packet.stream].0 == scan.clocks[packet.stream].0
        }),
{
}

/// Streams that begin more than thirty seconds apart begin apart.
pub proof fn law_streams_begin_together(clocks: Map<int, (int, int)>, a: int, b: int)
    requires
        clocks.dom().contains(a),
        clocks.dom().contains(b),
    ensures
        clocks[a].0 - clocks[b].0 > 30_000 ==> begin_apart(clocks),
        !begin_apart(clocks) ==> clocks[a].0 - clocks[b].0 <= 30_000,
{
    assert(begins_after(clocks, a, b) == clocks[a].0 - clocks[b].0);
}

/// How far apart the streams of a file begin is no less than the distance of any two of them, is
/// the distance of some two, and is nothing where there is but one stream or none.
pub proof fn law_how_far_apart_streams_begin(
    clocks: Map<int, (int, int)>,
    skew: int,
    a: int,
    b: int,
)
    requires
        is_start_skew(clocks, skew),
    ensures
        clocks.dom().contains(a) && clocks.dom().contains(b) && clocks[a].0 - clocks[b].0
            <= i64::MAX ==> skew >= clocks[a].0 - clocks[b].0,
        clocks.dom().contains(a) ==> skew >= 0,
        clocks.dom() == Set::<int>::empty() ==> skew == 0,
        skew > 0 ==> exists|x: int, y: int|
            clocks.dom().contains(x) && clocks.dom().contains(y) && #[trigger] begins_after(
                clocks,
                x,
                y,
            ) >= skew,
        clocks.dom() == set![a] ==> skew == 0,
{
    assert(begins_after(clocks, a, b) == clocks[a].0 - clocks[b].0);
    assert(begins_after(clocks, a, a) == 0);
    if skew > 0 {
        let (x, y) = choose|x: int, y: int|
            clocks.dom().contains(x) && clocks.dom().contains(y) && skew == cut_off(
                #[trigger] begins_after(clocks, x, y),
            );
        assert(begins_after(clocks, x, y) >= skew);
    }
    if clocks.dom() == set![a] {
        assert(clocks.dom().contains(a));
    }
}

/// A line of the packet list is the number of a stream, a comma and the seconds; a line without a
/// comma is none.
pub proof fn law_what_a_packet_line_says(line: Seq<char>)
    ensures
        !contains_text(trim_spec(line), ","@) ==> packet_fields(line) is None,
        packet_fields(line) is Some ==> exists|stream: Seq<char>, rest: Seq<char>|
            trim_spec(line) == #[trigger] (stream + ","@ + rest) && whole_number(stream) == Some(
                (packet_fields(line)->0).0,
            ) && (packet_fields(line)->0).1 == trim_spec(rest),
{
    law_cutting_once(trim_spec(line), ","@);
    law_the_first_place_is_found(trim_spec(line), ","@);
    match split_once_spec(trim_spec(line), ","@) {
        Some((stream, rest)) => {
            assert(stream + ","@ + rest == trim_spec(line));
        },
        None => {},
    }
}

/// A number without a comma, a comma and the seconds are read back as the stream and its seconds.
pub proof fn law_a_packet_line_is_read_back(
    line: Seq<char>,
    stream: Seq<char>,
    rest: Seq<char>,
    index: int,
)
    requires
        trim_spec(line) == stream + ","@ + rest,
        whole_number(stream) == Some(index),
        forall|i: int| 0 <= i < stream.len() ==> #[trigger] stream[i] != ',',
    ensures
        packet_fields(line) == Some((index, trim_spec(rest))),
{
    reveal_strlit(",");
    let text = trim_spec(line);
    let n = stream.len() as int;
    law_the_first_place_is_found(text, ","@);
    assert(text.subrange(n, n + 1) =~= ","@);
    assert(occurs_at(text, ","@, n));
    match find_spec(text, ","@) {
        Some(at) => {
            assert(text.subrange(at, at + 1) == ","@);
            assert(text.subrange(at, at + 1)[0] == text[at]);
            if at < n {
                assert(text[at] == stream[at]);
            }
            assert(at == n);
            assert(text.take(n) =~= stream);
            assert(text.skip(n + 1) =~= rest);
        },
        None => {
            assert(contains_text(text, ","@));
        },
    }
}

/// Up to 65536 bytes of diagnostics are kept whole.
pub proof fn law_short_diagnostics_are_kept_whole(bytes: Seq<u8>)
    requires
        bytes.len() <= 65536,
    ensures
        tail_window(bytes) == bytes,
{
}

/// A scan of packets finds a fault where there is a jump or streams begin apart; without one, and
/// without a scan, the recording is clean.
pub proof fn law_packets_decide(scan: PacketJumpScan)
    ensures
        packets_verdict(None) == Detection::Clean,
        scan.max_forward_jump_ms is Some ==> packets_verdict(Some(scan)) == (Detection::Anomalous {
            max_backward_ms: None,
        }),
        begin_apart(scan@.clocks) ==> packets_verdict(Some(scan)) == (Detection::Anomalous {
            max_backward_ms: None,
        }),
        scan.max_forward_jump_ms is None && !begin_apart(scan@.clocks) ==> packets_verdict(
            Some(scan),
        ) == Detection::Clean,
{
}

/// A clean source is left alone; a faulty one is rewritten and looked into again; the repaired
/// file counts only where it is then clean, and is removed otherwise; whatever cannot be found
/// out falls back to the source.
pub proof fn law_how_timestamps_are_repaired(amount: Option<i64>)
    ensures
        next_step(RepairStep::Detect, RepairEvent::Detected(Some(Detection::Clean)))
            == (RepairStep::Finished { outcome: RepairOutcome::Clean, remove_repaired: false }),
        next_step(
            RepairStep::Detect,
            RepairEvent::Detected(Some(Detection::Anomalous { max_backward_ms: amount })),
        ) == RepairStep::Remux,
        next_step(RepairStep::Detect, RepairEvent::Detected(None)) == (RepairStep::Finished {
            outcome: RepairOutcome::Fallback(RepairFallbackReason::DetectFailed),
            remove_repaired: false,
        }),
        next_step(RepairStep::Remux, RepairEvent::Remuxed(true)) == RepairStep::Verify,
        next_step(RepairStep::Remux, RepairEvent::Remuxed(false)) == (RepairStep::Finished {
            outcome: RepairOutcome::Fallback(RepairFallbackReason::RemuxFailed),
            remove_repaired: true,
        }),
        next_step(RepairStep::Verify, RepairEvent::Detected(Some(Detection::Clean)))
            == (RepairStep::Finished { outcome: RepairOutcome::Repaired, remove_repaired: false }),
        next_step(
            RepairStep::Verify,
            RepairEvent::Detected(Some(Detection::Anomalous { max_backward_ms: amount })),
        ) == (RepairStep::Finished { outcome: RepairOutcome::Unfixable, remove_repaired: true }),
        next_step(RepairStep::Verify, RepairEvent::Detected(None)) == (RepairStep::Finished {
            outcome: RepairOutcome::Fallback(RepairFallbackReason::VerificationFailed),
            remove_repaired: true,
        }),
{
}

/// A run that is over stays over, and an event that does not fit the step changes nothing.
pub proof fn law_a_finished_repair_stays_finished(
    outcome: RepairOutcome,
    remove_repaired: bool,
    event: RepairEvent,
    found: Option<Detection>,
    accepted: bool,
)
    ensures
        next_step(RepairStep::Finished { outcome, remove_repaired }, event)
            == (RepairStep::Finished { outcome, remove_repaired }),
        next_step(RepairStep::Detect, RepairEvent::Remuxed(accepted)) == RepairStep::Detect,
        next_step(RepairStep::Verify, RepairEvent::Remuxed(accepted)) == RepairStep::Verify,
        next_step(RepairStep::Remux, RepairEvent::Detected(found)) == RepairStep::Remux,
{
}

/// The filter steps every packet on by what it lies behind the one before it, by one where that
/// is not forward or more than thirty seconds, and lets a first packet that lies more than thirty
/// seconds in begin at zero.
pub proof fn law_what_the_filter_says(chain: Seq<char>)
    ensures
        ({
            let step = "if(gt(DTS-PREV_INDTS\\,"@ + decimal(30_000)
                + ")\\,1\\,max(DTS-PREV_INDTS\\,1))"@;
            let first = "if(gt(DTS\\,"@ + decimal(30_000) + ")\\,0\\,DTS)"@;
            delta_setts_spec(chain) == chain + "setts=pts=if(lt(PREV_OUTDTS\\,-1e15)\\,"@ + first
                + "+PTS-DTS\\,PREV_OUTDTS+"@ + step
                + "+PTS-DTS):dts=if(lt(PREV_OUTDTS\\,-1e15)\\,"@ + first + "\\,PREV_OUTDTS+"@ + step
                + ")"@
        }),
{
}

/// The repaired file is named after the source and the process.
pub proof fn law_the_repaired_file_is_named(stem: Seq<char>, process: nat)
    ensures
        repaired_name(Some(stem), process) == stem + "."@ + decimal(process) + ".fixed.mp4"@,
        repaired_name(None, process) == "segment"@ + "."@ + decimal(process) + ".fixed.mp4"@,
{
}

spec fn word(text: Seq<char>) -> ArgView {
    ArgView::Text(text)
}

/// Whether `args` holds `name` directly before `value`.
pub open spec fn sets(args: Seq<ArgView>, name: Seq<char>, value: ArgView) -> bool {
    exists|i: int|
        0 <= i && i + 1 < args.len() && #[trigger] args[i] == ArgView::Text(name) && args[i + 1]
            == value
}

proof fn lemma_sets(args: Seq<ArgView>, name: Seq<char>, value: ArgView, i: int)
    requires
        0 <= i,
        i + 1 < args.len(),
        args[i] == ArgView::Text(name),
        args[i + 1] == value,
    ensures
        sets(args, name, value),
{
}

/// A source is scanned by copying its streams to nowhere, with everything said that the tool has
/// to say; no file is written.
pub proof fn law_a_source_is_only_read(i: int)
    ensures
        sets(detect_arguments(), "-loglevel"@, ArgView::Text("verbose"@)),
        sets(detect_arguments(), "-i"@, ArgView::Input),
        sets(detect_arguments(), "-c"@, ArgView::Text("copy"@)),
        sets(detect_arguments(), "-f"@, ArgView::Text("null"@)),
        detect_arguments().last() == ArgView::Text("-"@),
        0 <= i < detect_arguments().len() ==> detect_arguments()[i] != ArgView::Output,
        sets(packet_scan_arguments(), "-v"@, ArgView::Text("error"@)),
        sets(
            packet_scan_arguments(),
            "-show_entries"@,
            ArgView::Text("packet=stream_index,dts_time"@),
        ),
        sets(packet_scan_arguments(), "-of"@, ArgView::Text("csv=p=0"@)),
        packet_scan_arguments().last() == ArgView::Input,
        0 <= i < packet_scan_arguments().len() ==> packet_scan_arguments()[i] != ArgView::Output,
{
    let detect = detect_arguments();
    lemma_sets(detect, "-loglevel"@, word("verbose"@), 1);
    lemma_sets(detect, "-i"@, ArgView::Input, 4);
    lemma_sets(detect, "-c"@, word("copy"@), 6);
    lemma_sets(detect, "-f"@, word("null"@), 8);
    let packets = packet_scan_arguments();
    lemma_sets(packets, "-v"@, word("error"@), 0);
    lemma_sets(packets, "-show_entries"@, word("packet=stream_index,dts_time"@), 2);
    lemma_sets(packets, "-of"@, word("csv=p=0"@), 4);
}

/// A source is rewritten without being encoded again: the first video and the first audio are
/// copied through the filters into the output.
pub proof fn law_a_source_is_rewritten_without_encoding()
    ensures
        ({
            let args = remux_arguments();
            &&& sets(args, "-i"@, ArgView::Input)
            &&& sets(args, "-fflags"@, ArgView::Text("+genpts"@))
            &&& sets(args, "-map"@, ArgView::Text("0:v:0?"@))
            &&& sets(args, "-map"@, ArgView::Text("0:a:0?"@))
            &&& sets(args, "-c"@, ArgView::Text("copy"@))
            &&& sets(args, "-bsf:v"@, ArgView::Text(delta_setts_spec(""@)))
            &&& sets(args, "-bsf:a"@, ArgView::Text(delta_setts_spec("aac_adtstoasc,"@)))
            &&& sets(args, "-movflags"@, ArgView::Text("+faststart"@))
            &&& sets(args, "-avoid_negative_ts"@, ArgView::Text("make_zero"@))
            &&& sets(args, "-muxdelay"@, ArgView::Text("0"@))
            &&& sets(args, "-muxpreload"@, ArgView::Text("0"@))
            &&& args.last() == ArgView::Output
            &&& args[3] == ArgView::Text("-y"@)
        }),
{
    let args = remux_arguments();
    lemma_sets(args, "-fflags"@, word("+genpts"@), 4);
    lemma_sets(args, "-i"@, ArgView::Input, 6);
    lemma_sets(args, "-map"@, word("0:v:0?"@), 8);
    lemma_sets(args, "-map"@, word("0:a:0?"@), 10);
    lemma_sets(args, "-c"@, word("copy"@), 12);
    lemma_sets(args, "-bsf:v"@, word(delta_setts_spec(""@)), 14);
    lemma_sets(args, "-bsf:a"@, word(delta_setts_spec("aac_adtstoasc,"@)), 16);
    lemma_sets(args, "-movflags"@, word("+faststart"@), 18);
    lemma_sets(args, "-avoid_negative_ts"@, word("make_zero"@), 20);
    lemma_sets(args, "-muxdelay"@, word("0"@), 22);
    lemma_sets(args, "-muxpreload"@, word("0"@), 24);
}

/// Files are joined, and remuxed for it, without being encoded again.
pub proof fn law_files_are_joined_without_encoding()
    ensures
        ({
            let args = copy_merge_arguments();
            &&& sets(args, "-fflags"@, ArgView::Text("+genpts+igndts"@))
            &&& sets(args, "-f"@, ArgView::Text("concat"@))
            &&& sets(args, "-safe"@, ArgView::Text("0"@))
            &&& sets(args, "-i"@, ArgView::Input)
            &&& sets(args, "-c"@, ArgView::Text("copy"@))
            &&& sets(args, "-avoid_negative_ts"@, ArgView::Text("make_zero"@))
            &&& args.last() == ArgView::Output
            &&& args[3] == ArgView::Text("-y"@)
        }),
        ({
            let args = remux_input_arguments();
            &&& sets(args, "-fflags"@, ArgView::Text("+genpts+igndts"@))
            &&& sets(args, "-i"@, ArgView::Input)
            &&& sets(args, "-map"@, ArgView::Text("0:v?"@))
            &&& sets(args, "-map"@, ArgView::Text("0:a?"@))
            &&& sets(args, "-c"@, ArgView::Text("copy"@))
            &&& sets(args, "-avoid_negative_ts"@, ArgView::Text("make_zero"@))
            &&& args.last() == ArgView::Output
            &&& args[3] == ArgView::Text("-y"@)
        }),
        ({
            let args = concat_merge_arguments();
            &&& sets(args, "-f"@, ArgView::Text("concat"@))
            &&& sets(args, "-safe"@, ArgView::Text("0"@))
            &&& sets(args, "-i"@, ArgView::Input)
            &&& sets(args, "-c"@, ArgView::Text("copy"@))
            &&& args.last() == ArgView::Output
            &&& args[3] == ArgView::Text("-y"@)
        }),
{
    let args = copy_merge_arguments();
    lemma_sets(args, "-fflags"@, word("+genpts+igndts"@), 4);
    lemma_sets(args, "-f"@, word("concat"@), 6);
    lemma_sets(args, "-safe"@, word("0"@), 8);
    lemma_sets(args, "-i"@, ArgView::Input, 10);
    lemma_sets(args, "-c"@, word("copy"@), 12);
    lemma_sets(args, "-avoid_negative_ts"@, word("make_zero"@), 14);
    let args = remux_input_arguments();
    lemma_sets(args, "-fflags"@, word("+genpts+igndts"@), 4);
    lemma_sets(args, "-i"@, ArgView::Input, 6);
    lemma_sets(args, "-map"@, word("0:v?"@), 8);
    lemma_sets(args, "-map"@, word("0:a?"@), 10);
    lemma_sets(args, "-c"@, word("copy"@), 12);
    lemma_sets(args, "-avoid_negative_ts"@, word("make_zero"@), 14);
    let args = concat_merge_arguments();
    lemma_sets(args, "-f"@, word("concat"@), 4);
    lemma_sets(args, "-safe"@, word("0"@), 6);
    lemma_sets(args, "-i"@, ArgView::Input, 8);
    lemma_sets(args, "-c"@, word("copy"@), 10);
}

/// A segment was ended as configured where it was split by time or by size.
pub proof fn law_which_splits_are_configured(reason: SegmentCloseReason)
    ensures
        is_configured_split(SegmentCloseReason::TimedSplit),
        is_configured_split(SegmentCloseReason::SizeSplit),
        !is_configured_split(SegmentCloseReason::TransportError),
        !is_configured_split(SegmentCloseReason::Other),
        or_unknown(None) == "unknown"@,
{
}

/// A path that stays inside is resolved to what it names: to its target where that is there, and
/// otherwise to the name in the directory that it stands in. What lies outside is refused as
/// such.
pub proof fn law_a_path_inside_is_resolved(
    root: Seq<Seq<char>>,
    path: Seq<char>,
    target: Option<Seq<Seq<char>>>,
    parent: Option<Seq<Seq<char>>>,
)
    requires
        path.len() == 0 || path[0] != '/',
        !goes_up(path),
    ensures
        target matches Some(there) ==> resolved(Some(root), path, target, parent) == (
        if root.len() <= there.len() && there.take(root.len() as int) == root {
            Ok::<Seq<Seq<char>>, PathRejection>(there)
        } else {
            Err(PathRejection::Escapes)
        }),
        target is None && path_names(path).len() > 0 && (parent matches Some(dir) && root.len()
            <= dir.len() && dir.take(root.len() as int) == root) ==> resolved(
            Some(root),
            path,
            target,
            parent,
        ) == Ok::<Seq<Seq<char>>, PathRejection>(parent->0.push(path_names(path).last())),
        target is None && path_names(path).len() > 0 && parent is Some && !is_within(
            root,
            parent->0,
        ) ==> resolved(Some(root), path, target, parent) == Err::<Seq<Seq<char>>, PathRejection>(
            PathRejection::Escapes,
        ),
        target is None && path_names(path).len() > 0 && parent is None ==> resolved(
            Some(root),
            path,
            target,
            parent,
        ) == Err::<Seq<Seq<char>>, PathRejection>(PathRejection::RootUnavailable),
        resolved(None, path, target, parent) == Err::<Seq<Seq<char>>, PathRejection>(
            PathRejection::RootUnavailable,
        ),
{
    if path_names(path).len() > 0 {
        assert((root + path_names(path)).last() == path_names(path).last());
    }
}

/// A path that begins with a slash is absolute, and one with a piece `..` goes up: both are
/// refused, whatever they lead to.
pub proof fn law_bad_paths_are_refused(
    root: Option<Seq<Seq<char>>>,
    path: Seq<char>,
    target: Option<Seq<Seq<char>>>,
    parent: Option<Seq<Seq<char>>>,
    i: int,
)
    ensures
        path.len() > 0 && path[0] == '/' ==> resolved(root, path, target, parent)
            == Err::<Seq<Seq<char>>, PathRejection>(PathRejection::Absolute),
        (path.len() == 0 || path[0] != '/') && 0 <= i < split_spec(path, '/').len() && split_spec(
            path,
            '/',
        )[i] == ".."@ ==> resolved(root, path, target, parent) == Err::<
            Seq<Seq<char>>,
            PathRejection,
        >(PathRejection::Traversal),
{
}

/// Pieces of a path that are empty or a single dot name nothing; all others do, in their order.
pub proof fn law_what_names_something(pieces: Seq<Seq<char>>, piece: Seq<char>)
    ensures
        naming_pieces(Seq::<Seq<char>>::empty()).len() == 0,
        piece.len() > 0 && piece != "."@ ==> naming_pieces(pieces.push(piece)) == naming_pieces(
            pieces,
        ).push(piece),
        piece.len() == 0 || piece == "."@ ==> naming_pieces(pieces.push(piece)) == naming_pieces(
            pieces,
        ),
{
    assert(pieces.push(piece).drop_last() =~= pieces);
    assert(names_something(piece) == (piece.len() > 0 && piece != "."@));
}

proof fn lemma_last_dot(name: Seq<char>, at: int)
    requires
        -1 <= at < name.len(),
        at >= 0 ==> name[at] == '.',
        forall|i: int| at < i < name.len() ==> #[trigger] name[i] != '.',
    ensures
        last_dot(name) == at,
    decreases name.len(),
{
    if name.len() > 0 {
        let front = name.drop_last();
        if at < name.len() - 1 {
            assert(name[name.len() - 1] != '.');
            assert forall|i: int| at < i < front.len() implies #[trigger] front[i] != '.' by {
                assert(front[i] == name[i]);
            }
            lemma_last_dot(front, at);
        }
    }
}

/// The stem of a name is what stands before its last dot; a name without a dot, or with its only
/// dot in front, is its own stem.
pub proof fn law_stems_end_at_the_last_dot(name: Seq<char>, at: int)
    requires
        -1 <= at < name.len(),
        at >= 0 ==> name[at] == '.',
        forall|i: int| at < i < name.len() ==> #[trigger] name[i] != '.',
    ensures
        at > 0 ==> name_stem(name) == name.take(at),
        at <= 0 ==> name_stem(name) == name,
{
    lemma_last_dot(name, at);
}

/// The stem of a path is that of the last name in it; a path that names nothing, or goes up at its
/// end, has none.
pub proof fn law_a_path_has_the_stem_of_its_last_name(path: Seq<char>)
    ensures
        path_names(path).len() > 0 && path_names(path).last() != ".."@ ==> file_name(path) == Some(
            path_names(path).last(),
        ) && path_stem(path) == name_stem(path_names(path).last()),
        path_names(path).len() == 0 || path_names(path).last() == ".."@ ==> file_name(path) is None
            && path_stem(path).len() == 0,
{
}

/// How far a fault goes back in the other wording: from the number behind `previous:` to the one
/// behind `current:`.
pub proof fn law_how_far_the_other_wording_goes_back(
    line: Seq<char>,
    head: Seq<char>,
    back: Seq<char>,
    previous: Seq<char>,
    rest: Seq<char>,
    between: Seq<char>,
    current: Seq<char>,
    before: int,
    after: int,
)
    requires
        !contains_text(line, " >= "@),
        split_once_spec(line, "previous:"@) == Some((head, back)),
        split_once_spec(back, ","@) == Some((previous, rest)),
        split_once_spec(rest, "current:"@) == Some((between, current)),
        front_number(previous) == Some(before),
        front_number(current) == Some(after),
        before - after <= i64::MAX,
    ensures
        before > after ==> backward_step(line) == Some(before - after),
        before <= after ==> backward_step(line) is None,
{
    law_the_first_place_is_found(line, " >= "@);
    assert(split_once_spec(line, " >= "@) is None);
    assert(fault_fields(line) == Some((previous, current)));
}

/// Where streams begin apart, two of them do so by more than thirty seconds.
pub proof fn law_who_begins_apart(clocks: Map<int, (int, int)>)
    requires
        begin_apart(clocks),
    ensures
        exists|a: int, b: int|
            #![trigger clocks[a], clocks[b]]
            clocks.dom().contains(a) && clocks.dom().contains(b) && clocks[a].0 - clocks[b].0
                > 30_000,
{
    let (a, b) = choose|a: int, b: int|
        clocks.dom().contains(a) && clocks.dom().contains(b) && #[trigger] begins_after(
            clocks,
            a,
            b,
        ) > 30_000;
    assert(clocks[a].0 - clocks[b].0 > 30_000);
}

/// What is cut off goes to the first character that begins at or behind the cut.
pub proof fn law_a_cut_goes_to_the_next_character(bytes: Seq<u8>, at: int, i: int)
    requires
        0 <= at <= bytes.len(),
    ensures
        at <= next_boundary(bytes, at) <= bytes.len(),
        next_boundary(bytes, at) < bytes.len() ==> is_char_boundary(
            bytes,
            next_boundary(bytes, at),
        ),
        at <= i < next_boundary(bytes, at) ==> !is_char_boundary(bytes, i),
    decreases bytes.len() - at,
{
    if at < bytes.len() && !is_char_boundary(bytes, at) {
        law_a_cut_goes_to_the_next_character(bytes, at + 1, i);
    }
}

} // verus!
