//! Repairing the timestamps of a recording: what is run, in which order, and what comes of it.
use vstd::prelude::*;

use crate::ffmpeg_args::{arg_views, plain, push_arg, push_words, word_views, ArgView, FfmpegArg};
use crate::ffmpeg_scan::{begin_apart, lemma_skew_over_limit, PacketJumpScan, StderrScan,
    MAX_PACKET_STEP_MS};
use crate::text::{decimal, decimal_text, own};

verus! {

/// The step from the packet before: one millisecond for a step backwards and for a jump.
pub open spec fn step_expression() -> Seq<char> {
    "if(gt(DTS-PREV_INDTS\\,"@ + decimal(MAX_PACKET_STEP_MS as nat)
        + ")\\,1\\,max(DTS-PREV_INDTS\\,1))"@
}

/// The timestamp of a stream's first packet: 0 where it stands a jump behind the file's start.
pub open spec fn first_expression() -> Seq<char> {
    "if(gt(DTS\\,"@ + decimal(MAX_PACKET_STEP_MS as nat) + ")\\,0\\,DTS)"@
}

/// The bitstream filter that rewrites the timestamps, behind the filters of `chain`.
///
/// Each output is the output before plus the step between the two inputs. The distance between
/// the two timestamps of a packet is kept.
pub open spec fn delta_setts_spec(chain: Seq<char>) -> Seq<char> {
    chain + "setts=pts=if(lt(PREV_OUTDTS\\,-1e15)\\,"@ + first_expression()
        + "+PTS-DTS\\,PREV_OUTDTS+"@ + step_expression()
        + "+PTS-DTS):dts=if(lt(PREV_OUTDTS\\,-1e15)\\,"@ + first_expression()
        + "\\,PREV_OUTDTS+"@ + step_expression() + ")"@
}

fn step_text() -> (text: String)
    ensures
        text@ == step_expression(),
{
    let mut text: String = own("if(gt(DTS-PREV_INDTS\\,");
    text.append(decimal_text(MAX_PACKET_STEP_MS as u128).as_str());
    text.append(")\\,1\\,max(DTS-PREV_INDTS\\,1))");
    text
}

fn first_text() -> (text: String)
    ensures
        text@ == first_expression(),
{
    let mut text: String = own("if(gt(DTS\\,");
    text.append(decimal_text(MAX_PACKET_STEP_MS as u128).as_str());
    text.append(")\\,0\\,DTS)");
    text
}

/// The bitstream filter that rewrites the timestamps, behind the filters of `chain`.
pub fn delta_setts(chain: &str) -> (filter: String)
    ensures
        filter@ == delta_setts_spec(chain@),
{
    let step: String = step_text();
    let first: String = first_text();
    let mut filter: String = own(chain);
    filter.append("setts=pts=if(lt(PREV_OUTDTS\\,-1e15)\\,");
    filter.append(first.as_str());
    filter.append("+PTS-DTS\\,PREV_OUTDTS+");
    filter.append(step.as_str());
    filter.append("+PTS-DTS):dts=if(lt(PREV_OUTDTS\\,-1e15)\\,");
    filter.append(first.as_str());
    filter.append("\\,PREV_OUTDTS+");
    filter.append(step.as_str());
    filter.append(")");
    filter
}

/// The name of the file that a repair writes, beside the source.
pub open spec fn repaired_name(stem: Option<Seq<char>>, process: nat) -> Seq<char> {
    stem.unwrap_or("segment"@) + "."@ + decimal(process) + ".fixed.mp4"@
}

/// The name of the file that a repair writes: made of the source's stem, where it has a readable
/// one, and the number of the process.
pub fn repaired_temp_path(stem: Option<&str>, process: u32) -> (name: String)
    ensures
        name@ == repaired_name(
            match stem {
                Some(text) => Some(text@),
                None => None,
            },
            process as nat,
        ),
{
    let mut name: String = match stem {
        Some(text) => own(text),
        None => own("segment"),
    };
    name.append(".");
    name.append(decimal_text(process as u128).as_str());
    name.append(".fixed.mp4");
    name
}

/// What one full scan of a file found.
#[derive(Clone, Copy, Debug, PartialEq, Eq, Structural)]
pub enum Detection {
    Clean,
    /// The timestamps are faulty. `max_backward_ms` is the largest known step backwards; `None`
    /// means that it is not known, never that it is zero.
    Anomalous { max_backward_ms: Option<i64> },
}

/// Why the source is uploaded as it is.
#[derive(Clone, Copy, Debug, PartialEq, Eq, Structural)]
pub enum RepairFallbackReason {
    DetectFailed,
    RemuxFailed,
    VerificationFailed,
}

/// What a repair came to.
#[derive(Clone, Copy, Debug, PartialEq, Eq, Structural)]
pub enum RepairOutcome {
    /// Nothing was wrong with the source.
    Clean,
    /// The repaired file holds the recording.
    Repaired,
    /// The source is uploaded as it is.
    Fallback(RepairFallbackReason),
    /// Rewriting did not help.
    Unfixable,
}

/// What the diagnostics alone say of a file.
#[derive(Clone, Copy, Debug, PartialEq, Eq, Structural)]
pub enum TextVerdict {
    Found(Detection),
    /// Nothing was named and the run failed.
    Failed,
    /// Nothing was named: the packets' own timestamps decide.
    ScanPackets,
}

/// What the diagnostics alone say of a file: a named fault goes before a failed run.
pub fn text_verdict(success: bool, scan: &StderrScan) -> (verdict: TextVerdict)
    ensures
        verdict == (if scan.timestamp_anomaly {
            TextVerdict::Found(Detection::Anomalous { max_backward_ms: scan.max_backward_ms })
        } else if !success {
            TextVerdict::Failed
        } else {
            TextVerdict::ScanPackets
        }),
{
    if scan.timestamp_anomaly {
        TextVerdict::Found(Detection::Anomalous { max_backward_ms: scan.max_backward_ms })
    } else if !success {
        TextVerdict::Failed
    } else {
        TextVerdict::ScanPackets
    }
}

/// What the packets say of a file: whether a stream jumps or the streams begin too far apart.
pub open spec fn packets_verdict(scan: Option<PacketJumpScan>) -> Detection {
    match scan {
        Some(scan) => if scan@.max_jump is Some || begin_apart(scan@.clocks) {
            Detection::Anomalous { max_backward_ms: None }
        } else {
            Detection::Clean
        },
        None => Detection::Clean,
    }
}

/// What the packets say of a file. A packet scan that could not be run (`None`) finds nothing.
pub fn packet_verdict(scan: &Option<PacketJumpScan>) -> (found: Detection)
    ensures
        found == packets_verdict(*scan),
{
    match scan {
        Some(scan) => {
            let skew: i64 = scan.start_skew_ms();
            proof {
                lemma_skew_over_limit(scan@.clocks, skew as int);
            }
            if scan.max_forward_jump_ms.is_some() || skew > MAX_PACKET_STEP_MS {
                Detection::Anomalous { max_backward_ms: None }
            } else {
                Detection::Clean
            }
        },
        None => Detection::Clean,
    }
}

/// Whether a rewrite counts as done: the process ended well and left a file with something in it.
/// `bytes` is the size of that file where it could be read.
pub fn remux_accepted(success: bool, bytes: Option<u64>) -> (accepted: bool)
    ensures
        accepted == (success && (bytes matches Some(size) && size > 0)),
{
    success && match bytes {
        Some(size) => size > 0,
        None => false,
    }
}

/// Where a repair stands.
#[derive(Clone, Copy, Debug, PartialEq, Eq, Structural)]
pub enum RepairStep {
    /// Scan the source.
    Detect,
    /// Rewrite the source into the repaired file.
    Remux,
    /// Scan the repaired file.
    Verify,
    /// Done. `remove_repaired` says whether the repaired file is to be removed.
    Finished { outcome: RepairOutcome, remove_repaired: bool },
}

/// What a step came to.
#[derive(Clone, Copy, Debug, PartialEq, Eq, Structural)]
pub enum RepairEvent {
    /// A scan found this; `None` where it could not be run.
    Detected(Option<Detection>),
    /// The rewrite was accepted or not.
    Remuxed(bool),
}

/// The step that follows `step` upon `event`; an event that the step does not wait for changes
/// nothing.
pub open spec fn next_step(step: RepairStep, event: RepairEvent) -> RepairStep {
    match (step, event) {
        (RepairStep::Detect, RepairEvent::Detected(Some(Detection::Clean))) => RepairStep::Finished {
            outcome: RepairOutcome::Clean,
            remove_repaired: false,
        },
        (
            RepairStep::Detect,
            RepairEvent::Detected(Some(Detection::Anomalous { .. })),
        ) => RepairStep::Remux,
        (RepairStep::Detect, RepairEvent::Detected(None)) => RepairStep::Finished {
            outcome: RepairOutcome::Fallback(RepairFallbackReason::DetectFailed),
            remove_repaired: false,
        },
        (RepairStep::Remux, RepairEvent::Remuxed(true)) => RepairStep::Verify,
        (RepairStep::Remux, RepairEvent::Remuxed(false)) => RepairStep::Finished {
            outcome: RepairOutcome::Fallback(RepairFallbackReason::RemuxFailed),
            remove_repaired: true,
        },
        (RepairStep::Verify, RepairEvent::Detected(Some(Detection::Clean))) => RepairStep::Finished {
            outcome: RepairOutcome::Repaired,
            remove_repaired: false,
        },
        (
            RepairStep::Verify,
            RepairEvent::Detected(Some(Detection::Anomalous { .. })),
        ) => RepairStep::Finished { outcome: RepairOutcome::Unfixable, remove_repaired: true },
        (RepairStep::Verify, RepairEvent::Detected(None)) => RepairStep::Finished {
            outcome: RepairOutcome::Fallback(RepairFallbackReason::VerificationFailed),
            remove_repaired: true,
        },
        _ => step,
    }
}

/// The step that follows `step` upon `event`.
pub fn normalize_timestamps(step: RepairStep, event: RepairEvent) -> (next: RepairStep)
    ensures
        next == next_step(step, event),
{
    match (step, event) {
        (RepairStep::Detect, RepairEvent::Detected(found)) => match found {
            Some(Detection::Clean) => RepairStep::Finished {
                outcome: RepairOutcome::Clean,
                remove_repaired: false,
            },
            Some(Detection::Anomalous { .. }) => RepairStep::Remux,
            None => RepairStep::Finished {
                outcome: RepairOutcome::Fallback(RepairFallbackReason::DetectFailed),
                remove_repaired: false,
            },
        },
        (RepairStep::Remux, RepairEvent::Remuxed(accepted)) => if accepted {
            RepairStep::Verify
        } else {
            RepairStep::Finished {
                outcome: RepairOutcome::Fallback(RepairFallbackReason::RemuxFailed),
                remove_repaired: true,
            }
        },
        (RepairStep::Verify, RepairEvent::Detected(found)) => match found {
            Some(Detection::Clean) => RepairStep::Finished {
                outcome: RepairOutcome::Repaired,
                remove_repaired: false,
            },
            Some(Detection::Anomalous { .. }) => RepairStep::Finished {
                outcome: RepairOutcome::Unfixable,
                remove_repaired: true,
            },
            None => RepairStep::Finished {
                outcome: RepairOutcome::Fallback(RepairFallbackReason::VerificationFailed),
                remove_repaired: true,
            },
        },
        _ => step,
    }
}

/// The step that a repair stands at after `events`.
pub open spec fn repair_after(events: Seq<RepairEvent>) -> RepairStep
    decreases events.len(),
{
    if events.len() == 0 {
        RepairStep::Detect
    } else {
        next_step(repair_after(events.drop_last()), events.last())
    }
}

/// Whether a step of the repair has written the repaired file, or may have.
pub open spec fn rewritten(events: Seq<RepairEvent>) -> bool
    decreases events.len(),
{
    if events.len() == 0 {
        false
    } else {
        rewritten(events.drop_last()) || (repair_after(events.drop_last()) is Remux
            && events.last() is Remuxed)
    }
}

/// A repair counts as done only where the repaired file itself was scanned and found clean; the
/// repaired file outlives no other ending that came after a rewrite.
pub proof fn law_only_a_clean_rescan_repairs(events: Seq<RepairEvent>)
    ensures
        repair_after(events) matches RepairStep::Finished { outcome, remove_repaired } ==> {
            &&& outcome == RepairOutcome::Repaired ==> rewritten(events) && exists|i: int|
                0 <= i < events.len() && #[trigger] repair_after(events.take(i)) is Verify
                    && events[i] == RepairEvent::Detected(Some(Detection::Clean))
            &&& remove_repaired == (rewritten(events) && outcome != RepairOutcome::Repaired)
        },
        repair_after(events) is Detect ==> !rewritten(events),
        repair_after(events) is Remux ==> !rewritten(events),
        repair_after(events) is Verify ==> rewritten(events),
    decreases events.len(),
{
    if events.len() > 0 {
        let rest = events.drop_last();
        law_only_a_clean_rescan_repairs(rest);
        assert(events.take(events.len() - 1) =~= rest);
        if repair_after(rest) is Finished {
            if let RepairStep::Finished { outcome, .. } = repair_after(rest) {
                if outcome == RepairOutcome::Repaired {
                    let i = choose|i: int|
                        0 <= i < rest.len() && #[trigger] repair_after(rest.take(i)) is Verify
                            && rest[i] == RepairEvent::Detected(Some(Detection::Clean));
                    assert(events.take(i) =~= rest.take(i));
                    assert(repair_after(events.take(i)) is Verify);
                }
            }
        } else if repair_after(rest) is Verify {
            assert(repair_after(events.take(events.len() - 1)) is Verify);
        }
    }
}

/// Two media that differ only in how large a step backwards was are treated alike: the amount is
/// told, and decides nothing.
pub proof fn law_the_amount_decides_nothing(step: RepairStep, one: Option<i64>, other: Option<i64>)
    ensures
        next_step(
            step,
            RepairEvent::Detected(Some(Detection::Anomalous { max_backward_ms: one })),
        ) == next_step(
            step,
            RepairEvent::Detected(Some(Detection::Anomalous { max_backward_ms: other })),
        ),
{
}

/// The arguments of the scan of a whole file: everything is read, nothing is written.
pub open spec fn detect_arguments() -> Seq<ArgView> {
    plain(seq!["-hide_banner"@, "-loglevel"@, "verbose"@, "-nostats"@, "-i"@]).push(ArgView::Input)
        + plain(seq!["-c"@, "copy"@, "-f"@, "null"@, "-"@])
}

/// The arguments of the scan of a whole file.
pub fn detect_args() -> (args: Vec<FfmpegArg>)
    ensures
        arg_views(args@) == detect_arguments(),
{
    let mut args: Vec<FfmpegArg> = Vec::new();
    push_words(&mut args, &["-hide_banner", "-loglevel", "verbose", "-nostats", "-i"]);
    push_arg(&mut args, FfmpegArg::Input);
    push_words(&mut args, &["-c", "copy", "-f", "null", "-"]);
    proof {
        assert(word_views(["-hide_banner", "-loglevel", "verbose", "-nostats", "-i"]@) =~= seq![
            "-hide_banner"@,
            "-loglevel"@,
            "verbose"@,
            "-nostats"@,
            "-i"@,
        ]);
        assert(word_views(["-c", "copy", "-f", "null", "-"]@) =~= seq![
            "-c"@,
            "copy"@,
            "-f"@,
            "null"@,
            "-"@,
        ]);
        assert(arg_views(args@) =~= detect_arguments());
    }
    args
}

/// The arguments of the packet scan.
pub open spec fn packet_scan_arguments() -> Seq<ArgView> {
    plain(
        seq![
            "-v"@,
            "error"@,
            "-show_entries"@,
            "packet=stream_index,dts_time"@,
            "-of"@,
            "csv=p=0"@,
        ],
    ).push(ArgView::Input)
}

/// The arguments of the packet scan.
pub fn packet_scan_args() -> (args: Vec<FfmpegArg>)
    ensures
        arg_views(args@) == packet_scan_arguments(),
{
    let mut args: Vec<FfmpegArg> = Vec::new();
    push_words(
        &mut args,
        &["-v", "error", "-show_entries", "packet=stream_index,dts_time", "-of", "csv=p=0"],
    );
    push_arg(&mut args, FfmpegArg::Input);
    proof {
        assert(word_views(
            ["-v", "error", "-show_entries", "packet=stream_index,dts_time", "-of", "csv=p=0"]@,
        ) =~= seq![
            "-v"@,
            "error"@,
            "-show_entries"@,
            "packet=stream_index,dts_time"@,
            "-of"@,
            "csv=p=0"@,
        ]);
        assert(arg_views(args@) =~= packet_scan_arguments());
    }
    args
}

/// The arguments of the rewrite: one video and one audio stream are copied, their timestamps go
/// through the filter.
pub open spec fn remux_arguments() -> Seq<ArgView> {
    plain(
        seq![
            "-hide_banner"@,
            "-loglevel"@,
            "warning"@,
            "-y"@,
            "-fflags"@,
            "+genpts"@,
            "-i"@,
        ],
    ).push(ArgView::Input) + plain(
        seq!["-map"@, "0:v:0?"@, "-map"@, "0:a:0?"@, "-c"@, "copy"@, "-bsf:v"@],
    ).push(ArgView::Text(delta_setts_spec(""@))) + plain(seq!["-bsf:a"@]).push(
        ArgView::Text(delta_setts_spec("aac_adtstoasc,"@)),
    ) + plain(
        seq![
            "-movflags"@,
            "+faststart"@,
            "-avoid_negative_ts"@,
            "make_zero"@,
            "-muxdelay"@,
            "0"@,
            "-muxpreload"@,
            "0"@,
        ],
    ).push(ArgView::Output)
}

/// The arguments of the rewrite.
pub fn remux_args() -> (args: Vec<FfmpegArg>)
    ensures
        arg_views(args@) == remux_arguments(),
{
    let mut args: Vec<FfmpegArg> = Vec::new();
    push_words(
        &mut args,
        &["-hide_banner", "-loglevel", "warning", "-y", "-fflags", "+genpts", "-i"],
    );
    push_arg(&mut args, FfmpegArg::Input);
    push_words(&mut args, &["-map", "0:v:0?", "-map", "0:a:0?", "-c", "copy", "-bsf:v"]);
    push_arg(&mut args, FfmpegArg::Text(delta_setts("")));
    push_words(&mut args, &["-bsf:a"]);
    push_arg(&mut args, FfmpegArg::Text(delta_setts("aac_adtstoasc,")));
    push_words(
        &mut args,
        &[
            "-movflags",
            "+faststart",
            "-avoid_negative_ts",
            "make_zero",
            "-muxdelay",
            "0",
            "-muxpreload",
            "0",
        ],
    );
    push_arg(&mut args, FfmpegArg::Output);
    proof {
        assert(word_views(
            ["-hide_banner", "-loglevel", "warning", "-y", "-fflags", "+genpts", "-i"]@,
        ) =~= seq![
            "-hide_banner"@,
            "-loglevel"@,
            "warning"@,
            "-y"@,
            "-fflags"@,
            "+genpts"@,
            "-i"@,
        ]);
        assert(word_views(["-map", "0:v:0?", "-map", "0:a:0?", "-c", "copy", "-bsf:v"]@) =~= seq![
            "-map"@,
            "0:v:0?"@,
            "-map"@,
            "0:a:0?"@,
            "-c"@,
            "copy"@,
            "-bsf:v"@,
        ]);
        assert(word_views(["-bsf:a"]@) =~= seq!["-bsf:a"@]);
        assert(word_views(
            [
                "-movflags",
                "+faststart",
                "-avoid_negative_ts",
                "make_zero",
                "-muxdelay",
                "0",
                "-muxpreload",
                "0",
            ]@,
        ) =~= seq![
            "-movflags"@,
            "+faststart"@,
            "-avoid_negative_ts"@,
            "make_zero"@,
            "-muxdelay"@,
            "0"@,
            "-muxpreload"@,
            "0"@,
        ]);
        assert(arg_views(args@) =~= remux_arguments());
    }
    args
}

} // verus!
