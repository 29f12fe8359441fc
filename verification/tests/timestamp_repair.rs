use biliup_common::ffmpeg_args::FfmpegArg;
use biliup_common::ffmpeg_scan::{PacketJumpScan, StderrScan, MAX_PACKET_STEP_MS};
use biliup_common::timestamp_repair::{
    delta_setts, detect_args, normalize_timestamps, packet_scan_args, packet_verdict, remux_accepted,
    remux_args, repaired_temp_path, text_verdict, Detection, RepairEvent, RepairFallbackReason,
    RepairOutcome, RepairStep, TextVerdict,
};

fn run(events: &[RepairEvent]) -> RepairStep {
    let mut step = RepairStep::Detect;
    for event in events {
        step = normalize_timestamps(step, *event);
    }
    step
}

fn anomalous(backward_ms: i64) -> RepairEvent {
    RepairEvent::Detected(Some(Detection::Anomalous {
        max_backward_ms: Some(backward_ms),
    }))
}

fn clean() -> RepairEvent {
    RepairEvent::Detected(Some(Detection::Clean))
}

fn done(outcome: RepairOutcome, remove_repaired: bool) -> RepairStep {
    RepairStep::Finished {
        outcome,
        remove_repaired,
    }
}

fn texts(args: Vec<FfmpegArg>) -> Vec<String> {
    args.into_iter()
        .map(|arg| match arg {
            FfmpegArg::Text(text) => text,
            FfmpegArg::Input => "<in>".to_string(),
            FfmpegArg::Output => "<out>".to_string(),
        })
        .collect()
}

#[test]
fn delta_setts_uses_the_packet_scan_step() {
    assert!(delta_setts("").contains(&format!("\\,{MAX_PACKET_STEP_MS})")));
    assert!(delta_setts("aac_adtstoasc,").starts_with("aac_adtstoasc,setts=pts="));
}

#[test]
fn the_filter_is_written_out() {
    assert_eq!(
        delta_setts(""),
        "setts=pts=if(lt(PREV_OUTDTS\\,-1e15)\\,if(gt(DTS\\,30000)\\,0\\,DTS)+PTS-DTS\\,PREV_OUTDTS+\
         if(gt(DTS-PREV_INDTS\\,30000)\\,1\\,max(DTS-PREV_INDTS\\,1))+PTS-DTS)\
         :dts=if(lt(PREV_OUTDTS\\,-1e15)\\,if(gt(DTS\\,30000)\\,0\\,DTS)\\,PREV_OUTDTS+\
         if(gt(DTS-PREV_INDTS\\,30000)\\,1\\,max(DTS-PREV_INDTS\\,1)))"
    );
}

#[test]
fn clean_when_no_anomaly() {
    assert_eq!(run(&[clean()]), done(RepairOutcome::Clean, false));
}

#[test]
fn repaired_when_small_backward_is_rewritten() {
    assert_eq!(
        run(&[anomalous(2_599), RepairEvent::Remuxed(true), clean()]),
        done(RepairOutcome::Repaired, false)
    );
}

#[test]
fn repaired_when_backward_is_large() {
    assert_eq!(
        run(&[anomalous(600_000), RepairEvent::Remuxed(true), clean()]),
        done(RepairOutcome::Repaired, false)
    );
}

#[test]
fn repaired_when_backward_is_unparsed() {
    assert_eq!(
        run(&[
            RepairEvent::Detected(Some(Detection::Anomalous {
                max_backward_ms: None
            })),
            RepairEvent::Remuxed(true),
            clean()
        ]),
        done(RepairOutcome::Repaired, false)
    );
}

#[test]
fn unfixable_when_rewrite_leaves_anomaly() {
    assert_eq!(
        run(&[anomalous(1_000), RepairEvent::Remuxed(true), anomalous(1_000)]),
        done(RepairOutcome::Unfixable, true)
    );
}

#[test]
fn falls_back_when_detect_errors() {
    assert_eq!(
        run(&[RepairEvent::Detected(None)]),
        done(
            RepairOutcome::Fallback(RepairFallbackReason::DetectFailed),
            false
        )
    );
}

#[test]
fn falls_back_when_remux_process_fails() {
    assert_eq!(
        run(&[anomalous(1_000), RepairEvent::Remuxed(false)]),
        done(
            RepairOutcome::Fallback(RepairFallbackReason::RemuxFailed),
            true
        )
    );
}

#[test]
fn falls_back_when_verification_errors() {
    assert_eq!(
        run(&[
            anomalous(1_000),
            RepairEvent::Remuxed(true),
            RepairEvent::Detected(None)
        ]),
        done(
            RepairOutcome::Fallback(RepairFallbackReason::VerificationFailed),
            true
        )
    );
}

#[test]
fn an_event_out_of_turn_changes_nothing() {
    assert_eq!(run(&[RepairEvent::Remuxed(true)]), RepairStep::Detect);
    let end = run(&[clean()]);
    assert_eq!(normalize_timestamps(end, anomalous(1)), end);
}

#[test]
fn a_named_fault_goes_before_a_failed_run() {
    let mut scan = StderrScan::new();
    assert_eq!(text_verdict(true, &scan), TextVerdict::ScanPackets);
    assert_eq!(text_verdict(false, &scan), TextVerdict::Failed);
    scan.push_line("Non-monotonic DTS; previous: 9, current: 4;");
    assert_eq!(
        text_verdict(false, &scan),
        TextVerdict::Found(Detection::Anomalous {
            max_backward_ms: Some(5)
        })
    );
}

#[test]
fn jumps_and_skewed_starts_are_faults() {
    let fault = Detection::Anomalous {
        max_backward_ms: None,
    };
    assert_eq!(packet_verdict(&None), Detection::Clean);
    let mut fine = PacketJumpScan::default();
    fine.push_line("0,0", Some(0));
    fine.push_line("1,0", Some(30_000));
    assert_eq!(packet_verdict(&Some(fine)), Detection::Clean);
    let mut skewed = PacketJumpScan::default();
    skewed.push_line("0,0", Some(0));
    skewed.push_line("1,0", Some(30_001));
    assert_eq!(packet_verdict(&Some(skewed)), fault);
    let mut jumping = PacketJumpScan::default();
    jumping.push_line("0,0", Some(0));
    jumping.push_line("0,0", Some(30_001));
    assert_eq!(packet_verdict(&Some(jumping)), fault);
}

#[test]
fn a_rewrite_has_to_leave_something() {
    assert!(remux_accepted(true, Some(1)));
    assert!(!remux_accepted(true, Some(0)));
    assert!(!remux_accepted(true, None));
    assert!(!remux_accepted(false, Some(1)));
}

#[test]
fn the_repaired_file_is_named_after_its_source() {
    assert_eq!(repaired_temp_path(Some("part1"), 42), "part1.42.fixed.mp4");
    assert_eq!(repaired_temp_path(None, 7), "segment.7.fixed.mp4");
}

#[test]
fn the_tools_get_their_arguments_in_order() {
    assert_eq!(
        texts(detect_args()).join(" "),
        "-hide_banner -loglevel verbose -nostats -i <in> -c copy -f null -"
    );
    assert_eq!(
        texts(packet_scan_args()).join(" "),
        "-v error -show_entries packet=stream_index,dts_time -of csv=p=0 <in>"
    );
    let remux = texts(remux_args());
    assert_eq!(
        remux[..15].join(" "),
        "-hide_banner -loglevel warning -y -fflags +genpts -i <in> -map 0:v:0? -map 0:a:0? -c copy -bsf:v"
    );
    assert_eq!(remux[15], delta_setts(""));
    assert_eq!(remux[17], delta_setts("aac_adtstoasc,"));
    assert_eq!(
        remux[18..].join(" "),
        "-movflags +faststart -avoid_negative_ts make_zero -muxdelay 0 -muxpreload 0 <out>"
    );
}
