use biliup_common::ffmpeg_scan::{
    line_text, parse_backward_ms, read_packet_line, scan_report, stderr_indicates_anomaly, trim_to_tail,
    PacketJumpScan, ScanReport, StderrScan, STDERR_TAIL_LIMIT,
};

/// Feeds one line, with its seconds read as a number.
fn push(scan: &mut PacketJumpScan, line: &str) {
    let dts_ms = read_packet_line(line)
        .and_then(|(_, seconds)| seconds.parse::<f64>().ok())
        .filter(|seconds| seconds.is_finite())
        .map(|seconds| (seconds * 1_000.0) as i64);
    scan.push_line(line, dts_ms);
}

#[test]
fn a_monotonous_giant_jump_is_an_anomaly() {
    let mut scan = PacketJumpScan::default();
    for line in [
        "0,0.000000",
        "1,0.010000",
        "0,0.066000",
        "1,0.033000",
        "0,4294007.933000",
        "1,4294007.900000",
        "0,4294008.000000",
    ] {
        push(&mut scan, line);
    }
    assert_eq!(scan.packets, 7);
    assert_eq!(scan.max_forward_jump_ms, Some(4_294_007_867));
}

#[test]
fn interleaved_streams_are_compared_separately() {
    let mut scan = PacketJumpScan::default();
    for line in [
        "0,10.000000",
        "1,9.980000",
        "0,10.040000",
        "1,10.020000",
        "0,10.080000",
    ] {
        push(&mut scan, line);
    }
    assert_eq!(scan.max_forward_jump_ms, None);
}

#[test]
fn a_backward_step_is_not_this_judgement() {
    let mut scan = PacketJumpScan::default();
    for line in ["0,12.000000", "0,8.000000", "0,12.100000"] {
        push(&mut scan, line);
    }
    assert_eq!(scan.max_forward_jump_ms, None);
}

#[test]
fn the_threshold_is_exclusive() {
    let mut at_limit = PacketJumpScan::default();
    push(&mut at_limit, "0,0.000000");
    push(&mut at_limit, "0,30.000000");
    assert_eq!(at_limit.max_forward_jump_ms, None);

    let mut over_limit = PacketJumpScan::default();
    push(&mut over_limit, "0,0.000000");
    push(&mut over_limit, "0,30.001000");
    assert_eq!(over_limit.max_forward_jump_ms, Some(30_001));
}

#[test]
fn unreadable_lines_are_skipped() {
    let mut scan = PacketJumpScan::default();
    for line in ["0,N/A", "", "side_data|", "0,0.000000", "0,0.040000"] {
        push(&mut scan, line);
    }
    assert_eq!(scan.packets, 2);
    assert_eq!(scan.max_forward_jump_ms, None);
}

#[test]
fn parses_the_muxer_form() {
    assert_eq!(
        parse_backward_ms(
            "[null @ 0x1] Application provided invalid, non monotonically increasing dts to muxer in stream 0: 11990 >= 8356"
        ),
        Some(3634)
    );
}

#[test]
fn parses_the_previous_current_form() {
    assert_eq!(
        parse_backward_ms("Non-monotonic DTS in output stream 0:1; previous: 11990, current: 8356; changing to 11991"),
        Some(3635 - 1)
    );
}

#[test]
fn parses_a_reset_to_zero() {
    assert_eq!(
        parse_backward_ms(
            "[null @ 0x1] Application provided invalid, non monotonically increasing dts to muxer in stream 0: 24990 >= 0"
        ),
        Some(24990)
    );
}

#[test]
fn unknown_wording_yields_none() {
    assert_eq!(parse_backward_ms("Invalid timestamp in stream 0"), None);
    assert_eq!(parse_backward_ms(""), None);
}

#[test]
fn negative_and_huge_numbers_are_read_or_refused() {
    assert_eq!(parse_backward_ms("stream 0: 5 >= -3"), Some(8));
    assert_eq!(parse_backward_ms("stream 0: 3 >= 5"), None);
    assert_eq!(parse_backward_ms("stream 0: 9223372036854775807 >= -1"), None);
    assert_eq!(parse_backward_ms("stream 0: 9223372036854775808 >= 1"), None);
    assert_eq!(parse_backward_ms("previous: 7 current: 3"), None);
}

#[test]
fn lines_of_packets_are_read_field_by_field() {
    assert_eq!(read_packet_line(" 3, 1.5 \n"), Some((3, "1.5".to_string())));
    assert_eq!(read_packet_line("+4,x"), Some((4, "x".to_string())));
    assert_eq!(read_packet_line("-9223372036854775808,0"), Some((i64::MIN, "0".to_string())));
    assert_eq!(read_packet_line("9223372036854775808,0"), None);
    assert_eq!(read_packet_line("a,0"), None);
    assert_eq!(read_packet_line(",0"), None);
}

#[test]
fn streams_that_begin_apart_have_a_skew() {
    let mut scan = PacketJumpScan::default();
    assert_eq!(scan.start_skew_ms(), 0);
    push(&mut scan, "0,0.000000");
    push(&mut scan, "1,1616.000000");
    push(&mut scan, "1,1616.040000");
    assert_eq!(scan.start_skew_ms(), 1_616_000);
    assert_eq!(scan.max_forward_jump_ms, None);
}

#[test]
fn steps_over_the_range_are_cut_off() {
    let mut scan = PacketJumpScan::default();
    scan.push_line("0,a", Some(i64::MIN));
    scan.push_line("0,b", Some(i64::MAX));
    assert_eq!(scan.max_forward_jump_ms, Some(i64::MAX));
    scan.push_line("1,c", Some(i64::MAX));
    assert_eq!(scan.start_skew_ms(), i64::MAX);
}

#[test]
fn keeps_only_the_tail_window() {
    let mut buffer = "a".repeat(STDERR_TAIL_LIMIT * 3);
    trim_to_tail(&mut buffer);
    assert_eq!(buffer.len(), STDERR_TAIL_LIMIT);
}

#[test]
fn trimming_never_splits_a_character() {
    let mut buffer = "中".repeat(STDERR_TAIL_LIMIT);
    trim_to_tail(&mut buffer);
    assert!(buffer.len() <= STDERR_TAIL_LIMIT);
    assert!(buffer.chars().all(|c| c == '中'));
}

#[test]
fn detects_anomaly_patterns_only() {
    assert!(stderr_indicates_anomaly(
        "[flv @ 0x1] Non-monotonic DTS in output"
    ));
    assert!(!stderr_indicates_anomaly(
        "frame= 100 fps=25 time=00:00:04.00"
    ));
}

#[test]
fn a_scan_of_the_diagnostics_keeps_the_largest_step_and_the_end() {
    let mut scan = StderrScan::new();
    assert!(!scan.push_line("frame=1\n"));
    assert!(!scan.push_line("Non-monotonic DTS; previous: 100, current: 40;\n"));
    assert!(!scan.push_line("Non-monotonic DTS; previous: 90, current: 60;\n"));
    assert!(scan.push_line("Invalid timestamp in stream 0\n"));
    assert!(scan.timestamp_anomaly);
    assert_eq!(scan.anomaly_lines, 3);
    assert_eq!(scan.max_backward_ms, Some(60));
    assert_eq!(scan_report(true, &scan), ScanReport::Nothing);
    assert_eq!(scan_report(false, &scan), ScanReport::ProcessFailed);
    let long = "y".repeat(STDERR_TAIL_LIMIT * 2);
    scan.push_line(&long);
    assert_eq!(scan.tail.len(), STDERR_TAIL_LIMIT);
    scan.push_line("end");
    assert_eq!(scan.tail.len(), STDERR_TAIL_LIMIT + 3);
    scan.finish();
    assert_eq!(scan.tail.len(), STDERR_TAIL_LIMIT);
    assert!(scan.tail.ends_with("end"));

    let mut unread = StderrScan::new();
    unread.push_line("Invalid timestamp in stream 0");
    assert_eq!(scan_report(true, &unread), ScanReport::AnomalyUnparsed);
}

#[test]
fn the_window_is_the_end_of_everything_that_was_printed() {
    let mut scan = StderrScan::new();
    let mut everything = String::new();
    let mut lines: Vec<String> = vec!["Invalid timestamp at the very beginning\n".to_string()];
    for i in 0..3000 {
        lines.push(format!("第{i}行 frame={i} 中文 text\n"));
    }
    for line in &lines {
        scan.push_line(line);
        everything.push_str(line);
    }
    scan.finish();
    assert!(everything.len() > STDERR_TAIL_LIMIT);
    trim_to_tail(&mut everything);
    assert_eq!(scan.tail, everything);
    assert!(!scan.tail.contains("Invalid timestamp"));
    assert!(scan.timestamp_anomaly);
    assert_eq!(scan.anomaly_lines, 1);
}

#[test]
fn the_order_of_the_streams_plays_no_part() {
    let mut by_stream = PacketJumpScan::default();
    for line in ["0,0.0", "0,40.0", "0,40.1", "1,100.0", "1,190.0"] {
        push(&mut by_stream, line);
    }
    let mut interleaved = PacketJumpScan::default();
    for line in ["1,100.0", "0,0.0", "0,40.0", "1,190.0", "0,40.1"] {
        push(&mut interleaved, line);
    }
    for scan in [&by_stream, &interleaved] {
        assert_eq!(scan.packets, 5);
        assert_eq!(scan.max_forward_jump_ms, Some(90_000));
        assert_eq!(scan.start_skew_ms(), 100_000);
    }
}

#[test]
fn a_line_that_is_no_text_is_still_read() {
    assert_eq!(line_text(b"0,1.5\xff\n"), "0,1.5\u{fffd}\n");
    assert_eq!(read_packet_line(&line_text(b"3,1.5\n")), Some((3, "1.5".to_string())));
}
