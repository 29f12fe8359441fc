//! Argument lists for looking into, measuring and re-encoding the sound of a recording.
use vstd::prelude::*;

use crate::ffmpeg_args::{arg_views, plain, push_arg, push_words, word_views, ArgView, FfmpegArg};
use crate::text::{own, str_eq};

verus! {

/// The bit rate of the sound of an upload.
pub const UPLOAD_BITRATE: &'static str = "192k";

/// The bit rate of the sound of a sample.
pub const SAMPLE_BITRATE: &'static str = "96k";

/// What the loudness filter aims at, with the target as a decimal number.
pub open spec fn loudness_goal(target: Seq<char>) -> Seq<char> {
    "loudnorm=I="@ + target + ":LRA=11:TP=-1.5"@
}

fn goal_text(target: &str) -> (text: String)
    ensures
        text@ == loudness_goal(target@),
{
    let mut text: String = own("loudnorm=I=");
    text.append(target);
    text.append(":LRA=11:TP=-1.5");
    text
}

/// The filter that measures.
pub open spec fn measure_filter(target: Seq<char>) -> Seq<char> {
    loudness_goal(target) + ":print_format=json"@
}

fn measure_filter_text(target: &str) -> (text: String)
    ensures
        text@ == measure_filter(target@),
{
    let mut text: String = goal_text(target);
    text.append(":print_format=json");
    text
}

/// What a measurement found, each as a decimal number.
pub struct MeasuredLoudness {
    pub input_i: String,
    pub input_lra: String,
    pub input_tp: String,
    pub input_thresh: String,
    pub target_offset: String,
}

/// The filter that corrects by what was measured.
pub open spec fn correct_filter(target: Seq<char>, measured: MeasuredLoudness) -> Seq<char> {
    loudness_goal(target) + ":measured_I="@ + measured.input_i@ + ":measured_LRA="@
        + measured.input_lra@ + ":measured_TP="@ + measured.input_tp@ + ":measured_thresh="@
        + measured.input_thresh@ + ":offset="@ + measured.target_offset@
        + ":linear=true:print_format=summary"@
}

fn correct_filter_text(target: &str, measured: &MeasuredLoudness) -> (text: String)
    ensures
        text@ == correct_filter(target@, *measured),
{
    let mut text: String = goal_text(target);
    text.append(":measured_I=");
    text.append(measured.input_i.as_str());
    text.append(":measured_LRA=");
    text.append(measured.input_lra.as_str());
    text.append(":measured_TP=");
    text.append(measured.input_tp.as_str());
    text.append(":measured_thresh=");
    text.append(measured.input_thresh.as_str());
    text.append(":offset=");
    text.append(measured.target_offset.as_str());
    text.append(":linear=true:print_format=summary");
    text
}

/// Whether a file of this extension keeps its index, which is moved to the front.
pub open spec fn has_index(extension: Option<&str>) -> bool {
    match extension {
        Some(name) => name@ == "mp4"@ || name@ == "mov"@ || name@ == "m4v"@,
        None => false,
    }
}

/// The arguments for looking into a file.
pub open spec fn probe_arguments() -> Seq<ArgView> {
    plain(seq!["-v"@, "error"@, "-show_streams"@, "-show_format"@, "-of"@, "json"@])
        + seq![ArgView::Input]
}

/// The arguments for looking into a file.
pub fn probe_args() -> (args: Vec<FfmpegArg>)
    ensures
        arg_views(args@) == probe_arguments(),
{
    let mut args: Vec<FfmpegArg> = Vec::new();
    push_words(&mut args, &["-v", "error", "-show_streams", "-show_format", "-of", "json"]);
    push_arg(&mut args, FfmpegArg::Input);
    proof {
        assert(
            word_views(
                ["-v", "error", "-show_streams", "-show_format", "-of", "json"]@,
            ) =~= seq!["-v"@, "error"@, "-show_streams"@, "-show_format"@, "-of"@, "json"@]
        );
        assert(arg_views(args@) =~= probe_arguments());
    }
    args
}

/// The arguments for measuring: the file is read once, for its timestamps and its sound.
pub open spec fn measure_arguments(target: Seq<char>) -> Seq<ArgView> {
    plain(
        seq!["-hide_banner"@, "-loglevel"@, "verbose"@, "-nostats"@, "-fflags"@, "+igndts"@, "-i"@],
    )
        + seq![ArgView::Input]
        + plain(seq!["-c"@, "copy"@, "-f"@, "null"@, "-"@])
        + plain(seq!["-map"@, "0:a:0"@, "-af"@])
        + seq![ArgView::Text(measure_filter(target))]
        + plain(seq!["-f"@, "null"@, "-"@])
}

/// The arguments for measuring: the file is read once, for its timestamps and its sound.
pub fn measure_args(target: &str) -> (args: Vec<FfmpegArg>)
    ensures
        arg_views(args@) == measure_arguments(target@),
{
    let mut args: Vec<FfmpegArg> = Vec::new();
    push_words(
        &mut args,
        &["-hide_banner", "-loglevel", "verbose", "-nostats", "-fflags", "+igndts", "-i"],
    );
    push_arg(&mut args, FfmpegArg::Input);
    push_words(&mut args, &["-c", "copy", "-f", "null", "-"]);
    push_words(&mut args, &["-map", "0:a:0", "-af"]);
    push_arg(&mut args, FfmpegArg::Text(measure_filter_text(target)));
    push_words(&mut args, &["-f", "null", "-"]);
    proof {
        assert(
            word_views(
                ["-hide_banner", "-loglevel", "verbose", "-nostats", "-fflags", "+igndts", "-i"]@,
            ) =~= seq![
                "-hide_banner"@,
                "-loglevel"@,
                "verbose"@,
                "-nostats"@,
                "-fflags"@,
                "+igndts"@,
                "-i"@,
            ]
        );
        assert(
            word_views(
                ["-c", "copy", "-f", "null", "-"]@,
            ) =~= seq!["-c"@, "copy"@, "-f"@, "null"@, "-"@]
        );
        assert(word_views(["-map", "0:a:0", "-af"]@) =~= seq!["-map"@, "0:a:0"@, "-af"@]);
        assert(word_views(["-f", "null", "-"]@) =~= seq!["-f"@, "null"@, "-"@]);
        assert(arg_views(args@) =~= measure_arguments(target@));
    }
    args
}

/// The arguments for re-encoding the sound; everything else is copied.
pub open spec fn transcode_arguments(
    bitrate: Seq<char>,
    target: Seq<char>,
    measured: MeasuredLoudness,
    extension: Option<&str>,
) -> Seq<ArgView> {
    plain(seq!["-hide_banner"@, "-nostats"@, "-y"@, "-i"@])
        + seq![ArgView::Input]
        + plain(seq!["-map"@, "0"@, "-c"@, "copy"@, "-c:a:0"@, "aac"@, "-b:a:0"@])
        + seq![ArgView::Text(bitrate)]
        + plain(seq!["-ar:a:0"@, "48000"@, "-filter:a:0"@])
        + seq![ArgView::Text(correct_filter(target, measured))] + (if has_index(extension) {
        plain(seq!["-movflags"@, "+faststart"@])
    } else {
        Seq::<ArgView>::empty()
    }) + seq![ArgView::Output]
}

/// The arguments for re-encoding the sound into a file of this extension.
pub fn transcode_args(
    bitrate: &str,
    target: &str,
    measured: &MeasuredLoudness,
    extension: Option<&str>,
) -> (args: Vec<FfmpegArg>)
    ensures
        arg_views(args@) == transcode_arguments(bitrate@, target@, *measured, extension),
{
    let mut args: Vec<FfmpegArg> = Vec::new();
    push_words(&mut args, &["-hide_banner", "-nostats", "-y", "-i"]);
    push_arg(&mut args, FfmpegArg::Input);
    push_words(&mut args, &["-map", "0", "-c", "copy", "-c:a:0", "aac", "-b:a:0"]);
    push_arg(&mut args, FfmpegArg::Text(own(bitrate)));
    push_words(&mut args, &["-ar:a:0", "48000", "-filter:a:0"]);
    push_arg(&mut args, FfmpegArg::Text(correct_filter_text(target, measured)));
    let indexed: bool = match extension {
        Some(name) => str_eq(name, "mp4") || str_eq(name, "mov") || str_eq(name, "m4v"),
        None => false,
    };
    if indexed {
        push_words(&mut args, &["-movflags", "+faststart"]);
    }
    push_arg(&mut args, FfmpegArg::Output);
    proof {
        assert(
            word_views(
                ["-hide_banner", "-nostats", "-y", "-i"]@,
            ) =~= seq!["-hide_banner"@, "-nostats"@, "-y"@, "-i"@]
        );
        assert(
            word_views(
                ["-map", "0", "-c", "copy", "-c:a:0", "aac", "-b:a:0"]@,
            ) =~= seq!["-map"@, "0"@, "-c"@, "copy"@, "-c:a:0"@, "aac"@, "-b:a:0"@]
        );
        assert(
            word_views(
                ["-ar:a:0", "48000", "-filter:a:0"]@,
            ) =~= seq!["-ar:a:0"@, "48000"@, "-filter:a:0"@]
        );
        assert(word_views(["-movflags", "+faststart"]@) =~= seq!["-movflags"@, "+faststart"@]);
        assert(arg_views(args@) =~= transcode_arguments(bitrate@, target@, *measured, extension));
    }
    args
}

/// The arguments for cutting a piece of sound out of a recording.
pub open spec fn sample_arguments(start: Seq<char>, length: Seq<char>) -> Seq<ArgView> {
    plain(seq!["-hide_banner"@, "-nostats"@, "-y"@, "-ss"@])
        + seq![ArgView::Text(start)]
        + plain(seq!["-t"@])
        + seq![ArgView::Text(length)]
        + plain(seq!["-i"@])
        + seq![ArgView::Input]
        + plain(seq!["-map"@, "0:a:0"@, "-vn"@, "-c:a"@, "aac"@, "-b:a"@])
        + seq![ArgView::Text(SAMPLE_BITRATE@)]
        + plain(seq!["-ar"@, "48000"@])
        + seq![ArgView::Output]
}

/// The arguments for cutting a piece of sound out of a recording.
pub fn sample_args(start: &str, length: &str) -> (args: Vec<FfmpegArg>)
    ensures
        arg_views(args@) == sample_arguments(start@, length@),
{
    let mut args: Vec<FfmpegArg> = Vec::new();
    push_words(&mut args, &["-hide_banner", "-nostats", "-y", "-ss"]);
    push_arg(&mut args, FfmpegArg::Text(own(start)));
    push_words(&mut args, &["-t"]);
    push_arg(&mut args, FfmpegArg::Text(own(length)));
    push_words(&mut args, &["-i"]);
    push_arg(&mut args, FfmpegArg::Input);
    push_words(&mut args, &["-map", "0:a:0", "-vn", "-c:a", "aac", "-b:a"]);
    push_arg(&mut args, FfmpegArg::Text(own(SAMPLE_BITRATE)));
    push_words(&mut args, &["-ar", "48000"]);
    push_arg(&mut args, FfmpegArg::Output);
    proof {
        assert(
            word_views(
                ["-hide_banner", "-nostats", "-y", "-ss"]@,
            ) =~= seq!["-hide_banner"@, "-nostats"@, "-y"@, "-ss"@]
        );
        assert(word_views(["-t"]@) =~= seq!["-t"@]);
        assert(word_views(["-i"]@) =~= seq!["-i"@]);
        assert(
            word_views(
                ["-map", "0:a:0", "-vn", "-c:a", "aac", "-b:a"]@,
            ) =~= seq!["-map"@, "0:a:0"@, "-vn"@, "-c:a"@, "aac"@, "-b:a"@]
        );
        assert(word_views(["-ar", "48000"]@) =~= seq!["-ar"@, "48000"@]);
        assert(arg_views(args@) =~= sample_arguments(start@, length@));
    }
    args
}

} // verus!
