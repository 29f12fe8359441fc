//! Argument lists for joining segments.
use vstd::prelude::*;

use crate::ffmpeg_args::{arg_views, plain, push_arg, push_words, word_views, ArgView, FfmpegArg};

verus! {

/// The arguments for joining the files of a list as they are.
pub open spec fn copy_merge_arguments() -> Seq<ArgView> {
    plain(
        seq![
            "-hide_banner"@,
            "-loglevel"@,
            "warning"@,
            "-y"@,
            "-fflags"@,
            "+genpts+igndts"@,
            "-f"@,
            "concat"@,
            "-safe"@,
            "0"@,
            "-i"@,
        ],
    )
        + seq![ArgView::Input]
        + plain(seq!["-c"@, "copy"@, "-avoid_negative_ts"@, "make_zero"@])
        + seq![ArgView::Output]
}

/// The arguments for joining the files of a list as they are.
pub fn copy_merge_args() -> (args: Vec<FfmpegArg>)
    ensures
        arg_views(args@) == copy_merge_arguments(),
{
    let mut args: Vec<FfmpegArg> = Vec::new();
    push_words(
        &mut args,
        &[
            "-hide_banner",
            "-loglevel",
            "warning",
            "-y",
            "-fflags",
            "+genpts+igndts",
            "-f",
            "concat",
            "-safe",
            "0",
            "-i",
        ],
    );
    push_arg(&mut args, FfmpegArg::Input);
    push_words(&mut args, &["-c", "copy", "-avoid_negative_ts", "make_zero"]);
    push_arg(&mut args, FfmpegArg::Output);
    proof {
        assert(
            word_views(
                [
                    "-hide_banner",
                    "-loglevel",
                    "warning",
                    "-y",
                    "-fflags",
                    "+genpts+igndts",
                    "-f",
                    "concat",
                    "-safe",
                    "0",
                    "-i",
                ]@,
            ) =~= seq![
                "-hide_banner"@,
                "-loglevel"@,
                "warning"@,
                "-y"@,
                "-fflags"@,
                "+genpts+igndts"@,
                "-f"@,
                "concat"@,
                "-safe"@,
                "0"@,
                "-i"@,
            ]
        );
        assert(
            word_views(
                ["-c", "copy", "-avoid_negative_ts", "make_zero"]@,
            ) =~= seq!["-c"@, "copy"@, "-avoid_negative_ts"@, "make_zero"@]
        );
        assert(arg_views(args@) =~= copy_merge_arguments());
    }
    args
}

/// The arguments for bringing one file into a form that can be joined.
pub open spec fn remux_input_arguments() -> Seq<ArgView> {
    plain(
        seq![
            "-hide_banner"@,
            "-loglevel"@,
            "warning"@,
            "-y"@,
            "-fflags"@,
            "+genpts+igndts"@,
            "-i"@,
        ],
    )
        + seq![ArgView::Input]
        + plain(
            seq![
                "-map"@,
                "0:v?"@,
                "-map"@,
                "0:a?"@,
                "-c"@,
                "copy"@,
                "-avoid_negative_ts"@,
                "make_zero"@,
            ],
        )
        + seq![ArgView::Output]
}

/// The arguments for bringing one file into a form that can be joined.
pub fn remux_input_args() -> (args: Vec<FfmpegArg>)
    ensures
        arg_views(args@) == remux_input_arguments(),
{
    let mut args: Vec<FfmpegArg> = Vec::new();
    push_words(
        &mut args,
        &["-hide_banner", "-loglevel", "warning", "-y", "-fflags", "+genpts+igndts", "-i"],
    );
    push_arg(&mut args, FfmpegArg::Input);
    push_words(
        &mut args,
        &["-map", "0:v?", "-map", "0:a?", "-c", "copy", "-avoid_negative_ts", "make_zero"],
    );
    push_arg(&mut args, FfmpegArg::Output);
    proof {
        assert(
            word_views(
                ["-hide_banner", "-loglevel", "warning", "-y", "-fflags", "+genpts+igndts", "-i"]@,
            ) =~= seq![
                "-hide_banner"@,
                "-loglevel"@,
                "warning"@,
                "-y"@,
                "-fflags"@,
                "+genpts+igndts"@,
                "-i"@,
            ]
        );
        assert(
            word_views(
                ["-map", "0:v?", "-map", "0:a?", "-c", "copy", "-avoid_negative_ts", "make_zero"]@,
            ) =~= seq![
                "-map"@,
                "0:v?"@,
                "-map"@,
                "0:a?"@,
                "-c"@,
                "copy"@,
                "-avoid_negative_ts"@,
                "make_zero"@,
            ]
        );
        assert(arg_views(args@) =~= remux_input_arguments());
    }
    args
}

/// The arguments for joining the files of a list that were brought into one form.
pub open spec fn concat_merge_arguments() -> Seq<ArgView> {
    plain(
        seq![
            "-hide_banner"@,
            "-loglevel"@,
            "warning"@,
            "-y"@,
            "-f"@,
            "concat"@,
            "-safe"@,
            "0"@,
            "-i"@,
        ],
    )
        + seq![ArgView::Input]
        + plain(seq!["-c"@, "copy"@])
        + seq![ArgView::Output]
}

/// The arguments for joining the files of a list that were brought into one form.
pub fn concat_merge_args() -> (args: Vec<FfmpegArg>)
    ensures
        arg_views(args@) == concat_merge_arguments(),
{
    let mut args: Vec<FfmpegArg> = Vec::new();
    push_words(
        &mut args,
        &["-hide_banner", "-loglevel", "warning", "-y", "-f", "concat", "-safe", "0", "-i"],
    );
    push_arg(&mut args, FfmpegArg::Input);
    push_words(&mut args, &["-c", "copy"]);
    push_arg(&mut args, FfmpegArg::Output);
    proof {
        assert(
            word_views(
                ["-hide_banner", "-loglevel", "warning", "-y", "-f", "concat", "-safe", "0", "-i"]@,
            ) =~= seq![
                "-hide_banner"@,
                "-loglevel"@,
                "warning"@,
                "-y"@,
                "-f"@,
                "concat"@,
                "-safe"@,
                "0"@,
                "-i"@,
            ]
        );
        assert(word_views(["-c", "copy"]@) =~= seq!["-c"@, "copy"@]);
        assert(arg_views(args@) =~= concat_merge_arguments());
    }
    args
}

} // verus!
