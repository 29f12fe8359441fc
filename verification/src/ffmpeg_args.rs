//! Argument lists for the media tools.
use vstd::prelude::*;

use crate::text::own;

verus! {

/// One argument: a text, or one of the two files that the run works on.
pub enum FfmpegArg {
    Text(String),
    Input,
    Output,
}

/// An argument as a mathematical value.
pub ghost enum ArgView {
    Text(Seq<char>),
    Input,
    Output,
}

impl View for FfmpegArg {
    type V = ArgView;

    open spec fn view(&self) -> ArgView {
        match self {
            FfmpegArg::Text(text) => ArgView::Text(text@),
            FfmpegArg::Input => ArgView::Input,
            FfmpegArg::Output => ArgView::Output,
        }
    }
}

/// A list of arguments as a mathematical value.
pub open spec fn arg_views(args: Seq<FfmpegArg>) -> Seq<ArgView> {
    args.map_values(|arg: FfmpegArg| arg@)
}

/// A list of plain texts as arguments.
pub open spec fn plain(words: Seq<Seq<char>>) -> Seq<ArgView> {
    words.map_values(|word: Seq<char>| ArgView::Text(word))
}

/// The texts of a list of words.
pub open spec fn word_views(words: Seq<&str>) -> Seq<Seq<char>> {
    words.map_values(|word: &str| word@)
}

/// Appends plain texts to a list of arguments.
pub fn push_words(args: &mut Vec<FfmpegArg>, words: &[&str])
    ensures
        arg_views(final(args)@) == arg_views(old(args)@) + plain(word_views(words@)),
{
    let ghost before = args@;
    let mut i: usize = 0;
    assert(arg_views(args@) =~= arg_views(before) + plain(word_views(words@.take(0))));
    while i < words.len()
        invariant
            i <= words.len(),
            arg_views(args@) == arg_views(before) + plain(word_views(words@.take(i as int))),
        decreases words.len() - i,
    {
        push_arg(args, FfmpegArg::Text(own(words[i])));
        assert(plain(word_views(words@.take(i + 1))) =~= plain(
            word_views(words@.take(i as int)),
        ).push(ArgView::Text(words@[i as int]@)));
        i = i + 1;
    }
    assert(words@.take(words@.len() as int) =~= words@);
}

/// Appends one argument.
pub fn push_arg(args: &mut Vec<FfmpegArg>, arg: FfmpegArg)
    ensures
        arg_views(final(args)@) == arg_views(old(args)@).push(arg@),
{
    let ghost before = args@;
    args.push(arg);
    assert(arg_views(args@) =~= arg_views(before).push(arg@));
}

} // verus!
