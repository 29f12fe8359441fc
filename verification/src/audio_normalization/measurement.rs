//! Reading what ffmpeg prints: the JSON of the measuring pass and the summary of the second one.
use crate::audio_normalization::STDERR_LIMIT;
use crate::text::{
    decode_lossy, lines, lines_spec, lossy_text, lower_spec, matches_at, occurs_at, opt_view,
    slice_of, string_of, text_views, to_ascii_lowercase, trim, trim_spec, trim_str, words,
    words_spec,
};
use vstd::prelude::*;
use vstd::string::*;

verus! {

/// The closing braces from `at` on that no opening brace from `at` on matches.
pub open spec fn open_groups(bytes: Seq<u8>, at: int) -> int
    decreases bytes.len() - at,
{
    if at < 0 || at >= bytes.len() {
        0
    } else {
        let later = open_groups(bytes, at + 1);
        if bytes[at] == 0x7d {
            later + 1
        } else if bytes[at] == 0x7b && later > 0 {
            later - 1
        } else {
            later
        }
    }
}

/// The end of the outermost brace group that is open at `at`: just after its closing brace.
pub open spec fn group_end(bytes: Seq<u8>, at: int) -> int
    decreases bytes.len() - at,
{
    if at < 0 || at >= bytes.len() {
        at
    } else if open_groups(bytes, at + 1) == 0 {
        at + 1
    } else {
        group_end(bytes, at + 1)
    }
}

/// The outermost brace groups that begin at `at` or later, the last first.
pub open spec fn groups_from(bytes: Seq<u8>, at: int) -> Seq<(int, int)>
    decreases bytes.len() - at,
{
    if at < 0 || at >= bytes.len() {
        Seq::empty()
    } else if bytes[at] == 0x7b && open_groups(bytes, at + 1) == 1 {
        groups_from(bytes, at + 1).push((at, group_end(bytes, at + 1)))
    } else {
        groups_from(bytes, at + 1)
    }
}

/// The views of positions.
pub open spec fn position_views(groups: Seq<(usize, usize)>) -> Seq<(int, int)> {
    groups.map_values(|g: (usize, usize)| (g.0 as int, g.1 as int))
}

proof fn lemma_open_groups_bound(bytes: Seq<u8>, at: int)
    requires
        0 <= at,
    ensures
        0 <= open_groups(bytes, at),
        at <= bytes.len() ==> open_groups(bytes, at) <= bytes.len() - at,
    decreases bytes.len() - at,
{
    if at < bytes.len() {
        lemma_open_groups_bound(bytes, at + 1);
    }
}

/// Where in an output JSON objects may stand: the outermost brace groups, from the last to the
/// first. What is measured stands in the first of them that can be read.
pub fn json_candidates(bytes: &[u8]) -> (groups: Vec<(usize, usize)>)
    ensures
        position_views(groups@) == groups_from(bytes@, 0),
{
    let mut groups: Vec<(usize, usize)> = Vec::new();
    let mut depth: usize = 0;
    let mut end: usize = 0;
    let mut at: usize = bytes.len();
    proof {
        lemma_open_groups_bound(bytes@, at as int);
        assert(position_views(groups@) =~= groups_from(bytes@, at as int));
    }
    while at > 0
        invariant
            at <= bytes.len(),
            depth == open_groups(bytes@, at as int),
            depth <= bytes.len() - at,
            depth > 0 ==> end == group_end(bytes@, at as int),
            position_views(groups@) == groups_from(bytes@, at as int),
        decreases at,
    {
        let index: usize = at - 1;
        let byte: u8 = bytes[index];
        let ghost before = groups@;
        proof {
            lemma_open_groups_bound(bytes@, index as int);
            lemma_open_groups_bound(bytes@, at as int);
        }
        if byte == 0x7d {
            if depth == 0 {
                end = index + 1;
            }
            depth = depth + 1;
        } else if byte == 0x7b && depth > 0 {
            depth = depth - 1;
            if depth == 0 {
                groups.push((index, end));
                assert(position_views(groups@) =~= position_views(before).push(
                    (index as int, end as int),
                ));
            }
        }
        at = index;
    }
    groups
}

/// Each candidate begins with an opening brace and ends with a closing one.
pub proof fn law_candidates_are_brace_groups(bytes: Seq<u8>, at: int, k: int)
    requires
        0 <= at,
        0 <= k < groups_from(bytes, at).len(),
    ensures
        ({
            let (from, to) = groups_from(bytes, at)[k];
            &&& at <= from < to <= bytes.len()
            &&& bytes[from] == 0x7b
            &&& bytes[to - 1] == 0x7d
        }),
    decreases bytes.len() - at,
{
    if at < bytes.len() {
        if bytes[at] == 0x7b && open_groups(bytes, at + 1) == 1 {
            if k == groups_from(bytes, at + 1).len() {
                lemma_group_end(bytes, at + 1);
            } else {
                law_candidates_are_brace_groups(bytes, at + 1, k);
            }
        } else {
            law_candidates_are_brace_groups(bytes, at + 1, k);
        }
    }
}

proof fn lemma_group_end(bytes: Seq<u8>, at: int)
    requires
        0 <= at,
        open_groups(bytes, at) > 0,
    ensures
        at < group_end(bytes, at) <= bytes.len(),
        bytes[group_end(bytes, at) - 1] == 0x7d,
    decreases bytes.len() - at,
{
    lemma_open_groups_bound(bytes, at + 1);
    if at < bytes.len() && open_groups(bytes, at + 1) != 0 {
        lemma_group_end(bytes, at + 1);
    }
}

/// Why an output holds no measurement.
#[derive(Debug, Clone, Copy, PartialEq, Eq, Structural)]
pub enum MeasurementError {
    /// No candidate can be read.
    NotFound,
    /// The first candidate that can be read holds a number that is none, or out of range.
    Implausible,
}

/// The first candidate from `at` on that can be read.
pub open spec fn first_readable(readings: Seq<Option<bool>>, at: int) -> int
    decreases readings.len() - at,
{
    if at < 0 || at >= readings.len() || readings[at] is Some {
        at
    } else {
        first_readable(readings, at + 1)
    }
}

/// Which candidate holds the measurement. `readings` tells of each candidate, in their order,
/// whether it can be read, and then whether its numbers are in range.
pub fn parse_loudnorm_measurement(readings: &Vec<Option<bool>>) -> (choice: Result<
    usize,
    MeasurementError,
>)
    ensures
        ({
            let at = first_readable(readings@, 0);
            choice == (if at >= readings@.len() {
                Err(MeasurementError::NotFound)
            } else if readings@[at] == Some(true) {
                Ok(at as usize)
            } else {
                Err(MeasurementError::Implausible)
            })
        }),
{
    let mut at: usize = 0;
    while at < readings.len()
        invariant
            at <= readings.len(),
            first_readable(readings@, 0) == first_readable(readings@, at as int),
        decreases readings.len() - at,
    {
        match readings[at] {
            Some(in_range) => {
                return if in_range {
                    Ok(at)
                } else {
                    Err(MeasurementError::Implausible)
                };
            },
            None => {},
        }
        at = at + 1;
    }
    Err(MeasurementError::NotFound)
}

/// What follows `label` on a line that begins with it, without white space around it.
pub open spec fn value_on_line(line: Seq<char>, label: Seq<char>) -> Option<Seq<char>> {
    let trimmed = trim_spec(line);
    if occurs_at(trimmed, label, 0) {
        Some(trim_spec(trimmed.skip(label.len() as int)))
    } else {
        None
    }
}

/// What follows `label` on the last line that begins with it.
pub open spec fn value_after(all: Seq<Seq<char>>, label: Seq<char>) -> Option<Seq<char>>
    decreases all.len(),
{
    if all.len() == 0 {
        None
    } else if value_on_line(all.last(), label) is Some {
        value_on_line(all.last(), label)
    } else {
        value_after(all.drop_last(), label)
    }
}

fn line_value(line: &str, label: &str) -> (value: Option<String>)
    ensures
        opt_view(value) == value_on_line(line@, label@),
{
    let trimmed: &str = trim_str(line);
    let chars: Vec<char> = crate::text::chars_of(trimmed);
    let prefix: Vec<char> = crate::text::chars_of(label);
    if matches_at(&chars, &prefix, 0) {
        let rest: Vec<char> = slice_of(&chars, prefix.len(), chars.len());
        assert(rest@ =~= trim_spec(line@).skip(label@.len() as int));
        let text: String = string_of(&rest);
        Some(trim(text.as_str()))
    } else {
        None
    }
}

fn find_value(all: &Vec<String>, label: &str) -> (value: Option<String>)
    ensures
        opt_view(value) == value_after(text_views(all@), label@),
{
    let ghost views = text_views(all@);
    let mut i: usize = all.len();
    assert(views.take(i as int) =~= views);
    while i > 0
        invariant
            i <= all.len(),
            views == text_views(all@),
            value_after(views, label@) == value_after(views.take(i as int), label@),
        decreases i,
    {
        proof {
            assert(views.take(i as int).drop_last() =~= views.take(i - 1));
            assert(views.take(i as int).last() == all@[i - 1]@);
        }
        let value: Option<String> = line_value(all[i - 1].as_str(), label);
        if value.is_some() {
            return value;
        }
        i = i - 1;
    }
    None
}

/// What the second pass reports: the mode that ffmpeg chose, in small letters, and the loudness
/// it reached, as text.
#[derive(Debug, PartialEq, Eq)]
pub struct TranscodeReport {
    pub normalization_type: Option<String>,
    pub output_i: Option<String>,
}

/// The mode that a summary names.
pub open spec fn summary_mode(stderr: Seq<char>) -> Option<Seq<char>> {
    match value_after(lines_spec(stderr), "Normalization Type:"@) {
        Some(value) => if lower_spec(value).len() > 0 {
            Some(lower_spec(value))
        } else {
            None
        },
        None => None,
    }
}

/// The text of the loudness that a summary names.
pub open spec fn summary_loudness(stderr: Seq<char>) -> Option<Seq<char>> {
    match value_after(lines_spec(stderr), "Output Integrated:"@) {
        Some(value) => if words_spec(value).len() > 0 {
            Some(words_spec(value)[0])
        } else {
            None
        },
        None => None,
    }
}

/// Reads the summary of the second pass. What is not there is left out.
pub fn parse_transcode_summary(stderr: &str) -> (report: TranscodeReport)
    ensures
        opt_view(report.normalization_type) == summary_mode(stderr@),
        opt_view(report.output_i) == summary_loudness(stderr@),
{
    let all: Vec<String> = lines(stderr);
    let normalization_type: Option<String> = match find_value(&all, "Normalization Type:") {
        Some(value) => {
            let lower: String = to_ascii_lowercase(value.as_str());
            if lower.as_str().is_empty() {
                None
            } else {
                Some(lower)
            }
        },
        None => None,
    };
    let output_i: Option<String> = match find_value(&all, "Output Integrated:") {
        Some(value) => {
            let parts: Vec<String> = words(value.as_str());
            assert(text_views(parts@).len() == parts@.len());
            if parts.len() > 0 {
                assert(text_views(parts@)[0] == parts@[0]@);
                Some(parts[0].clone())
            } else {
                None
            }
        },
        None => None,
    };
    TranscodeReport { normalization_type, output_i }
}

/// The last bytes of an output, at most `limit`.
pub open spec fn tail_bytes(bytes: Seq<u8>, limit: int) -> Seq<u8> {
    if bytes.len() <= limit {
        bytes
    } else {
        bytes.skip(bytes.len() - limit)
    }
}

/// The end of an error output as text.
pub fn stderr_text(bytes: &[u8]) -> (text: String)
    ensures
        text@ == lossy_text(tail_bytes(bytes@, STDERR_LIMIT as int)),
{
    let start: usize = if bytes.len() <= STDERR_LIMIT {
        0
    } else {
        bytes.len() - STDERR_LIMIT
    };
    let tail: &[u8] = vstd::slice::slice_subrange(bytes, start, bytes.len());
    assert(tail@ =~= tail_bytes(bytes@, STDERR_LIMIT as int));
    decode_lossy(tail)
}

/// No more of an error output is kept than the limit, and it is the end of it.
pub proof fn law_the_end_of_an_output_is_kept(bytes: Seq<u8>, limit: int)
    requires
        limit >= 0,
    ensures
        tail_bytes(bytes, limit).len() <= limit,
        exists|cut: int|
            0 <= cut <= bytes.len() && tail_bytes(bytes, limit) == #[trigger] bytes.skip(cut),
{
    if bytes.len() <= limit {
        assert(bytes.skip(0) =~= bytes);
        assert(tail_bytes(bytes, limit) == bytes.skip(0));
    } else {
        assert(tail_bytes(bytes, limit) == bytes.skip(bytes.len() - limit));
    }
}

} // verus!
