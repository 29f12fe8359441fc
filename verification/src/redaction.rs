//! Taking signatures and credentials out of texts before they are written down.
use crate::text::own;
use crate::urls::{holds_no_query, strip_query, url_without_query};
use vstd::prelude::*;

verus! {

/// What counts as an address.
pub const URL_PATTERN: &'static str = "https?://[^\\s\\\"'<>\\)]+";

/// What counts as a credential: a name, and the value that follows it.
pub const SECRET_PATTERN: &'static str =
    "(?i)(cookie|token|mstoken|a_bogus|verifyfp|sign|signature|expire)=([^&\\s,;]+)";

/// What a credential is replaced by: its name and a mark.
pub const SECRET_REPLACEMENT: &'static str = "$1=[REDACTED]";

/// What stands for an address that cannot be read.
pub const UNREADABLE_URL: &'static str = "[REDACTED_URL]";

/// An address without its query and fragment, or a mark where it cannot be read.
pub open spec fn redacted_url(raw: Seq<char>) -> Seq<char> {
    match url_without_query(raw) {
        Some(address) => address,
        None => UNREADABLE_URL@,
    }
}

/// An address without its query and fragment, or a mark where it cannot be read.
pub fn redact_url(raw: &str) -> (redacted: String)
    ensures
        redacted@ == redacted_url(raw@),
        holds_no_query(redacted@),
{
    proof {
        reveal_strlit("[REDACTED_URL]");
    }
    match strip_query(raw) {
        Some(address) => address,
        None => own(UNREADABLE_URL),
    }
}

/// The gaps and the pieces between them, by turns.
pub open spec fn interleaved(gaps: Seq<Seq<char>>, pieces: Seq<Seq<char>>) -> Seq<char>
    decreases pieces.len(),
{
    if pieces.len() == 0 || gaps.len() != pieces.len() + 1 {
        if gaps.len() > 0 {
            gaps[0]
        } else {
            Seq::empty()
        }
    } else {
        interleaved(gaps.drop_last(), pieces.drop_last()) + pieces.last() + gaps.last()
    }
}

/// How `regex::Regex::replace_all` divides a text for a pattern: what lies around the matches,
/// and the matches.
pub uninterp spec fn divided(pattern: Seq<char>, text: Seq<char>) -> (
    Seq<Seq<char>>,
    Seq<Seq<char>>,
);

/// Whether `replaced` is `text` with the matches of a division replaced: the text consists of the
/// matches and of what lies around them, and only the matches change, each to its address, which
/// holds no query.
pub open spec fn url_replacement(
    text: Seq<char>,
    replaced: Seq<char>,
    division: (Seq<Seq<char>>, Seq<Seq<char>>),
) -> bool {
    let (gaps, found) = division;
    &&& gaps.len() == found.len() + 1
    &&& interleaved(gaps, found) == text
    &&& replaced == interleaved(gaps, found.map_values(|raw: Seq<char>| redacted_url(raw)))
    &&& forall|i: int| 0 <= i < found.len() ==> holds_no_query(redacted_url(#[trigger] found[i]))
}

/// Calls `regex::Regex::new` and `regex::Regex::replace_all`, with `redact_url` on each match.
/// The contract claims that the text consists of the matches and of what lies around them, that
/// only the matches are replaced, each by what `redact_url` makes of it, which holds no query, and
/// that where the matches lie depends on the pattern and the text alone.
#[verifier::external_body]
fn replace_urls(pattern: &str, text: &str) -> (replaced: String)
    requires
        pattern@ == URL_PATTERN@,
    ensures
        url_replacement(text@, replaced@, divided(pattern@, text@)),
{
    let urls = regex::Regex::new(pattern).expect("valid URL redaction pattern");
    urls.replace_all(text, |found: &regex::Captures<'_>| redact_url(&found[0])).into_owned()
}

/// What `regex::Regex::replace_all` gives for a pattern, a text and a replacement.
pub uninterp spec fn regex_replaced(
    pattern: Seq<char>,
    text: Seq<char>,
    replacement: Seq<char>,
) -> Seq<char>;

/// Calls `regex::Regex::new` and `regex::Regex::replace_all` with a replacement text. The
/// contract claims only that the result depends on the pattern, the text and the replacement
/// alone.
#[verifier::external_body]
fn replace_pattern(pattern: &str, text: &str, replacement: &str) -> (replaced: String)
    requires
        pattern@ == SECRET_PATTERN@,
    ensures
        replaced@ == regex_replaced(pattern@, text@, replacement@),
{
    let secrets = regex::Regex::new(pattern).expect("valid secret redaction pattern");
    secrets.replace_all(text, replacement).into_owned()
}

/// `text` with every address cut down to what precedes its query.
pub open spec fn urls_cut(text: Seq<char>) -> Seq<char> {
    let (gaps, found) = divided(URL_PATTERN@, text);
    interleaved(gaps, found.map_values(|raw: Seq<char>| redacted_url(raw)))
}

/// `text` without signatures and credentials: first every address is cut down to what precedes
/// its query, then every credential is replaced by its name and a mark.
pub open spec fn redacted_text(text: Seq<char>) -> Seq<char> {
    regex_replaced(SECRET_PATTERN@, urls_cut(text), SECRET_REPLACEMENT@)
}

/// `text` without signatures and credentials.
pub fn redact_sensitive(text: &str) -> (redacted: String)
    ensures
        redacted@ == redacted_text(text@),
{
    let without_queries: String = replace_urls(URL_PATTERN, text);
    replace_pattern(SECRET_PATTERN, without_queries.as_str(), SECRET_REPLACEMENT)
}

/// How many characters of a kind stand in a text.
pub open spec fn occurrences(text: Seq<char>, c: char) -> int
    decreases text.len(),
{
    if text.len() == 0 {
        0
    } else {
        occurrences(text.drop_last(), c) + (if text.last() == c {
            1int
        } else {
            0
        })
    }
}

/// How many characters of a kind stand in some texts together.
pub open spec fn occurrences_in(texts: Seq<Seq<char>>, c: char) -> int
    decreases texts.len(),
{
    if texts.len() == 0 {
        0
    } else {
        occurrences_in(texts.drop_last(), c) + occurrences(texts.last(), c)
    }
}

proof fn lemma_occurrences_joined(front: Seq<char>, back: Seq<char>, c: char)
    ensures
        occurrences(front + back, c) == occurrences(front, c) + occurrences(back, c),
    decreases back.len(),
{
    if back.len() == 0 {
        assert(front + back =~= front);
    } else {
        assert((front + back).drop_last() =~= front + back.drop_last());
        lemma_occurrences_joined(front, back.drop_last(), c);
    }
}

proof fn lemma_no_occurrence(text: Seq<char>, c: char)
    requires
        forall|i: int| 0 <= i < text.len() ==> #[trigger] text[i] != c,
    ensures
        occurrences(text, c) == 0,
    decreases text.len(),
{
    if text.len() > 0 {
        lemma_no_occurrence(text.drop_last(), c);
    }
}

proof fn lemma_only_gaps_hold(gaps: Seq<Seq<char>>, pieces: Seq<Seq<char>>, c: char)
    requires
        gaps.len() == pieces.len() + 1,
        forall|i: int| 0 <= i < pieces.len() ==> occurrences(#[trigger] pieces[i], c) == 0,
    ensures
        occurrences(interleaved(gaps, pieces), c) == occurrences_in(gaps, c),
    decreases pieces.len(),
{
    if pieces.len() == 0 {
        assert(gaps.drop_last() =~= Seq::<Seq<char>>::empty());
        assert(occurrences_in(gaps.drop_last(), c) == 0);
    } else {
        let fewer = pieces.drop_last();
        assert forall|i: int| 0 <= i < fewer.len() implies occurrences(#[trigger] fewer[i], c)
            == 0 by {
            assert(fewer[i] == pieces[i]);
        }
        lemma_only_gaps_hold(gaps.drop_last(), fewer, c);
        let front = interleaved(gaps.drop_last(), fewer);
        assert(occurrences(pieces[pieces.len() - 1], c) == 0);
        lemma_occurrences_joined(front, pieces.last(), c);
        lemma_occurrences_joined(front + pieces.last(), gaps.last(), c);
    }
}

/// No query and no fragment of an address gets through the first step: whatever `?` and `#` is
/// left stood outside of the addresses.
pub proof fn law_no_query_gets_through(text: Seq<char>, replaced: Seq<char>)
    requires
        url_replacement(text, replaced, divided(URL_PATTERN@, text)),
    ensures
        replaced == urls_cut(text),
        occurrences(replaced, '?') == occurrences_in(divided(URL_PATTERN@, text).0, '?'),
        occurrences(replaced, '#') == occurrences_in(divided(URL_PATTERN@, text).0, '#'),
{
    let (gaps, found) = divided(URL_PATTERN@, text);
    let pieces = found.map_values(|raw: Seq<char>| redacted_url(raw));
    assert forall|i: int| 0 <= i < pieces.len() implies occurrences(#[trigger] pieces[i], '?') == 0
        && occurrences(pieces[i], '#') == 0 by {
        assert(holds_no_query(redacted_url(found[i])));
        lemma_no_occurrence(pieces[i], '?');
        lemma_no_occurrence(pieces[i], '#');
    }
    lemma_only_gaps_hold(gaps, pieces, '?');
    lemma_only_gaps_hold(gaps, pieces, '#');
}

/// A text in which the pattern of addresses matches nothing comes out of the first step as it
/// is.
pub proof fn law_text_without_addresses_is_kept(text: Seq<char>, replaced: Seq<char>)
    requires
        url_replacement(text, replaced, divided(URL_PATTERN@, text)),
        divided(URL_PATTERN@, text).1.len() == 0,
    ensures
        replaced == text,
{
}

} // verus!
