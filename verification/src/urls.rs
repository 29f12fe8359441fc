//! The parts of a web address that the `url` crate reads.
use vstd::prelude::*;

verus! {

/// What `url::Url::parse` and then `url::Url::host_str` give for a text: the host, or nothing
/// where the text is no address or the address has no host.
pub uninterp spec fn url_host(text: Seq<char>) -> Option<Seq<char>>;

/// What `url::Url::parse` and then `url::Url::path` give for a text; nothing where the text is
/// no address.
pub uninterp spec fn url_path(text: Seq<char>) -> Option<Seq<char>>;

/// A text without the blanks and control characters at its ends; the `url` crate drops these before
/// it reads an address.
pub open spec fn trimmed(text: Seq<char>) -> Seq<char>
    decreases text.len(),
{
    if text.len() == 0 {
        text
    } else if text[0] <= ' ' {
        trimmed(text.drop_first())
    } else if text.last() <= ' ' {
        trimmed(text.drop_last())
    } else {
        text
    }
}

/// A text up to its first question mark, or all of it.
pub open spec fn before_query(text: Seq<char>) -> Seq<char>
    decreases text.len(),
{
    if text.len() == 0 || text[0] == '?' {
        Seq::empty()
    } else {
        seq![text[0]] + before_query(text.drop_first())
    }
}

/// What stands before the query in the text of an address.
pub open spec fn query_taken_off(text: Seq<char>) -> Seq<char> {
    before_query(trimmed(text))
}

/// The text of an address with an empty query in the place of its own.
pub open spec fn query_emptied(text: Seq<char>) -> Seq<char> {
    query_taken_off(text).push('?')
}

/// Whether a text is an address: `url::Url::parse` reads it.
pub open spec fn is_address(text: Seq<char>) -> bool {
    url_path(text) is Some
}

/// Whether the host `host` of the text `text` is that of the text without what surrounds it, and,
/// where the text is an address, that of the address with an empty query. An address that has a
/// query stays one when the query is emptied.
pub open spec fn query_plays_no_part(text: Seq<char>, host: Option<Seq<char>>) -> bool {
    &&& host == url_host(trimmed(text))
    &&& is_address(text) && trimmed(text).contains('?') ==> is_address(query_emptied(text))
    &&& is_address(text) && is_address(query_emptied(text)) ==> host == url_host(
        query_emptied(text),
    )
}

/// A text without a question mark stands before its query as a whole.
proof fn lemma_no_query(text: Seq<char>)
    requires
        !text.contains('?'),
    ensures
        before_query(text) == text,
    decreases text.len(),
{
    if text.len() > 0 {
        let rest = text.drop_first();
        assert(text.contains(text[0]));
        assert(!rest.contains('?')) by {
            if rest.contains('?') {
                let k = choose|k: int| 0 <= k < rest.len() && rest[k] == '?';
                assert(text[k + 1] == '?');
            }
        }
        lemma_no_query(rest);
        assert(seq![text[0]] + rest =~= text);
    }
}

/// Two addresses that differ in their queries only have the same host.
pub proof fn law_the_query_leaves_the_host_alone(
    a: Seq<char>,
    host_a: Option<Seq<char>>,
    b: Seq<char>,
    host_b: Option<Seq<char>>,
)
    requires
        is_address(a),
        is_address(b),
        query_plays_no_part(a, host_a),
        query_plays_no_part(b, host_b),
        query_taken_off(a) == query_taken_off(b),
    ensures
        host_a == host_b,
{
    if !trimmed(a).contains('?') && !trimmed(b).contains('?') {
        lemma_no_query(trimmed(a));
        lemma_no_query(trimmed(b));
    }
}

/// Calls `url::Url::parse` and `url::Url::host_str`. The contract claims that the host depends on
/// the text alone, that blanks and control characters around the text are dropped, and that the
/// query of an address plays no part in its host. The `url` crate ends scheme, authority and path
/// at the first question mark at the latest, looks no further before it has read them, and refuses
/// nothing for its query but a length that it cannot count.
#[verifier::external_body]
pub(crate) fn parse_host(text: &str) -> (host: Option<String>)
    ensures
        crate::text::opt_view(host) == url_host(text@),
        query_plays_no_part(text@, crate::text::opt_view(host)),
{
    url::Url::parse(text).ok().and_then(|address| address.host_str().map(String::from))
}

/// Calls `url::Url::parse` and `url::Url::path`. The contract claims only that the path depends
/// on the text alone.
#[verifier::external_body]
pub(crate) fn parse_path(text: &str) -> (path: Option<String>)
    ensures
        crate::text::opt_view(path) == url_path(text@),
{
    url::Url::parse(text).ok().map(|address| String::from(address.path()))
}

/// What `url::Url::parse`, `set_query(None)`, `set_fragment(None)` and `to_string` give for a
/// text, one after the other; nothing where the text is no address.
pub uninterp spec fn url_without_query(text: Seq<char>) -> Option<Seq<char>>;

/// Whether a text holds neither a query nor a fragment of an address: none of the two characters
/// that begin one stands in it.
pub open spec fn holds_no_query(text: Seq<char>) -> bool {
    forall|i: int| 0 <= i < text.len() ==> #[trigger] text[i] != '?' && text[i] != '#'
}

/// Calls `url::Url::parse`, `url::Url::set_query`, `url::Url::set_fragment` and the `Display` of
/// `url::Url`. The contract claims that the result depends on the text alone, and that no `?` and
/// no `#` is left in it: they begin the query and the fragment, and are escaped or refused
/// everywhere else.
#[verifier::external_body]
pub(crate) fn strip_query(text: &str) -> (address: Option<String>)
    ensures
        crate::text::opt_view(address) == url_without_query(text@),
        address matches Some(a) ==> holds_no_query(a@),
{
    let mut address = url::Url::parse(text).ok()?;
    address.set_query(None);
    address.set_fragment(None);
    Some(address.to_string())
}

/// Whether a byte needs no escape in a query: a letter, a digit, `-`, `.`, `_` or `~`.
pub open spec fn is_unreserved(byte: u8) -> bool {
    '0' <= byte as char <= '9' || 'A' <= byte as char <= 'Z' || 'a' <= byte as char <= 'z' || byte
        as char == '-' || byte as char == '.' || byte as char == '_' || byte as char == '~'
}

/// A hexadecimal digit in upper case.
pub open spec fn upper_hex(digit: int) -> char {
    if digit < 10 {
        ('0' as int + digit) as char
    } else {
        ('A' as int + digit - 10) as char
    }
}

/// A byte in a query: itself, or `%` and its two hexadecimal digits.
pub open spec fn escaped(byte: u8) -> Seq<char> {
    if is_unreserved(byte) {
        seq![byte as char]
    } else {
        seq!['%', upper_hex(byte as int / 16), upper_hex(byte as int % 16)]
    }
}

/// Bytes in a query, one after the other.
pub open spec fn escaped_bytes(bytes: Seq<u8>) -> Seq<char>
    decreases bytes.len(),
{
    if bytes.len() == 0 {
        Seq::empty()
    } else {
        escaped_bytes(bytes.drop_last()) + escaped(bytes.last())
    }
}

/// A text in a query: its UTF-8 bytes, escaped where they need it.
pub open spec fn percent_encoded(text: Seq<char>) -> Seq<char> {
    escaped_bytes(vstd::utf8::encode_utf8(text))
}

/// Calls `urlencoding::encode`. The contract claims that every byte of the text in UTF-8 stays as
/// it is where it is a letter, a digit, `-`, `.`, `_` or `~`, and becomes `%` and two hexadecimal
/// digits in upper case elsewhere.
#[verifier::external_body]
pub(crate) fn percent_encode(text: &str) -> (encoded: String)
    ensures
        encoded@ == percent_encoded(text@),
{
    urlencoding::encode(text).into_owned()
}

} // verus!
