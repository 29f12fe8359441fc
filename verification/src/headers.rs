//! Request headers made of configured names and values.
use vstd::prelude::*;

use crate::text::{lower_spec, own};

verus! {

/// The header map of `http`, with its values.
#[verifier::external_type_specification]
#[verifier::external_body]
#[verifier::reject_recursive_types(T)]
pub struct ExHeaderMap<T>(axum::http::HeaderMap<T>);

/// A header value of `http`.
#[verifier::external_type_specification]
#[verifier::external_body]
pub struct ExHeaderValue(axum::http::HeaderValue);

/// What a header map holds: to each name, in lower case, the first of its values.
pub uninterp spec fn header_fields(map: axum::http::HeaderMap<axum::http::HeaderValue>) -> Map<
    Seq<char>,
    Seq<char>,
>;

/// A header map that holds no more names than this takes another one for certain.
pub const MAX_HEADERS: usize = 6553;

/// Why entries are refused that are too many for a header map.
pub const TOO_MANY_HEADERS: &'static str = "too many headers";

/// Whether `c` may stand in a header name.
pub open spec fn is_token(c: char) -> bool {
    ('0' <= c && c <= '9') || ('a' <= c && c <= 'z') || ('A' <= c && c <= 'Z') || c == '!' || c
        == '#' || c == '$' || c == '%' || c == '&' || c == '\'' || c == '*' || c == '+' || c == '-'
        || c == '.' || c == '^' || c == '_' || c == '`' || c == '|' || c == '~'
}

/// Whether a text is a header name.
pub open spec fn is_header_name(text: Seq<char>) -> bool {
    1 <= text.len() <= 65535 && forall|i: int|
        0 <= i < text.len() ==> is_token(#[trigger] text[i])
}

/// Whether a text is a header value: it holds no control character but the tab.
pub open spec fn is_header_value(text: Seq<char>) -> bool {
    forall|i: int|
        0 <= i < text.len() ==> (#[trigger] text[i]) == '\t' || (text[i] >= ' ' && text[i]
            != '\u{7f}')
}

/// What `axum::http::HeaderName::from_str` says of a text: a header name is put into lower case,
/// every other text is refused.
pub open spec fn name_reading(text: Seq<char>, reading: Result<String, String>) -> bool {
    match reading {
        Ok(name) => is_header_name(text) && name@ == lower_spec(text),
        Err(refusal) => !is_header_name(text) && refusal@ == "invalid HTTP header name"@,
    }
}

/// `axum::http::HeaderName::from_str`: the name in lower case, or the refusal's text.
#[verifier::external_body]
fn read_header_name(text: &str) -> (reading: Result<String, String>)
    ensures
        name_reading(text@, reading),
{
    match <axum::http::HeaderName as std::str::FromStr>::from_str(text) {
        Ok(name) => Ok(name.as_str().to_string()),
        Err(refusal) => Err(refusal.to_string()),
    }
}

/// What `axum::http::HeaderValue::from_str` says of a text.
pub open spec fn value_reading(text: Seq<char>, reading: Result<(), String>) -> bool {
    match reading {
        Ok(_) => is_header_value(text),
        Err(refusal) => !is_header_value(text) && refusal@ == "failed to parse header value"@,
    }
}

/// `axum::http::HeaderValue::from_str`: whether it takes the text, or the refusal's text.
#[verifier::external_body]
fn read_header_value(text: &str) -> (reading: Result<(), String>)
    ensures
        value_reading(text@, reading),
{
    match axum::http::HeaderValue::from_str(text) {
        Ok(_) => Ok(()),
        Err(refusal) => Err(refusal.to_string()),
    }
}

/// No names at all.
pub open spec fn no_fields() -> Map<Seq<char>, Seq<char>> {
    Map::empty()
}

/// `axum::http::HeaderMap::new`: a map that holds nothing.
#[verifier::external_body]
fn empty_headers() -> (headers: axum::http::HeaderMap<axum::http::HeaderValue>)
    ensures
        header_fields(headers) == no_fields(),
{
    axum::http::HeaderMap::new()
}

/// `axum::http::HeaderMap::try_insert`: whether the map took the entry. The name has the value and no
/// other from then on; a map that refuses the entry holds what it held. It refuses none within the
/// bound; behind the bound that depends on how the names spread over its table.
#[verifier::external_body]
fn insert_header(
    map: &mut axum::http::HeaderMap<axum::http::HeaderValue>,
    name: &str,
    value: &str,
) -> (taken: bool)
    requires
        is_header_name(name@),
        lower_spec(name@) == name@,
        is_header_value(value@),
    ensures
        taken ==> header_fields(*final(map)) == header_fields(*old(map)).insert(name@, value@),
        !taken ==> header_fields(*final(map)) == header_fields(*old(map)),
        header_fields(*old(map)).dom().len() <= MAX_HEADERS ==> taken,
{
    let key = axum::http::HeaderName::from_bytes(name.as_bytes()).expect("name was read");
    let held = axum::http::HeaderValue::from_str(value).expect("value was read");
    map.try_insert(key, held).is_ok()
}

/// A text as `std` writes it for a programmer: in quotes, with what cannot be shown escaped.
pub uninterp spec fn quoted(text: Seq<char>) -> Seq<char>;

/// The `Debug` form of a text, which `std` gives. The form is named, not described.
#[verifier::external_body]
fn debug_text(text: &str) -> (form: String)
    ensures
        form@ == quoted(text@),
{
    format!("{text:?}")
}

/// Why an entry is refused: its name goes before its value.
pub open spec fn entry_problem(name: Seq<char>, value: Seq<char>) -> Option<Seq<char>> {
    if !is_header_name(name) {
        Some("invalid header name "@ + quoted(name) + ": "@ + "invalid HTTP header name"@)
    } else if !is_header_value(value) {
        Some(
            "invalid header value for "@ + quoted(name) + ": "@ + "failed to parse header value"@,
        )
    } else {
        None
    }
}

/// Why a list of entries is refused: for its first bad entry.
pub open spec fn first_problem(entries: Seq<(String, String)>) -> Option<Seq<char>>
    decreases entries.len(),
{
    if entries.len() == 0 {
        None
    } else {
        match first_problem(entries.drop_last()) {
            Some(problem) => Some(problem),
            None => entry_problem(entries.last().0@, entries.last().1@),
        }
    }
}

/// What the entries make: of two names that differ in case only, the later has its way.
pub open spec fn entry_fields(entries: Seq<(String, String)>) -> Map<Seq<char>, Seq<char>>
    decreases entries.len(),
{
    if entries.len() == 0 {
        Map::empty()
    } else {
        entry_fields(entries.drop_last()).insert(
            lower_spec(entries.last().0@),
            entries.last().1@,
        )
    }
}

proof fn lemma_lower_again(text: Seq<char>)
    requires
        is_header_name(text),
    ensures
        is_header_name(lower_spec(text)),
        lower_spec(lower_spec(text)) == lower_spec(text),
{
    assert(lower_spec(lower_spec(text)) =~= lower_spec(text));
    assert forall|i: int| 0 <= i < lower_spec(text).len() implies is_token(
        #[trigger] lower_spec(text)[i],
    ) by {
        assert(is_token(text[i]));
    }
}

proof fn lemma_fields_grow(entries: Seq<(String, String)>, count: int)
    requires
        0 <= count <= entries.len(),
    ensures
        entry_fields(entries).dom().finite(),
        entry_fields(entries.take(count)).dom().len() <= entry_fields(entries).dom().len(),
    decreases entries.len(),
{
    if count < entries.len() {
        assert(entries.drop_last().take(count) =~= entries.take(count));
        lemma_fields_grow(entries.drop_last(), count);
    } else {
        assert(entries.take(count) =~= entries);
        if entries.len() > 0 {
            assert(entries.drop_last().take(count - 1) =~= entries.drop_last());
            lemma_fields_grow(entries.drop_last(), count - 1);
        }
    }
}

proof fn lemma_problem_stays(entries: Seq<(String, String)>, count: int)
    requires
        0 <= count <= entries.len(),
        first_problem(entries.take(count)) is Some,
    ensures
        first_problem(entries) == first_problem(entries.take(count)),
    decreases entries.len() - count,
{
    if count < entries.len() {
        assert(entries.take(count + 1).drop_last() =~= entries.take(count));
        lemma_problem_stays(entries, count + 1);
    } else {
        assert(entries.take(count) =~= entries);
    }
}

/// The headers that the entries make, or why they make none. Entries with very many names may be too
/// many for the map.
pub fn construct_headers(entries: &Vec<(String, String)>) -> (headers: Result<
    axum::http::HeaderMap<axum::http::HeaderValue>,
    String,
>)
    ensures
        match headers {
            Ok(map) => first_problem(entries@) is None && header_fields(map) == entry_fields(
                entries@,
            ),
            Err(problem) => first_problem(entries@) == Some(problem@) || (problem@
                == TOO_MANY_HEADERS@ && entry_fields(entries@).dom().len() > MAX_HEADERS),
        },
        first_problem(entries@) is None && entry_fields(entries@).dom().len() <= MAX_HEADERS
            ==> headers is Ok,
{
    let mut map: axum::http::HeaderMap<axum::http::HeaderValue> = empty_headers();
    let mut i: usize = 0;
    while i < entries.len()
        invariant
            i <= entries.len(),
            first_problem(entries@.take(i as int)) is None,
            header_fields(map) == entry_fields(entries@.take(i as int)),
        decreases entries.len() - i,
    {
        assert(entries@.take(i + 1).drop_last() =~= entries@.take(i as int));
        let entry: &(String, String) = &entries[i];
        let name: String = match read_header_name(entry.0.as_str()) {
            Ok(name) => name,
            Err(refusal) => {
                let mut problem: String = own("invalid header name ");
                problem.append(debug_text(entry.0.as_str()).as_str());
                problem.append(": ");
                problem.append(refusal.as_str());
                proof {
                    lemma_problem_stays(entries@, i + 1);
                }
                return Err(problem);
            },
        };
        match read_header_value(entry.1.as_str()) {
            Ok(_) => {},
            Err(refusal) => {
                let mut problem: String = own("invalid header value for ");
                problem.append(debug_text(entry.0.as_str()).as_str());
                problem.append(": ");
                problem.append(refusal.as_str());
                proof {
                    lemma_problem_stays(entries@, i + 1);
                }
                return Err(problem);
            },
        }
        proof {
            lemma_lower_again(entry.0@);
            lemma_fields_grow(entries@, i as int);
        }
        if !insert_header(&mut map, name.as_str(), entry.1.as_str()) {
            return Err(own(TOO_MANY_HEADERS));
        }
        i = i + 1;
    }
    assert(entries@.take(entries@.len() as int) =~= entries@);
    Ok(map)
}

} // verus!
