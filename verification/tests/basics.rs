use biliup_common::cookie_health::{webhook_request, WebhookRequest};
use biliup_common::order::{ordered_ids, sort_keys, SortKey};
use biliup_common::parse::{behind_last, find, leading_number, parse_whole, split, split_once};
use biliup_common::redaction::{redact_sensitive, redact_url, UNREADABLE_URL};
use biliup_common::route_health::{LiveStream, RouteKey};
use biliup_common::text::{
    contains, decimal_text, ends_with, eq_ignore_ascii_case, hex_text, join, lines, replace,
    signed_decimal_text, starts_with, take_chars, text_at_or_before, to_ascii_lowercase, trim,
    words,
};
use biliup_common::time::{Span, Timestamp, MAX_CLOCK_NANOS, MAX_SPAN_NANOS};

fn chars(text: &str) -> Vec<char> {
    text.chars().collect()
}

#[test]
fn texts_are_searched_and_cut_as_std_does() {
    for text in ["", " ", "a b", "\u{a0}x\u{3000}", "line\r\nnext\n", "\n\n", "Ünï-CÖDE 一二"] {
        assert_eq!(trim(text), text.trim());
        assert_eq!(words(text), text.split_whitespace().collect::<Vec<_>>());
        assert_eq!(lines(text), text.lines().collect::<Vec<_>>());
        assert_eq!(to_ascii_lowercase(text), text.to_ascii_lowercase());
        assert_eq!(take_chars(text, 2), text.chars().take(2).collect::<String>());
        assert_eq!(split(text, 'n'), text.split('n').collect::<Vec<_>>());
        for pattern in ["a", " ", "ne", "一"] {
            assert_eq!(contains(text, pattern), text.contains(pattern));
            assert_eq!(starts_with(text, pattern), text.starts_with(pattern));
            assert_eq!(ends_with(text, pattern), text.ends_with(pattern));
            assert_eq!(replace(text, pattern, "--"), text.replace(pattern, "--"));
            assert_eq!(text_at_or_before(text, pattern), text <= pattern);
        }
    }
    assert!(eq_ignore_ascii_case("FlV", "flv"));
    assert!(!eq_ignore_ascii_case("É", "é"));
    assert_eq!(join(&["a".to_string(), "b".to_string()], ", "), "a, b");
}

#[test]
fn numbers_are_written_as_std_does() {
    for number in [0u128, 7, 10, 999, u64::MAX as u128, u128::MAX] {
        assert_eq!(decimal_text(number), format!("{number}"));
        assert_eq!(hex_text(number, 32), format!("{number:032x}"));
    }
    for number in [0i64, -1, 42, i64::MIN, i64::MAX] {
        assert_eq!(signed_decimal_text(number), format!("{number}"));
    }
}

#[test]
fn numbers_are_read_as_std_does() {
    for text in ["0", "-0", "+5", "12", "-12", "", "-", "1a", "9223372036854775807"] {
        assert_eq!(parse_whole(&chars(text)), text.parse::<i64>().ok());
    }
    assert_eq!(parse_whole(&chars("9223372036854775808")), None);
    assert_eq!(leading_number(&chars("12 >= 5")), Some(12));
    assert_eq!(leading_number(&chars("x")), None);
}

#[test]
fn texts_are_parted_at_the_first_separator() {
    assert_eq!(
        split_once(&chars("a, b, c"), &chars(", ")),
        Some((chars("a"), chars("b, c")))
    );
    assert_eq!(split_once(&chars("abc"), &chars("x")), None);
    assert_eq!(find(&chars("abcabc"), &chars("ca")), Some(2));
    assert_eq!(behind_last(&chars("a:b:c"), ':'), chars("c"));
    assert_eq!(behind_last(&chars("abc"), ':'), chars("abc"));
}

#[test]
fn rows_are_ordered_by_both_keys_and_their_id() {
    let keys = vec![
        SortKey { major: 2, minor: 0, id: 1 },
        SortKey { major: 1, minor: 5, id: 9 },
        SortKey { major: 1, minor: 5, id: 3 },
        SortKey { major: 1, minor: -5, id: 4 },
    ];
    assert_eq!(ordered_ids(&keys, 10), vec![4, 3, 9, 1]);
    assert_eq!(ordered_ids(&keys, 2), vec![4, 3]);
    assert_eq!(sort_keys(&keys).len(), 4);
}

#[test]
fn clocks_and_spans_have_their_limits() {
    assert!(Timestamp::from_nanos(MAX_CLOCK_NANOS).is_some());
    assert!(Timestamp::from_nanos(MAX_CLOCK_NANOS + 1).is_none());
    assert!(Timestamp::from_secs(i64::MAX).is_none());
    let early = Timestamp::from_secs(5).unwrap();
    let late = Timestamp::from_secs(8).unwrap();
    assert_eq!(late.since(&early), 3_000_000_000);
    assert_eq!(early.saturating_since(&late), Span::zero());
    assert!(early.at_or_before(&late));
    assert_eq!(Span::from_nanos(u128::MAX).nanos(), MAX_SPAN_NANOS);
    assert_eq!(Span::from_secs(1).saturating_add(&Span::from_millis(5)).as_millis(), 1_005);
    assert_eq!(Span::from_nanos(u128::MAX).as_millis_u64(), u64::MAX);
    assert_eq!(Span::from_secs(1).min(&Span::from_secs(2)), Span::from_secs(1));
    let widest = chrono::DateTime::<chrono::Utc>::MAX_UTC;
    assert_eq!(
        widest.timestamp() as i128 * 1_000_000_000 + widest.timestamp_subsec_nanos() as i128,
        MAX_CLOCK_NANOS
    );
}

#[test]
fn addresses_lose_their_query_and_secrets_their_value() {
    assert_eq!(redact_url("https://a.example/x?sign=1#top"), "https://a.example/x");
    assert_eq!(redact_url("not a url"), UNREADABLE_URL);
    let shown = redact_sensitive("see https://a.example/x?sign=1 and token=abc");
    assert!(shown.contains("https://a.example/x "));
    assert!(!shown.contains("sign=1"));
    assert!(!shown.contains("abc"));
    assert!(shown.contains("[REDACTED]"));
}

#[test]
fn a_route_without_a_candidate_is_known_by_its_address() {
    let stream = LiveStream {
        platform: "x".to_string(),
        raw_stream_url: "https://CDN.example:443/live/a.flv?k=1".to_string(),
        suffix: "flv".to_string(),
        recording_quality: None,
        stream_candidates: Vec::new(),
    };
    assert_eq!(RouteKey::from_stream(&stream).host.as_deref(), Some("cdn.example"));
}

#[test]
fn a_webhook_address_takes_the_message_in_its_query() {
    let request = webhook_request("https://h/{title}?m={content}", "a b", "~é/");
    assert_eq!(
        request,
        WebhookRequest::Get { url: "https://h/a%20b?m=~%C3%A9%2F".to_string() }
    );
}
