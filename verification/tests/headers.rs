use biliup_common::headers::{construct_headers, TOO_MANY_HEADERS};

fn entry(name: &str, value: &str) -> (String, String) {
    (name.to_string(), value.to_string())
}

#[test]
fn entries_become_headers_under_lower_case_names() {
    let map =
        construct_headers(&vec![entry("User-Agent", "a b"), entry("REFERER", "https://x/")])
            .unwrap();
    assert_eq!(map.len(), 2);
    assert_eq!(map.get("user-agent").unwrap(), "a b");
    assert_eq!(map.get("referer").unwrap(), "https://x/");
}

#[test]
fn the_later_of_two_equal_names_wins() {
    let map = construct_headers(&vec![entry("Cookie", "old"), entry("cookie", "new")]).unwrap();
    assert_eq!(map.len(), 1);
    assert_eq!(map.get("Cookie").unwrap(), "new");
}

#[test]
fn no_entries_make_no_headers() {
    assert!(construct_headers(&Vec::new()).unwrap().is_empty());
}

#[test]
fn a_bad_name_is_refused() {
    assert_eq!(
        construct_headers(&vec![entry("ok", "1"), entry("a b", "1")]).unwrap_err(),
        "invalid header name \"a b\": invalid HTTP header name"
    );
    assert_eq!(
        construct_headers(&vec![entry("", "1")]).unwrap_err(),
        "invalid header name \"\": invalid HTTP header name"
    );
}

#[test]
fn a_bad_value_is_refused_with_its_name() {
    assert_eq!(
        construct_headers(&vec![entry("X-\u{41}", "a\nb")]).unwrap_err(),
        "invalid header value for \"X-A\": failed to parse header value"
    );
    assert!(construct_headers(&vec![entry("x", "a\tb")]).is_ok());
}

#[test]
fn very_many_headers_are_taken_as_long_as_the_map_takes_them() {
    let entries: Vec<_> = (0..8_000).map(|i| entry(&format!("x-{i}"), "v")).collect();
    assert_eq!(construct_headers(&entries).unwrap().len(), 8_000);
    let entries: Vec<_> = (0..40_000).map(|i| entry(&format!("x-{i}"), "v")).collect();
    assert_eq!(construct_headers(&entries).unwrap_err(), TOO_MANY_HEADERS);
    let entries: Vec<_> = (0..40_000).map(|i| entry("x", &i.to_string())).collect();
    assert_eq!(construct_headers(&entries).unwrap()["x"], "39999");
}
