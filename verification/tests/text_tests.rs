use api_proxy::text::{
    chars_of, contains, ends_with, eq_ignore_ascii_case, replace_all, split_on, starts_with,
    string_of, trim_start_matches,
};

fn s(v: &Vec<char>) -> String {
    string_of(v)
}

#[test]
fn replace_all_matches_std_replace() {
    for (text, from, to) in [
        ("aXbXc", "X", "--"),
        ("aaaa", "aa", "b"),
        ("ab", "", "x"),
        ("", "", "x"),
        ("abc", "zz", "y"),
        ("/x and /x", "/x", "http://h/x"),
    ] {
        let r = replace_all(&chars_of(text), &chars_of(from), &chars_of(to));
        assert_eq!(s(&r), text.replace(from, to));
    }
}

#[test]
fn trim_start_matches_removes_repeated_prefix() {
    let r = trim_start_matches(&chars_of("/api/api/x"), &chars_of("/api"));
    assert_eq!(s(&r), "/x");
    let r = trim_start_matches(&chars_of("abc"), &chars_of(""));
    assert_eq!(s(&r), "abc");
    assert_eq!(s(&r), "abc".trim_start_matches(""));
}

#[test]
fn split_matches_std_split() {
    for text in ["a.b.c", "a..b", "", ".", "abc", "sensor.readings[0].value"] {
        let pieces: Vec<String> = split_on(&chars_of(text), '.').iter().map(|p| s(p)).collect();
        let expected: Vec<String> = text.split('.').map(|p| p.to_string()).collect();
        assert_eq!(pieces, expected);
    }
}

#[test]
fn prefix_suffix_and_search() {
    assert!(starts_with(&chars_of("/api"), &chars_of("/")));
    assert!(!starts_with(&chars_of("api"), &chars_of("/")));
    assert!(ends_with(&chars_of("http://h/"), &chars_of("/")));
    assert!(!ends_with(&chars_of(""), &chars_of("/")));
    assert!(contains(&chars_of("text/html; charset=utf-8"), &chars_of("text/html")));
    assert!(!contains(&chars_of("text/plain"), &chars_of("text/html")));
    assert!(contains(&chars_of("x"), &chars_of("")));
}

#[test]
fn ascii_case_insensitive_equality() {
    assert!(eq_ignore_ascii_case(&chars_of("WebSocket"), &chars_of("websocket")));
    assert!(!eq_ignore_ascii_case(&chars_of("websockets"), &chars_of("websocket")));
    assert!(!eq_ignore_ascii_case(&chars_of("wébsocket"), &chars_of("WÉBSOCKET")));
}
