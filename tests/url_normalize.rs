use css_modules::url::{normalize_url, resolve_percent, unescape_url};

#[test]
fn hex_escapes_decode() {
    assert_eq!(normalize_url("\\48\\65\\6c\\6c\\6f"), "Hello");
}

#[test]
fn data_uri_is_not_percent_decoded() {
    let s = "data:image/png;base64,Zm9v%20";
    assert_eq!(normalize_url(s), s);
}

#[test]
fn data_uri_prefix_is_case_insensitive() {
    let s = "DaTa:text/plain,a%20b";
    assert_eq!(normalize_url(s), s);
}

#[test]
fn percent_escapes_decode() {
    assert_eq!(normalize_url("foo%20bar"), "foo bar");
}

#[test]
fn line_continuation_is_removed() {
    assert_eq!(normalize_url("foo\\\nbar"), "foobar");
    assert_eq!(normalize_url("foo\\\r\\\x0Cbar"), "foobar");
}

#[test]
fn invalid_code_point_keeps_escape() {
    assert_eq!(normalize_url("a\\D800 b"), "a\\D800 b");
    assert_eq!(normalize_url("a\\dfff-"), "a\\dfff-");
    assert_eq!(normalize_url("\\110000"), "\\110000");
}

#[test]
fn surrounding_space_is_trimmed() {
    assert_eq!(normalize_url(" \t\n img.png \x0C\r"), "img.png");
    assert_eq!(normalize_url("   "), "");
    assert_eq!(normalize_url(""), "");
}

#[test]
fn hex_escape_consumes_one_space() {
    assert_eq!(normalize_url("\\41 B"), "AB");
    assert_eq!(normalize_url("\\41  B"), "A B");
    assert_eq!(normalize_url("\\1F600x"), "\u{1F600}x");
}

#[test]
fn hex_escape_takes_at_most_six_digits() {
    assert_eq!(normalize_url("\\0000411"), "A1");
}

#[test]
fn other_escapes_give_the_character() {
    assert_eq!(normalize_url("a\\(b\\)c"), "a(b)c");
    assert_eq!(normalize_url("\\\\"), "\\");
    assert_eq!(normalize_url("\\é"), "é");
}

#[test]
fn trailing_backslash_stays() {
    assert_eq!(normalize_url("a\\"), "a\\");
}

#[test]
fn percent_decoding_to_invalid_utf8_keeps_text() {
    assert_eq!(normalize_url("a%ffb"), "a%ffb");
}

#[test]
fn lone_percent_stays() {
    assert_eq!(normalize_url("100%"), "100%");
}

#[test]
fn unescape_stops_before_percent_decoding() {
    let u: String = unescape_url(" \\66oo%20 ").into_iter().collect();
    assert_eq!(u, "foo%20");
}

#[test]
fn resolve_percent_takes_decoded_text() {
    assert_eq!(resolve_percent("a%20b", Some("a b".to_string())), "a b");
    assert_eq!(resolve_percent("a%ffb", None), "a%ffb");
    assert_eq!(resolve_percent("data:a%20b", Some("x".to_string())), "data:a%20b");
    assert_eq!(resolve_percent("plain", Some("x".to_string())), "plain");
}
