use mcpub::number::{i64_text, parse_i64, u64_text};
use mcpub::sanitize::{
    extract_domain, required_url, sanitize_description, sanitize_url, well_known_found,
    well_known_url,
};
use mcpub::text::{contains_text, trimmed};

#[test]
fn description_drops_controls_and_flattens_lines() {
    let out = sanitize_description("  He said \"hi\"\n\tbye\u{7}  ");
    assert_eq!(out, "He said 'hi'  bye");
}

#[test]
fn description_keeps_plain_text() {
    assert_eq!(sanitize_description("weather tools"), "weather tools");
    assert_eq!(sanitize_description(""), "");
    assert_eq!(sanitize_description("\r\n\t "), "");
}

#[test]
fn description_twice_is_once() {
    let raw = " a\u{0}b\u{1f}\"c\"\r\nd\u{7f} ";
    let once = sanitize_description(raw);
    assert_eq!(once, "ab'c'  d");
    assert_eq!(sanitize_description(&once), once);
}

#[test]
fn description_trims_unicode_white_space() {
    assert_eq!(sanitize_description("\u{3000}tools\u{a0}"), "tools");
}

#[test]
fn url_is_cleaned() {
    assert_eq!(
        sanitize_url("  https://example.com/path/?q=1#frag "),
        Ok("https://example.com/path".to_string())
    );
    assert_eq!(sanitize_url("https://a.b#x?y"), Ok("https://a.b".to_string()));
    assert_eq!(sanitize_url("https://a.b///"), Ok("https://a.b".to_string()));
}

#[test]
fn url_must_be_https() {
    assert_eq!(sanitize_url("http://example.com"), Err("url must use https://".to_string()));
    assert_eq!(sanitize_url(""), Err("url must use https://".to_string()));
}

#[test]
fn url_needs_a_dotted_domain() {
    assert_eq!(sanitize_url("https://localhost"), Err("invalid domain".to_string()));
    assert_eq!(sanitize_url("https://"), Err("invalid domain".to_string()));
    assert_eq!(sanitize_url("https:///"), Err("invalid domain".to_string()));
    assert_eq!(sanitize_url("https://?a.b"), Err("invalid domain".to_string()));
}

#[test]
fn domain_of_urls() {
    assert_eq!(extract_domain("https://a.b/c/d"), Some("a.b".to_string()));
    assert_eq!(extract_domain("http://x.y"), Some("x.y".to_string()));
    assert_eq!(extract_domain("https://"), Some(String::new()));
    assert_eq!(extract_domain("ftp://x.y"), None);
}

#[test]
fn well_known_addresses() {
    assert_eq!(
        well_known_url("https://a.b/mcp"),
        Some("https://a.b/.well-known/mcp.json".to_string())
    );
    assert_eq!(
        well_known_url("http://a.b"),
        Some("https://a.b/.well-known/mcp.json".to_string())
    );
    assert_eq!(well_known_url("a.b"), None);
    assert_eq!(required_url("a.b"), "https:///.well-known/mcp.json");
    assert_eq!(required_url("https://a.b/x"), "https://a.b/.well-known/mcp.json");
}

#[test]
fn well_known_verdicts() {
    assert!(well_known_found(Some(200)));
    assert!(well_known_found(Some(500)));
    assert!(!well_known_found(Some(404)));
    assert!(!well_known_found(None));
}

#[test]
fn integers_parse_as_std_does() {
    assert_eq!(parse_i64("42"), Some(42));
    assert_eq!(parse_i64("+7"), Some(7));
    assert_eq!(parse_i64("-0012"), Some(-12));
    assert_eq!(parse_i64("-9223372036854775808"), Some(i64::MIN));
    assert_eq!(parse_i64("9223372036854775807"), Some(i64::MAX));
    assert_eq!(parse_i64("9223372036854775808"), None);
    assert_eq!(parse_i64("-9223372036854775809"), None);
    assert_eq!(parse_i64(""), None);
    assert_eq!(parse_i64("-"), None);
    assert_eq!(parse_i64("+-1"), None);
    assert_eq!(parse_i64("1a"), None);
    assert_eq!(parse_i64(" 1"), None);
}

#[test]
fn integers_print_as_std_does() {
    assert_eq!(u64_text(0), "0");
    assert_eq!(u64_text(u64::MAX), u64::MAX.to_string());
    assert_eq!(i64_text(-120), "-120");
    assert_eq!(i64_text(i64::MIN), i64::MIN.to_string());
    for n in [-1000i64, -1, 0, 9, 10, 1_700_000_000] {
        assert_eq!(parse_i64(&i64_text(n)), Some(n));
    }
}

#[test]
fn trimming_and_searching() {
    assert_eq!(trimmed(" \t a b \n"), "a b");
    assert!(contains_text("weather tools", "her t"));
    assert!(contains_text("abc", ""));
    assert!(!contains_text("abc", "abcd"));
    assert!(!contains_text("abc", "ac"));
}

#[test]
fn a_cleaned_url_cleans_to_itself() {
    for raw in ["  https://example.com/path/?q=1#frag ", "https://a.b///", "https://a.b#x?y", "https://a b.c/x?"] {
        let cleaned = sanitize_url(raw).unwrap();
        assert_eq!(sanitize_url(&cleaned), Ok(cleaned.clone()));
    }
    // White space before a cut query is kept once and trimmed the next time.
    assert_eq!(sanitize_url("https://a.b ?x"), Ok("https://a.b ".to_string()));
    assert_eq!(sanitize_url("https://a.b "), Ok("https://a.b".to_string()));
}
