use mcpub::clock::{now_unix, timestamp};
use mcpub::store::{endpoint_from_fields, endpoint_rows, load_endpoints, save_endpoints, Endpoint};

fn ep(url: &str, description: &str, trusted: bool, submitted_at: i64) -> Endpoint {
    Endpoint {
        url: url.to_string(),
        description: description.to_string(),
        trusted,
        submitted_at,
    }
}

#[test]
fn load_reads_records_after_the_header() {
    let text = "url,description,trusted,submitted_at\n\
                https://a.b,Weather tools,1,1700000000\n\
                 https://c.d , spaced ,0, 12 \n\
                https://e.f,short\n\
                ,no url,1,5\n\
                https://g.h,bad time,yes,soon\n";
    let eps = load_endpoints(text.as_bytes());
    assert_eq!(
        eps,
        vec![
            ep("https://a.b", "Weather tools", true, 1700000000),
            ep("https://c.d", "spaced", false, 12),
            ep("https://g.h", "bad time", false, 0),
        ]
    );
}

#[test]
fn load_of_empty_text_is_empty() {
    assert_eq!(load_endpoints(b""), vec![]);
    assert_eq!(load_endpoints(b"url,description,trusted,submitted_at\n"), vec![]);
}

#[test]
fn load_reads_quoted_fields_and_extra_columns() {
    let text = "url,description,trusted,submitted_at\nhttps://a.b,\"x, y\",1,3,extra\n";
    assert_eq!(load_endpoints(text.as_bytes()), vec![ep("https://a.b", "x, y", true, 3)]);
}

#[test]
fn save_writes_header_and_rows() {
    let eps = vec![
        ep("https://a.b", "desc, with comma", true, 5),
        ep("https://c.d", "it's 'quoted'", false, -3),
    ];
    let bytes = save_endpoints(&eps);
    assert_eq!(
        String::from_utf8(bytes).unwrap(),
        "url,description,trusted,submitted_at\n\
         https://a.b,\"desc, with comma\",1,5\n\
         https://c.d,it's 'quoted',0,-3\n"
    );
}

#[test]
fn save_of_nothing_is_the_header() {
    let bytes = save_endpoints(&vec![]);
    assert_eq!(String::from_utf8(bytes).unwrap(), "url,description,trusted,submitted_at\n");
}

#[test]
fn save_then_load_round_trips() {
    let eps = vec![
        ep("https://a.b", "Weather, maps and \"news\"", true, 1700000000),
        ep("https://c.d", "", false, 0),
        ep("https://e.f/mcp", "line one  two", false, i64::MIN),
    ];
    let bytes = save_endpoints(&eps);
    assert_eq!(load_endpoints(&bytes), eps);
}

#[test]
fn rows_of_endpoints() {
    let rows = endpoint_rows(&vec![ep("https://a.b", "d", false, 42)]);
    assert_eq!(rows, vec![vec!["https://a.b".to_string(), "d".to_string(), "0".to_string(), "42".to_string()]]);
}

#[test]
fn fields_to_endpoint() {
    let f = |v: &[&str]| v.iter().map(|s| s.to_string()).collect::<Vec<String>>();
    assert_eq!(endpoint_from_fields(&f(&["u", "d", "1", "-5"])), Some(ep("u", "d", true, -5)));
    assert_eq!(endpoint_from_fields(&f(&[" ", "d", "1", "5"])), None);
    assert_eq!(endpoint_from_fields(&f(&["u", "d", "1"])), None);
}

#[test]
fn clock_reads_seconds() {
    assert!(now_unix() > 1_600_000_000);
    assert_eq!(timestamp(None), 0);
    assert_eq!(timestamp(Some(5)), 5);
    assert_eq!(timestamp(Some(u64::MAX)), -1);
}

#[test]
fn save_then_load_keeps_line_breaks_and_quotes_inside_fields() {
    let eps = vec![
        ep("https://a.b", "first\r\nsecond \"quoted\", third", false, -5),
        ep("https://c.d/x,y", "\u{e9}t\u{e9}", true, 7),
    ];
    assert_eq!(load_endpoints(&save_endpoints(&eps)), eps);
}

#[test]
fn load_skips_a_byte_order_mark_before_the_header() {
    let text = "\u{feff}url,description,trusted,submitted_at\nhttps://a.b,d,1,2\n";
    assert_eq!(load_endpoints(text.as_bytes()), vec![ep("https://a.b", "d", true, 2)]);
}
