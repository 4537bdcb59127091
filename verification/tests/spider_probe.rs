use mcpub::handshake::{
    discovered_endpoint, endpoint_from_well_known, http_success, initialize_outcome, tools_outcome,
    well_known_discovery_url, Exchange, InitOk, RpcFault, RpcReply,
};
use mcpub::json::Json;
use mcpub::probe::{candidates, ProbeAction, ProbeEvent, ProbeResult, Prober};
use mcpub::retry::{backoff, Retry, RetryStep};
use mcpub::spider::{build_description, output_record, skip_dead, write_records, InputRecord, McpubRecord};

fn text(s: &str) -> Json {
    Json::Text(s.to_string())
}

fn obj(members: Vec<(&str, Json)>) -> Json {
    Json::Object(members.into_iter().map(|(k, v)| (k.to_string(), v)).collect())
}

fn strings(v: &[&str]) -> Vec<String> {
    v.iter().map(|s| s.to_string()).collect()
}

fn record(url: &str, extra: Vec<(&str, Json)>) -> InputRecord {
    InputRecord { url: url.to_string(), extra: extra.into_iter().map(|(k, v)| (k.to_string(), v)).collect() }
}

fn init(pv: &str, name: &str, sid: Option<&str>) -> InitOk {
    InitOk { protocol_version: pv.to_string(), server_name: name.to_string(), session_id: sid.map(|s| s.to_string()) }
}

fn answered<B>(status: u16, reason: Option<&str>, body: Option<Result<B, String>>) -> Exchange<B> {
    Exchange::Answered { status, reason: reason.map(|s| s.to_string()), session_id: None, body }
}

fn alive(tools: Option<Vec<String>>) -> ProbeResult {
    ProbeResult {
        url: "https://a.b".to_string(),
        alive: true,
        server_name: "srv".to_string(),
        tools,
        error: None,
        latency_ms: 42,
        protocol_version: "2025-03-26".to_string(),
        session_id: None,
    }
}

fn dead(error: Option<&str>) -> ProbeResult {
    ProbeResult {
        url: "https://a.b".to_string(),
        alive: false,
        server_name: String::new(),
        tools: None,
        error: error.map(|s| s.to_string()),
        latency_ms: 9,
        protocol_version: String::new(),
        session_id: None,
    }
}

#[test]
fn dead_marks() {
    assert!(record("u", vec![("alive", text("0"))]).is_marked_dead());
    assert!(!record("u", vec![("alive", text("1"))]).is_marked_dead());
    assert!(!record("u", vec![("alive", Json::Integer(0))]).is_marked_dead());
    assert!(!record("u", vec![]).is_marked_dead());
}

#[test]
fn skipping_dead_records_keeps_order() {
    let rs = vec![
        record("a", vec![("alive", text("0"))]),
        record("b", vec![]),
        record("c", vec![("alive", text("1"))]),
        record("d", vec![("alive", text("0"))]),
    ];
    let live = skip_dead(rs);
    let urls: Vec<&str> = live.iter().map(|r| r.url.as_str()).collect();
    assert_eq!(urls, vec!["b", "c"]);
}

#[test]
fn description_of_a_deep_probe() {
    let tools = strings(&["a", "b", "c", "d", "e", "f", "g"]);
    assert_eq!(
        build_description("Weather", &alive(Some(tools))),
        "Weather [server: srv | latency: 42ms | protocol: 2025-03-26 | tools: 7 | first: a, b, c, d, e, f]"
    );
}

#[test]
fn description_without_original_or_tools() {
    let mut p = alive(Some(vec![]));
    p.server_name = String::new();
    assert_eq!(build_description("", &p), "[latency: 42ms | protocol: 2025-03-26]");
    assert_eq!(build_description("", &alive(None)), "[server: srv | latency: 42ms | protocol: 2025-03-26]");
}

#[test]
fn output_rows() {
    let rec = record("https://a.b", vec![("description", text("Maps"))]);
    assert_eq!(
        output_record(&rec, &alive(None), false),
        Some(McpubRecord {
            url: "https://a.b".to_string(),
            description: "Maps [server: srv | latency: 42ms | protocol: 2025-03-26]".to_string(),
            trusted: "1".to_string(),
            submitted_at: "0".to_string(),
        })
    );
    assert_eq!(output_record(&rec, &dead(Some("timeout")), false), None);
    assert_eq!(
        output_record(&rec, &dead(Some("timeout")), true).map(|r| (r.description, r.trusted)),
        Some(("[DEAD] Maps".to_string(), "0".to_string()))
    );
    let bare = record("https://a.b", vec![]);
    assert_eq!(
        output_record(&bare, &dead(Some("timeout")), true).map(|r| r.description),
        Some("[DEAD] timeout".to_string())
    );
    assert_eq!(output_record(&bare, &dead(None), true).map(|r| r.description), Some("[DEAD] ".to_string()));
}

#[test]
fn output_file() {
    assert!(write_records(&vec![]).is_empty());
    let rec = McpubRecord {
        url: "https://a.b".to_string(),
        description: "x \"y\"".to_string(),
        trusted: "1".to_string(),
        submitted_at: "0".to_string(),
    };
    assert_eq!(
        String::from_utf8(write_records(&vec![rec])).unwrap(),
        "url,description,trusted,submitted_at\nhttps://a.b,\"x \"\"y\"\"\",1,0\n"
    );
}

#[test]
fn discovery_addresses() {
    assert_eq!(well_known_discovery_url("https://a.b/mcp"), "https://a.b/.well-known/mcp.json");
    assert_eq!(well_known_discovery_url("http://h.i/p/q"), "http://h.i/.well-known/mcp.json");
    assert_eq!(well_known_discovery_url("https://https://x.y/a"), "https://x.y/.well-known/mcp.json");
    assert_eq!(well_known_discovery_url("x.y"), "https://x.y/.well-known/mcp.json");
}

#[test]
fn advertised_endpoints() {
    let doc = obj(vec![("server", obj(vec![("endpoints", obj(vec![("streamable-http", text("https://s/e"))]))])), ("url", text("https://u"))]);
    assert_eq!(endpoint_from_well_known(&doc), Some("https://s/e".to_string()));
    let doc = obj(vec![("endpoints", obj(vec![("streamable-http", text("https://e"))])), ("url", text("https://u"))]);
    assert_eq!(endpoint_from_well_known(&doc), Some("https://e".to_string()));
    let doc = obj(vec![("url", text("https://u"))]);
    assert_eq!(endpoint_from_well_known(&doc), Some("https://u".to_string()));
    let doc = obj(vec![("endpoints", obj(vec![("streamable-http", Json::Integer(1))])), ("url", text("https://u"))]);
    assert_eq!(endpoint_from_well_known(&doc), None);
    assert_eq!(endpoint_from_well_known(&Json::Array(vec![])), None);
    assert_eq!(discovered_endpoint(&answered(404, Some("Not Found"), None)), None);
    assert_eq!(discovered_endpoint(&answered(200, Some("OK"), Some(Ok(obj(vec![("url", text("https://u"))]))))), Some("https://u".to_string()));
    assert_eq!(discovered_endpoint(&Exchange::TimedOut), None);
}

#[test]
fn initialize_answers() {
    assert!(http_success(204) && !http_success(300) && !http_success(199));
    assert_eq!(initialize_outcome(Exchange::TimedOut), Err("timeout".to_string()));
    assert_eq!(initialize_outcome(Exchange::SendFailed("refused".to_string())), Err("refused".to_string()));
    assert_eq!(
        initialize_outcome(answered(500, Some("Internal Server Error"), None)),
        Err("HTTP 500 Internal Server Error".to_string())
    );
    assert_eq!(initialize_outcome(answered(599, None, None)), Err("HTTP 599 <unknown status code>".to_string()));
    assert_eq!(initialize_outcome(answered(200, Some("OK"), Some(Err("eof".to_string())))), Err("JSON: eof".to_string()));
    let fault = RpcReply { result: None, error: Some(RpcFault { code: -32601, message: "nope".to_string() }) };
    assert_eq!(initialize_outcome(answered(200, Some("OK"), Some(Ok(fault)))), Err("RPC -32601: nope".to_string()));
    let empty = RpcReply { result: None, error: None };
    assert_eq!(initialize_outcome(answered(200, Some("OK"), Some(Ok(empty)))), Err("missing result".to_string()));
    let no_version = RpcReply { result: Some(obj(vec![("protocolVersion", Json::Integer(1))])), error: None };
    assert_eq!(
        initialize_outcome(answered(200, Some("OK"), Some(Ok(no_version)))),
        Err("missing protocolVersion".to_string())
    );
    let good = RpcReply {
        result: Some(obj(vec![("protocolVersion", text("2025-03-26")), ("serverInfo", obj(vec![("name", text("srv"))]))])),
        error: None,
    };
    let ex = Exchange::Answered { status: 200, reason: Some("OK".to_string()), session_id: Some("s1".to_string()), body: Some(Ok(good)) };
    assert_eq!(initialize_outcome(ex), Ok(init("2025-03-26", "srv", Some("s1"))));
    let nameless = RpcReply { result: Some(obj(vec![("protocolVersion", text("v"))])), error: None };
    assert_eq!(initialize_outcome(answered(200, None, Some(Ok(nameless)))), Ok(init("v", "", None)));
}

#[test]
fn tools_answers() {
    let reply = RpcReply {
        result: Some(obj(vec![(
            "tools",
            Json::Array(vec![obj(vec![("name", text("search"))]), obj(vec![("title", text("x"))]), obj(vec![("name", text("get"))])]),
        )])),
        error: None,
    };
    assert_eq!(tools_outcome(answered(200, Some("OK"), Some(Ok(reply)))), Some(strings(&["search", "get"])));
    assert_eq!(tools_outcome(answered(200, Some("OK"), Some(Ok(RpcReply { result: Some(obj(vec![])), error: None })))), None);
    assert_eq!(tools_outcome(answered::<RpcReply>(403, Some("Forbidden"), None)), None);
    assert_eq!(tools_outcome(Exchange::TimedOut), None);
}

#[test]
fn retries_back_off_then_give_up() {
    assert_eq!(backoff(0), 100);
    assert_eq!(backoff(3), 800);
    let mut r = Retry::new(3);
    assert_eq!(r.record::<u8>(Err("a".to_string())), RetryStep::Wait { millis: 100 });
    assert_eq!(r.record::<u8>(Err("b".to_string())), RetryStep::Wait { millis: 200 });
    assert_eq!(r.record::<u8>(Err("c".to_string())), RetryStep::Finished(Err("c".to_string())));
    let mut r = Retry::new(0);
    assert_eq!(r.record::<u8>(Err("x".to_string())), RetryStep::Finished(Err("x".to_string())));
    let mut r = Retry::new(2);
    assert_eq!(r.record::<u8>(Err("x".to_string())), RetryStep::Wait { millis: 100 });
    assert_eq!(r.record(Ok(5u8)), RetryStep::Finished(Ok(5)));
}

#[test]
fn large_retry_limits_run_until_the_pause_would_overflow() {
    let mut r = Retry::new(1000);
    assert!(!r.failure_overflows());
    assert_eq!(r.record(Ok(1u8)), RetryStep::Finished(Ok(1)));
    let mut r = Retry { max_attempts: 1000, attempt: 57 };
    assert!(!r.failure_overflows());
    assert_eq!(r.record::<u8>(Err("e".to_string())), RetryStep::Wait { millis: 14_411_518_807_585_587_200 });
    assert_eq!(r.attempt, 58);
    assert!(r.failure_overflows());
    assert_eq!(r.record(Ok(2u8)), RetryStep::Finished(Ok(2)));
    let r = Retry { max_attempts: 59, attempt: 58 };
    assert!(!r.failure_overflows());
}

#[test]
fn candidate_order() {
    assert_eq!(
        candidates("https://a.b//", Some("https://a.b/mcp".to_string())),
        strings(&["https://a.b/mcp", "https://a.b", "https://a.b/sse", "https://a.b/api/mcp", "https://a.b/v1/mcp"])
    );
    assert_eq!(
        candidates("https://a.b", None),
        strings(&["https://a.b/mcp", "https://a.b", "https://a.b/sse", "https://a.b/api/mcp", "https://a.b/v1/mcp"])
    );
}

#[test]
fn probe_of_a_dead_endpoint() {
    let mut p = Prober::new("https://a.b/", None, false);
    let mut tried = Vec::new();
    let mut action = p.step(ProbeEvent::Start { elapsed_ms: 0 });
    loop {
        match action {
            ProbeAction::Initialize { url } => {
                tried.push(url.clone());
                action = p.step(ProbeEvent::Initialized { outcome: Err(format!("fail {}", url)), elapsed_ms: 5 });
            }
            ProbeAction::Done(result) => {
                assert!(!result.alive);
                assert_eq!(result.url, "https://a.b/");
                assert_eq!(result.error, Some("fail https://a.b/v1/mcp".to_string()));
                assert_eq!(result.latency_ms, 5);
                break;
            }
            other => panic!("unexpected {:?}", other),
        }
    }
    assert_eq!(tried.len(), 5);
}

#[test]
fn deep_probe_of_a_live_endpoint() {
    let mut p = Prober::new("https://a.b", Some("https://a.b/x".to_string()), true);
    assert_eq!(p.step(ProbeEvent::Start { elapsed_ms: 0 }), ProbeAction::Initialize { url: "https://a.b/x".to_string() });
    assert_eq!(
        p.step(ProbeEvent::Initialized { outcome: Err("timeout".to_string()), elapsed_ms: 3 }),
        ProbeAction::Initialize { url: "https://a.b/mcp".to_string() }
    );
    assert_eq!(
        p.step(ProbeEvent::Initialized { outcome: Ok(init("v", "srv", Some("s"))), elapsed_ms: 8 }),
        ProbeAction::FetchTools { url: "https://a.b/mcp".to_string(), session_id: Some("s".to_string()) }
    );
    let done = p.step(ProbeEvent::ToolsListed { tools: Some(strings(&["t"])) });
    assert_eq!(
        done,
        ProbeAction::Done(ProbeResult {
            url: "https://a.b".to_string(),
            alive: true,
            server_name: "srv".to_string(),
            tools: Some(strings(&["t"])),
            error: None,
            latency_ms: 8,
            protocol_version: "v".to_string(),
            session_id: Some("s".to_string()),
        })
    );
}
