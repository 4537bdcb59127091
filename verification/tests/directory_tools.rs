use mcpub::directory::{
    complete_submit, handle_request, list_all, list_all_live, lookup, search, search_live, Listing, Page, Reply, RpcError,
    RpcRequest, Step, Submission, ToolOutput,
};
use mcpub::json::Json;
use mcpub::store::Endpoint;

fn ep(url: &str, description: &str) -> Endpoint {
    Endpoint { url: url.to_string(), description: description.to_string(), trusted: true, submitted_at: 7 }
}

fn text(s: &str) -> Json {
    Json::Text(s.to_string())
}

fn obj(members: Vec<(&str, Json)>) -> Json {
    Json::Object(members.into_iter().map(|(k, v)| (k.to_string(), v)).collect())
}

fn call(name: &str, args: Vec<(&str, Json)>) -> RpcRequest {
    RpcRequest {
        jsonrpc: "2.0".to_string(),
        method: "tools/call".to_string(),
        params: obj(vec![("name", text(name)), ("arguments", obj(args))]),
    }
}

fn request(method: &str) -> RpcRequest {
    RpcRequest { jsonrpc: "2.0".to_string(), method: method.to_string(), params: Json::Null }
}

fn error(code: i32, message: &str) -> Step {
    Step::Reply(Reply::Error(RpcError { echo_id: true, code, message: message.to_string() }))
}

fn stored() -> Vec<Endpoint> {
    vec![
        ep("https://w.x", "Weather Tools"),
        ep("https://s.t", "Satellite imagery"),
        ep("https://m.n", "weather maps"),
        ep("https://c.d", "Crypto prices"),
    ]
}

/// A spider scan: alive endpoints are trusted, dead ones kept untrusted.
fn scan() -> Vec<Endpoint> {
    let mut dead = ep("https://d.e", "[DEAD] weather station");
    dead.trusted = false;
    vec![ep("https://w.x", "Weather Tools [server: w]"), dead, ep("https://q.r", "Quotes")]
}

fn listing(url: &str, description: &str) -> Listing {
    Listing { url: url.to_string(), description: description.to_string() }
}

#[test]
fn wrong_version_is_refused_with_null_id() {
    let mut req = request("initialize");
    req.jsonrpc = "1.0".to_string();
    assert_eq!(
        handle_request(&req, &stored(), &scan()),
        Step::Reply(Reply::Error(RpcError {
            echo_id: false,
            code: -32600,
            message: "jsonrpc must be \"2.0\"".to_string()
        }))
    );
}

#[test]
fn handshake_methods() {
    assert_eq!(handle_request(&request("initialize"), &stored(), &scan()), Step::Reply(Reply::Initialize));
    assert_eq!(
        handle_request(&request("notifications/initialized"), &stored(), &scan()),
        Step::Reply(Reply::Initialized)
    );
    assert_eq!(handle_request(&request("tools/list"), &stored(), &scan()), Step::Reply(Reply::ToolList(
            ["submit", "search", "list_all", "get", "search_live", "list_all_live"]
                .iter()
                .map(|n| n.to_string())
                .collect()
        )));
}

#[test]
fn unknown_method() {
    assert_eq!(handle_request(&request("ping"), &stored(), &scan()), error(-32601, "method not found: ping"));
}

#[test]
fn tool_call_needs_a_name() {
    assert_eq!(handle_request(&request("tools/call"), &stored(), &scan()), error(-32602, "params.name required"));
    let mut req = call("x", vec![]);
    req.params = obj(vec![("name", Json::Integer(3))]);
    assert_eq!(handle_request(&req, &stored(), &scan()), error(-32602, "params.name required"));
}

#[test]
fn unknown_tool() {
    assert_eq!(handle_request(&call("delete", vec![]), &stored(), &scan()), error(-32601, "unknown tool: delete"));
}

#[test]
fn search_is_case_blind_and_pages() {
    let step = handle_request(&call("search", vec![("query", text("WEATHER"))]), &stored(), &scan());
    assert_eq!(
        step,
        Step::Reply(Reply::Output(ToolOutput::Page(Page {
            total: 2,
            offset: 0,
            limit: 10,
            results: vec![listing("https://w.x", "Weather Tools"), listing("https://m.n", "weather maps")],
        })))
    );
    let step = handle_request(
        &call("search", vec![("query", text("weather")), ("offset", Json::Integer(1)), ("limit", Json::Integer(1))]),
        &stored(),
        &scan(),
    );
    assert_eq!(
        step,
        Step::Reply(Reply::Output(ToolOutput::Page(Page {
            total: 2,
            offset: 1,
            limit: 1,
            results: vec![listing("https://m.n", "weather maps")],
        })))
    );
}

#[test]
fn search_limit_is_capped_and_bad_numbers_default() {
    let out = search(&obj(vec![("arguments", obj(vec![("limit", Json::Integer(500)), ("offset", Json::Integer(-1))]))]), &stored());
    assert_eq!(
        out,
        ToolOutput::Page(Page {
            total: 4,
            offset: 0,
            limit: 50,
            results: stored().iter().map(|e| listing(&e.url, &e.description)).collect(),
        })
    );
    let out = search(&obj(vec![("arguments", obj(vec![("limit", Json::Fraction), ("query", Json::Integer(1))]))]), &stored());
    match out {
        ToolOutput::Page(p) => {
            assert_eq!(p.limit, 10);
            assert_eq!(p.total, 4);
        }
        other => panic!("unexpected {:?}", other),
    }
}

#[test]
fn search_without_query_lists_all() {
    let a = search(&Json::Null, &stored());
    let b = list_all(&obj(vec![("arguments", obj(vec![("limit", Json::Integer(10))]))]), &stored());
    assert_eq!(a, b);
}

#[test]
fn search_past_the_end_is_empty() {
    let out = search(&obj(vec![("arguments", obj(vec![("offset", Json::Integer(9))]))]), &stored());
    assert_eq!(out, ToolOutput::Page(Page { total: 4, offset: 9, limit: 10, results: vec![] }));
}

#[test]
fn list_all_pages_cover_everything_once() {
    let mut seen = Vec::new();
    let mut offset = 0;
    loop {
        let out = list_all(
            &obj(vec![("arguments", obj(vec![("offset", Json::Integer(offset)), ("limit", Json::Integer(3))]))]),
            &stored(),
        );
        let page = match out {
            ToolOutput::Page(p) => p,
            other => panic!("unexpected {:?}", other),
        };
        assert_eq!(page.total, 4);
        assert!(page.results.len() <= 3);
        if page.results.is_empty() {
            break;
        }
        seen.extend(page.results);
        offset += 3;
    }
    let all: Vec<Listing> = stored().iter().map(|e| listing(&e.url, &e.description)).collect();
    assert_eq!(seen, all);
}

#[test]
fn list_all_defaults_and_cap() {
    let out = list_all(&Json::Null, &stored());
    match out {
        ToolOutput::Page(p) => assert_eq!((p.offset, p.limit, p.results.len()), (0, 50, 4)),
        other => panic!("unexpected {:?}", other),
    }
    let out = list_all(&obj(vec![("arguments", obj(vec![("limit", Json::Integer(1000))]))]), &stored());
    match out {
        ToolOutput::Page(p) => assert_eq!(p.limit, 200),
        other => panic!("unexpected {:?}", other),
    }
}

#[test]
fn get_finds_by_trimmed_url() {
    assert_eq!(
        lookup(&stored(), "  https://s.t "),
        ToolOutput::Found { url: "https://s.t".to_string(), description: "Satellite imagery".to_string(), submitted_at: 7 }
    );
    assert_eq!(lookup(&stored(), "https://s.t/"), ToolOutput::NotFound { url: "https://s.t/".to_string() });
    assert_eq!(handle_request(&call("get", vec![]), &stored(), &scan()), error(-32602, "url is required"));
}

#[test]
fn submit_checks_before_the_network() {
    assert_eq!(handle_request(&call("submit", vec![]), &stored(), &scan()), error(-32602, "url is required"));
    assert_eq!(
        handle_request(&call("submit", vec![("url", text("http://a.b"))]), &stored(), &scan()),
        error(-32602, "url must use https://")
    );
    assert_eq!(
        handle_request(&call("submit", vec![("url", text("https://nodot"))]), &stored(), &scan()),
        error(-32602, "invalid domain")
    );
    assert_eq!(
        handle_request(
            &call("submit", vec![("url", text(" https://new.site/mcp/?x=1 ")), ("description", text("New\n\"thing\""))]),
            &stored(),
            &scan()
        ),
        Step::Submit(Submission { url: "https://new.site/mcp".to_string(), description: "New 'thing'".to_string() })
    );
}

#[test]
fn submit_without_well_known_is_refused() {
    let mut eps = stored();
    let reply = complete_submit(
        &mut eps,
        Submission { url: "https://new.site/mcp".to_string(), description: "d".to_string() },
        false,
        99,
    );
    assert_eq!(
        reply,
        Reply::Output(ToolOutput::WellKnownMissing { required_url: "https://new.site/.well-known/mcp.json".to_string() })
    );
    assert_eq!(eps, stored());
}

#[test]
fn submit_then_get_then_resubmit() {
    let mut eps = stored();
    let sub = || Submission { url: "https://new.site".to_string(), description: "fresh".to_string() };
    assert_eq!(complete_submit(&mut eps, sub(), true, 99), Reply::Output(ToolOutput::Registered));
    assert_eq!(eps.len(), 5);
    assert_eq!(
        eps[4],
        Endpoint { url: "https://new.site".to_string(), description: "fresh".to_string(), trusted: false, submitted_at: 99 }
    );
    assert_eq!(
        lookup(&eps, "https://new.site"),
        ToolOutput::Found { url: "https://new.site".to_string(), description: "fresh".to_string(), submitted_at: 99 }
    );
    let again = complete_submit(&mut eps, sub(), true, 100);
    assert_eq!(
        again,
        Reply::Error(RpcError { echo_id: true, code: -32602, message: "url already registered".to_string() })
    );
    assert_eq!(eps.len(), 5);
}

#[test]
fn search_live_sees_only_endpoints_found_alive() {
    let step = handle_request(&call("search_live", vec![("query", text("weather"))]), &stored(), &scan());
    assert_eq!(
        step,
        Step::Reply(Reply::Output(ToolOutput::Page(Page {
            total: 1,
            offset: 0,
            limit: 10,
            results: vec![listing("https://w.x", "Weather Tools [server: w]")],
        })))
    );
    let out = search_live(&obj(vec![]), &scan());
    assert_eq!(
        out,
        ToolOutput::Page(Page {
            total: 2,
            offset: 0,
            limit: 10,
            results: vec![listing("https://w.x", "Weather Tools [server: w]"), listing("https://q.r", "Quotes")],
        })
    );
}

#[test]
fn list_all_live_pages_the_alive_endpoints() {
    let step = handle_request(
        &call("list_all_live", vec![("offset", Json::Integer(1)), ("limit", Json::Integer(500))]),
        &stored(),
        &scan(),
    );
    assert_eq!(
        step,
        Step::Reply(Reply::Output(ToolOutput::Page(Page {
            total: 2,
            offset: 1,
            limit: 200,
            results: vec![listing("https://q.r", "Quotes")],
        })))
    );
    assert_eq!(
        list_all_live(&obj(vec![]), &vec![]),
        ToolOutput::Page(Page { total: 0, offset: 0, limit: 50, results: vec![] })
    );
}

#[test]
fn a_registered_endpoint_is_found_by_search() {
    let mut eps = stored();
    let reply = complete_submit(
        &mut eps,
        Submission { url: "https://new.site".to_string(), description: "Tide tables".to_string() },
        true,
        99,
    );
    assert_eq!(reply, Reply::Output(ToolOutput::Registered));
    assert_eq!(
        search(&obj(vec![("arguments", obj(vec![("query", text("TIDE"))]))]), &eps),
        ToolOutput::Page(Page { total: 1, offset: 0, limit: 10, results: vec![listing("https://new.site", "Tide tables")] })
    );
}
