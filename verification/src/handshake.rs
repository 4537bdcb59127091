use vstd::prelude::*;
use crate::json::{get_text, json_get, Json};
use crate::number::{decimal, decimal_int, i64_text, u64_text};
use crate::sanitize::http_scheme;
use crate::text::{
    before_char, chars_of, find_char_from, has_prefix, push_str, starts_with, string_of,
    trim_start_str,
};

verus! {

// ---------------------------------------------------------------------------
// Exchanges with an endpoint
// ---------------------------------------------------------------------------

/// A JSON-RPC response from a probed endpoint.
#[derive(Debug, PartialEq, Eq)]
pub struct RpcReply {
    pub result: Option<Json>,
    pub error: Option<RpcFault>,
}

#[derive(Debug, PartialEq, Eq)]
pub struct RpcFault {
    pub code: i32,
    pub message: String,
}

/// How an HTTP request to a probed endpoint went. The body is read, into a
/// value of type `B` or an error message, only after a success status.
#[derive(Debug, PartialEq, Eq)]
pub enum Exchange<B> {
    TimedOut,
    /// The request could not be sent; the error's text.
    SendFailed(String),
    Answered {
        status: u16,
        /// The status's canonical reason phrase, where it has one.
        reason: Option<String>,
        /// The `mcp-session-id` header, where present and readable.
        session_id: Option<String>,
        body: Option<Result<B, String>>,
    },
}

/// 2xx.
pub open spec fn is_success(status: u16) -> bool {
    200 <= status < 300
}

pub fn http_success(status: u16) -> (b: bool)
    ensures
        b == is_success(status),
{
    200 <= status && status < 300
}

/// How a status reads: its number and its reason phrase.
pub open spec fn status_line(status: u16, reason: Option<Seq<char>>) -> Seq<char> {
    decimal(status as nat) + " "@ + match reason {
        Some(r) => r,
        None => "<unknown status code>"@,
    }
}

pub open spec fn opt_text(o: Option<String>) -> Option<Seq<char>> {
    match o {
        Some(s) => Some(s@),
        None => None,
    }
}

fn status_text(status: u16, reason: &Option<String>) -> (s: String)
    ensures
        s@ == status_line(status, opt_text(*reason)),
{
    let mut s = u64_text(status as u64);
    push_str(&mut s, " ");
    match reason {
        Some(r) => push_str(&mut s, r.as_str()),
        None => push_str(&mut s, "<unknown status code>"),
    }
    s
}

// ---------------------------------------------------------------------------
// initialize
// ---------------------------------------------------------------------------

/// What a successful `initialize` handshake reports.
#[derive(Debug, PartialEq, Eq)]
pub struct InitOk {
    pub protocol_version: String,
    pub server_name: String,
    pub session_id: Option<String>,
}

pub ghost struct InitView {
    pub protocol_version: Seq<char>,
    pub server_name: Seq<char>,
    pub session_id: Option<Seq<char>>,
}

impl View for InitOk {
    type V = InitView;

    open spec fn view(&self) -> InitView {
        InitView {
            protocol_version: self.protocol_version@,
            server_name: self.server_name@,
            session_id: opt_text(self.session_id),
        }
    }
}

/// The value at a path of object keys (a JSON pointer with plain keys).
pub open spec fn json_path(j: Json, keys: Seq<Seq<char>>) -> Option<Json>
    decreases keys.len(),
{
    if keys.len() == 0 {
        Some(j)
    } else {
        match json_get(j, keys[0]) {
            Some(v) => json_path(v, keys.drop_first()),
            None => None,
        }
    }
}

pub open spec fn path_text(j: Json, keys: Seq<Seq<char>>) -> Option<Seq<char>> {
    match json_path(j, keys) {
        Some(Json::Text(s)) => Some(s@),
        _ => None,
    }
}

/// What an `initialize` exchange yields: the reported protocol version and
/// server name with the session id, or the reason it failed.
pub open spec fn initialize_view(ex: Exchange<RpcReply>) -> Result<InitView, Seq<char>> {
    match ex {
        Exchange::TimedOut => Err("timeout"@),
        Exchange::SendFailed(e) => Err(e@),
        Exchange::Answered { status, reason, session_id, body } => if !is_success(status) {
            Err("HTTP "@ + status_line(status, opt_text(reason)))
        } else {
            match body {
                Some(Ok(rpc)) => match rpc.error {
                    Some(f) => Err("RPC "@ + decimal_int(f.code as int) + ": "@ + f.message@),
                    None => match rpc.result {
                        None => Err("missing result"@),
                        Some(r) => match get_text(r, "protocolVersion"@) {
                            None => Err("missing protocolVersion"@),
                            Some(v) => Ok(
                                InitView {
                                    protocol_version: v,
                                    server_name: match path_text(r, seq!["serverInfo"@, "name"@]) {
                                        Some(n) => n,
                                        None => Seq::empty(),
                                    },
                                    session_id: opt_text(session_id),
                                },
                            ),
                        },
                    },
                },
                Some(Err(e)) => Err("JSON: "@ + e@),
                // A success whose body was never read: no reason to give.
                None => Err(Seq::empty()),
            }
        },
    }
}

pub open spec fn init_result_view(r: Result<InitOk, String>) -> Result<InitView, Seq<char>> {
    match r {
        Ok(i) => Ok(i@),
        Err(e) => Err(e@),
    }
}

fn text_at_path(j: &Json, first: &str, second: &str) -> (r: Option<String>)
    ensures
        match r {
            Some(s) => path_text(*j, seq![first@, second@]) == Some(s@),
            None => path_text(*j, seq![first@, second@]) is None,
        },
{
    proof {
        reveal_with_fuel(json_path, 3);
        assert(seq![first@, second@].drop_first() == seq![second@]);
        assert(seq![second@].drop_first() == Seq::<Seq<char>>::empty());
    }
    match j.get(first) {
        Some(inner) => inner.text_at(second),
        None => None,
    }
}

/// Interprets the answer to an `initialize` request.
pub fn initialize_outcome(ex: Exchange<RpcReply>) -> (r: Result<InitOk, String>)
    ensures
        init_result_view(r) == initialize_view(ex),
{
    match ex {
        Exchange::TimedOut => Err("timeout".to_owned()),
        Exchange::SendFailed(e) => Err(e),
        Exchange::Answered { status, reason, session_id, body } => {
            if !http_success(status) {
                let mut e = "HTTP ".to_owned();
                let line = status_text(status, &reason);
                push_str(&mut e, line.as_str());
                return Err(e);
            }
            let rpc = match body {
                Some(Ok(rpc)) => rpc,
                Some(Err(e)) => {
                    let mut m = "JSON: ".to_owned();
                    push_str(&mut m, e.as_str());
                    return Err(m);
                },
                None => {
                    return Err(String::new());
                },
            };
            if let Some(f) = rpc.error {
                let mut m = "RPC ".to_owned();
                push_str(&mut m, i64_text(f.code as i64).as_str());
                push_str(&mut m, ": ");
                push_str(&mut m, f.message.as_str());
                return Err(m);
            }
            let result = match rpc.result {
                Some(r) => r,
                None => {
                    return Err("missing result".to_owned());
                },
            };
            let protocol_version = match result.text_at("protocolVersion") {
                Some(v) => v,
                None => {
                    return Err("missing protocolVersion".to_owned());
                },
            };
            let server_name = match text_at_path(&result, "serverInfo", "name") {
                Some(n) => n,
                None => String::new(),
            };
            Ok(InitOk { protocol_version, server_name, session_id })
        },
    }
}

// ---------------------------------------------------------------------------
// tools/list
// ---------------------------------------------------------------------------

/// The names of the tools in a `tools` array: the `name` of each item that
/// has a text one, in order.
pub open spec fn tool_names(items: Seq<Json>) -> Seq<Seq<char>>
    decreases items.len(),
{
    if items.len() == 0 {
        Seq::empty()
    } else {
        match get_text(items.last(), "name"@) {
            Some(n) => tool_names(items.drop_last()).push(n),
            None => tool_names(items.drop_last()),
        }
    }
}

/// What a `tools/list` exchange yields: the tool names, or nothing where it
/// failed in any way.
pub open spec fn tools_view(ex: Exchange<RpcReply>) -> Option<Seq<Seq<char>>> {
    match ex {
        Exchange::Answered { status, body: Some(Ok(rpc)), .. } => if !is_success(status) {
            None
        } else {
            match rpc.result {
                Some(r) => match json_get(r, "tools"@) {
                    Some(Json::Array(items)) => Some(tool_names(items@)),
                    _ => None,
                },
                None => None,
            }
        },
        _ => None,
    }
}

pub open spec fn names_view(o: Option<Vec<String>>) -> Option<Seq<Seq<char>>> {
    match o {
        Some(v) => Some(v.deep_view()),
        None => None,
    }
}

fn names_of(items: &Vec<Json>) -> (names: Vec<String>)
    ensures
        names.deep_view() == tool_names(items@),
{
    let mut names: Vec<String> = Vec::new();
    let mut i: usize = 0;
    while i < items.len()
        invariant
            0 <= i <= items.len(),
            names.deep_view() == tool_names(items@.take(i as int)),
        decreases items.len() - i,
    {
        assert(items@.take(i + 1).drop_last() == items@.take(i as int));
        match items[i].text_at("name") {
            Some(n) => {
                names.push(n);
            },
            None => {},
        }
        assert(names.deep_view() =~= tool_names(items@.take(i + 1)));
        i = i + 1;
    }
    assert(items@.take(items.len() as int) == items@);
    names
}

/// Interprets the answer to a `tools/list` request.
pub fn tools_outcome(ex: Exchange<RpcReply>) -> (tools: Option<Vec<String>>)
    ensures
        names_view(tools) == tools_view(ex),
{
    match ex {
        Exchange::Answered { status, body: Some(Ok(rpc)), .. } => {
            if !http_success(status) {
                return None;
            }
            match rpc.result {
                Some(r) => match r.get("tools") {
                    Some(Json::Array(items)) => Some(names_of(items)),
                    _ => None,
                },
                None => None,
            }
        },
        _ => None,
    }
}

// ---------------------------------------------------------------------------
// Well-known discovery
// ---------------------------------------------------------------------------

/// The well-known document that is asked for a base url: on the same scheme
/// (`http` where the url starts with `http://`, else `https`) and host, the
/// host being what follows any leading `https://` and then `http://`
/// prefixes, up to the first `/`.
pub open spec fn discovery_url(base: Seq<char>) -> Seq<char> {
    let stripped = trim_start_str(trim_start_str(base, "https://"@), http_scheme());
    let scheme = if starts_with(base, http_scheme()) {
        "http"@
    } else {
        "https"@
    };
    scheme + "://"@ + before_char(stripped, '/') + "/.well-known/mcp.json"@
}

/// Index past every leading copy of `p` in `v[from..]`.
fn skip_prefixes(v: &Vec<char>, from: usize, p: &Vec<char>) -> (k: usize)
    requires
        from <= v.len(),
        p.len() > 0,
    ensures
        from <= k <= v.len(),
        v@.skip(k as int) == trim_start_str(v@.skip(from as int), p@),
    decreases v.len() - from,
{
    let rest = chars_of(string_of(v, from, v.len()).as_str());
    assert(rest@ == v@.skip(from as int));
    if has_prefix(&rest, p) {
        assert(v@.skip(from as int).skip(p@.len() as int) == v@.skip(from + p.len()));
        skip_prefixes(v, from + p.len(), p)
    } else {
        from
    }
}

/// The address of the well-known document for a base url.
pub fn well_known_discovery_url(base_url: &str) -> (url: String)
    ensures
        url@ == discovery_url(base_url@),
{
    let v = chars_of(base_url);
    let https = chars_of("https://");
    let http = chars_of("http://");
    proof {
        reveal_strlit("https://");
        reveal_strlit("http://");
    }
    let a = skip_prefixes(&v, 0, &https);
    assert(v@.skip(0) == v@);
    let b = skip_prefixes(&v, a, &http);
    let end = find_char_from(&v, b, '/');
    let mut url = if has_prefix(&v, &http) {
        "http".to_owned()
    } else {
        "https".to_owned()
    };
    push_str(&mut url, "://");
    let host = string_of(&v, b, end);
    proof {
        assert(v@.skip(b as int).take(end - b) == v@.subrange(b as int, end as int));
    }
    push_str(&mut url, host.as_str());
    push_str(&mut url, "/.well-known/mcp.json");
    url
}

/// Where a well-known document points: the first of
/// `/server/endpoints/streamable-http`, `/endpoints/streamable-http` and
/// `/url` that is present, taken where it is text.
pub open spec fn advertised_endpoint(doc: Json) -> Option<Seq<char>> {
    let a = json_path(doc, seq!["server"@, "endpoints"@, "streamable-http"@]);
    let b = json_path(doc, seq!["endpoints"@, "streamable-http"@]);
    let c = json_path(doc, seq!["url"@]);
    let first = if a is Some {
        a
    } else if b is Some {
        b
    } else {
        c
    };
    match first {
        Some(Json::Text(s)) => Some(s@),
        _ => None,
    }
}

fn at_path<'a>(j: &'a Json, keys: &Vec<&str>) -> (r: Option<&'a Json>)
    ensures
        match r {
            Some(v) => json_path(*j, keys@.map_values(|k: &str| k@)) == Some(*v),
            None => json_path(*j, keys@.map_values(|k: &str| k@)) is None,
        },
{
    let ghost ks = keys@.map_values(|k: &str| k@);
    let mut cur: &Json = j;
    assert(ks.skip(0) == ks);
    let mut i: usize = 0;
    while i < keys.len()
        invariant
            0 <= i <= keys.len(),
            ks == keys@.map_values(|k: &str| k@),
            json_path(*j, ks) == json_path(*cur, ks.skip(i as int)),
        decreases keys.len() - i,
    {
        assert(ks.skip(i as int)[0] == keys@[i as int]@);
        assert(ks.skip(i as int).drop_first() == ks.skip(i + 1));
        match cur.get(keys[i]) {
            Some(next) => {
                cur = next;
            },
            None => {
                return None;
            },
        }
        i = i + 1;
    }
    assert(ks.skip(keys.len() as int) == Seq::<Seq<char>>::empty());
    Some(cur)
}

/// The endpoint that a well-known document advertises.
pub fn endpoint_from_well_known(doc: &Json) -> (r: Option<String>)
    ensures
        opt_text(r) == advertised_endpoint(*doc),
{
    let mut a: Vec<&str> = Vec::new();
    a.push("server");
    a.push("endpoints");
    a.push("streamable-http");
    let mut b: Vec<&str> = Vec::new();
    b.push("endpoints");
    b.push("streamable-http");
    let mut c: Vec<&str> = Vec::new();
    c.push("url");
    assert(a@.map_values(|k: &str| k@) =~= seq!["server"@, "endpoints"@, "streamable-http"@]);
    assert(b@.map_values(|k: &str| k@) =~= seq!["endpoints"@, "streamable-http"@]);
    assert(c@.map_values(|k: &str| k@) =~= seq!["url"@]);
    let first = match at_path(doc, &a) {
        Some(v) => Some(v),
        None => match at_path(doc, &b) {
            Some(v) => Some(v),
            None => at_path(doc, &c),
        },
    };
    match first {
        Some(v) => match v.as_str() {
            Some(s) => Some(s.clone()),
            None => None,
        },
        None => None,
    }
}

/// What the well-known exchange yields: the advertised endpoint, or
/// nothing where the request failed, the status was no success or the body
/// was no JSON.
pub open spec fn discovered_view(ex: Exchange<Json>) -> Option<Seq<char>> {
    match ex {
        Exchange::Answered { status, body: Some(Ok(doc)), .. } => if is_success(status) {
            advertised_endpoint(doc)
        } else {
            None
        },
        _ => None,
    }
}

/// Interprets the answer to the well-known request.
pub fn discovered_endpoint(ex: &Exchange<Json>) -> (r: Option<String>)
    ensures
        opt_text(r) == discovered_view(*ex),
{
    match ex {
        Exchange::Answered { status, body: Some(Ok(doc)), .. } => {
            if http_success(*status) {
                endpoint_from_well_known(doc)
            } else {
                None
            }
        },
        _ => None,
    }
}

} // verus!
