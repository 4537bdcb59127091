use vstd::prelude::*;
use crate::json::{get_text, get_u64, json_get, Json};
use crate::sanitize::{
    description_of, required_url, required_well_known_url, sanitize_description, sanitize_url,
    url_verdict,
};
use crate::store::{Endpoint, EndpointView};
use crate::text::{contains_text, has_substring, is_text, push_str, to_lowercase, trim, trimmed, unicode_lowercase};

verus! {

// ---------------------------------------------------------------------------
// Requests and replies
// ---------------------------------------------------------------------------

/// A JSON-RPC 2.0 request to the directory. Its `id` is not read by the
/// logic: a reply says whether it is echoed.
#[derive(Debug, PartialEq, Eq)]
pub struct RpcRequest {
    pub jsonrpc: String,
    pub method: String,
    /// `Json::Null` where the request has no params.
    pub params: Json,
}

/// One endpoint in a page of results.
#[derive(Debug, PartialEq, Eq)]
pub struct Listing {
    pub url: String,
    pub description: String,
}

/// A page of `search` or `list_all` results.
#[derive(Debug, PartialEq, Eq)]
pub struct Page {
    /// How many endpoints matched, over all pages.
    pub total: usize,
    pub offset: usize,
    pub limit: usize,
    pub results: Vec<Listing>,
}

/// What a tool call returns as its text content.
#[derive(Debug, PartialEq, Eq)]
pub enum ToolOutput {
    /// The submitted domain does not serve the well-known file.
    WellKnownMissing { required_url: String },
    /// The submission was stored.
    Registered,
    Page(Page),
    Found { url: String, description: String, submitted_at: i64 },
    NotFound { url: String },
}

/// A JSON-RPC error reply; `echo_id` is false where the reply carries a
/// null id in place of the request's.
#[derive(Debug, PartialEq, Eq)]
pub struct RpcError {
    pub echo_id: bool,
    pub code: i32,
    pub message: String,
}

#[derive(Debug, PartialEq, Eq)]
pub enum Reply {
    /// The server's description, in answer to `initialize`.
    Initialize,
    /// No content, in answer to `notifications/initialized`.
    Initialized,
    /// The list of tools, by name, in answer to `tools/list`.
    ToolList(Vec<String>),
    Output(ToolOutput),
    Error(RpcError),
}

/// A submission that passed the checks that need no network: its domain
/// must still be checked for the well-known file.
#[derive(Debug, PartialEq, Eq)]
pub struct Submission {
    pub url: String,
    pub description: String,
}

/// What the handler does with a request: reply at once, or check a
/// submission's domain first.
#[derive(Debug, PartialEq, Eq)]
pub enum Step {
    Reply(Reply),
    Submit(Submission),
}

// ---------------------------------------------------------------------------
// Models
// ---------------------------------------------------------------------------

pub ghost enum OutputView {
    WellKnownMissing { required_url: Seq<char> },
    Registered,
    Page { total: usize, offset: usize, limit: usize, results: Seq<(Seq<char>, Seq<char>)> },
    Found { url: Seq<char>, description: Seq<char>, submitted_at: i64 },
    NotFound { url: Seq<char> },
}

pub ghost enum ReplyView {
    Initialize,
    Initialized,
    ToolList(Seq<Seq<char>>),
    Output(OutputView),
    Error { echo_id: bool, code: i32, message: Seq<char> },
}

pub ghost enum StepView {
    Reply(ReplyView),
    Submit { url: Seq<char>, description: Seq<char> },
}

impl View for Listing {
    type V = (Seq<char>, Seq<char>);

    open spec fn view(&self) -> (Seq<char>, Seq<char>) {
        (self.url@, self.description@)
    }
}

impl DeepView for Listing {
    type V = (Seq<char>, Seq<char>);

    open spec fn deep_view(&self) -> (Seq<char>, Seq<char>) {
        self@
    }
}

impl View for ToolOutput {
    type V = OutputView;

    open spec fn view(&self) -> OutputView {
        match self {
            ToolOutput::WellKnownMissing { required_url } => OutputView::WellKnownMissing {
                required_url: required_url@,
            },
            ToolOutput::Registered => OutputView::Registered,
            ToolOutput::Page(p) => OutputView::Page {
                total: p.total,
                offset: p.offset,
                limit: p.limit,
                results: p.results.deep_view(),
            },
            ToolOutput::Found { url, description, submitted_at } => OutputView::Found {
                url: url@,
                description: description@,
                submitted_at: *submitted_at,
            },
            ToolOutput::NotFound { url } => OutputView::NotFound { url: url@ },
        }
    }
}

impl View for Reply {
    type V = ReplyView;

    open spec fn view(&self) -> ReplyView {
        match self {
            Reply::Initialize => ReplyView::Initialize,
            Reply::Initialized => ReplyView::Initialized,
            Reply::ToolList(names) => ReplyView::ToolList(names.deep_view()),
            Reply::Output(o) => ReplyView::Output(o@),
            Reply::Error(e) => ReplyView::Error {
                echo_id: e.echo_id,
                code: e.code,
                message: e.message@,
            },
        }
    }
}

impl View for Step {
    type V = StepView;

    open spec fn view(&self) -> StepView {
        match self {
            Step::Reply(r) => StepView::Reply(r@),
            Step::Submit(s) => StepView::Submit { url: s.url@, description: s.description@ },
        }
    }
}

pub open spec fn error_reply(code: i32, message: Seq<char>) -> ReplyView {
    ReplyView::Error { echo_id: true, code, message }
}

// ---------------------------------------------------------------------------
// Search and paging
// ---------------------------------------------------------------------------

/// Whether an endpoint matches a lower-cased query: every endpoint matches
/// the empty query; otherwise the lower-cased description must hold it.
pub open spec fn matches_query(e: EndpointView, query: Seq<char>) -> bool {
    query.len() == 0 || has_substring(unicode_lowercase(e.description), query)
}

/// The endpoints that match `query`, in stored order.
pub open spec fn matching(eps: Seq<EndpointView>, query: Seq<char>) -> Seq<EndpointView>
    decreases eps.len(),
{
    if eps.len() == 0 {
        Seq::empty()
    } else if matches_query(eps.last(), query) {
        matching(eps.drop_last(), query).push(eps.last())
    } else {
        matching(eps.drop_last(), query)
    }
}

/// The items of `s` from `offset` on, at most `limit` of them.
pub open spec fn page_of<T>(s: Seq<T>, offset: int, limit: int) -> Seq<T> {
    let start = if offset < s.len() { offset } else { s.len() as int };
    let end = if start + limit < s.len() { start + limit } else { s.len() as int };
    s.subrange(start, end)
}

pub open spec fn listing_of(e: EndpointView) -> (Seq<char>, Seq<char>) {
    (e.url, e.description)
}

pub open spec fn listings(s: Seq<EndpointView>) -> Seq<(Seq<char>, Seq<char>)> {
    Seq::new(s.len(), |i: int| listing_of(s[i]))
}

/// The page of `eps` that a query selects.
pub open spec fn page_view(eps: Seq<EndpointView>, offset: usize, limit: usize) -> OutputView {
    OutputView::Page {
        total: eps.len() as usize,
        offset,
        limit,
        results: listings(page_of(eps, offset as int, limit as int)),
    }
}

/// `args[key].as_u64().unwrap_or(default)`, where `args` is the request's
/// `arguments` (absent arguments read as null).
pub open spec fn arg_u64(params: Json, key: Seq<char>, default: u64) -> u64 {
    match json_get(params, "arguments"@) {
        Some(args) => match get_u64(args, key) {
            Some(n) => n,
            None => default,
        },
        None => default,
    }
}

/// `args[key].as_str()`.
pub open spec fn arg_text(params: Json, key: Seq<char>) -> Option<Seq<char>> {
    match json_get(params, "arguments"@) {
        Some(args) => get_text(args, key),
        None => None,
    }
}

pub open spec fn min_u64(a: u64, b: u64) -> u64 {
    if a < b { a } else { b }
}

/// The page that `search` answers: matches of the lower-cased query, at most
/// 50 per page (10 by default), from the offset (0 by default).
pub open spec fn search_view(params: Json, eps: Seq<EndpointView>) -> OutputView {
    let query = unicode_lowercase(
        match arg_text(params, "query"@) {
            Some(q) => q,
            None => Seq::empty(),
        },
    );
    page_view(
        matching(eps, query),
        arg_u64(params, "offset"@, 0) as usize,
        min_u64(arg_u64(params, "limit"@, 10), 50) as usize,
    )
}

/// The page that `list_all` answers: all endpoints, at most 200 per page
/// (50 by default), from the offset (0 by default).
pub open spec fn list_view(params: Json, eps: Seq<EndpointView>) -> OutputView {
    page_view(
        eps,
        arg_u64(params, "offset"@, 0) as usize,
        min_u64(arg_u64(params, "limit"@, 50), 200) as usize,
    )
}

/// The endpoints of a spider scan that were found alive. The spider marks
/// the endpoints it found alive as trusted, and those it found dead (kept
/// only on request) as untrusted.
pub open spec fn alive_entries(scan: Seq<EndpointView>) -> Seq<EndpointView>
    decreases scan.len(),
{
    if scan.len() == 0 {
        Seq::empty()
    } else if scan.last().trusted {
        alive_entries(scan.drop_last()).push(scan.last())
    } else {
        alive_entries(scan.drop_last())
    }
}

/// The tools that the directory offers, in the order `tools/list` gives
/// them.
pub open spec fn tool_names_listed() -> Seq<Seq<char>> {
    seq!["submit"@, "search"@, "list_all"@, "get"@, "search_live"@, "list_all_live"@]
}

/// The first endpoint stored under exactly `url`.
pub open spec fn find_url(eps: Seq<EndpointView>, url: Seq<char>) -> Option<EndpointView>
    decreases eps.len(),
{
    if eps.len() == 0 {
        None
    } else if eps[0].url == url {
        Some(eps[0])
    } else {
        find_url(eps.drop_first(), url)
    }
}

/// What `get` answers for the (untrimmed) url it was given.
pub open spec fn lookup_view(eps: Seq<EndpointView>, raw_url: Seq<char>) -> OutputView {
    match find_url(eps, trim(raw_url)) {
        Some(e) => OutputView::Found {
            url: e.url,
            description: e.description,
            submitted_at: e.submitted_at,
        },
        None => OutputView::NotFound { url: trim(raw_url) },
    }
}

// ---------------------------------------------------------------------------
// The handler
// ---------------------------------------------------------------------------

/// What a `tools/call` request leads to, given the stored endpoints and the
/// latest spider scan.
pub open spec fn tool_call_step(params: Json, eps: Seq<EndpointView>, scan: Seq<EndpointView>) -> StepView {
    match get_text(params, "name"@) {
        None => StepView::Reply(error_reply(-32602i32, "params.name required"@)),
        Some(name) => if name == "submit"@ {
            match arg_text(params, "url"@) {
                None => StepView::Reply(error_reply(-32602i32, "url is required"@)),
                Some(raw) => match url_verdict(raw) {
                    Err(e) => StepView::Reply(error_reply(-32602i32, e)),
                    Ok(url) => StepView::Submit {
                        url,
                        description: description_of(
                            match arg_text(params, "description"@) {
                                Some(d) => d,
                                None => Seq::empty(),
                            },
                        ),
                    },
                },
            }
        } else if name == "search"@ {
            StepView::Reply(ReplyView::Output(search_view(params, eps)))
        } else if name == "list_all"@ {
            StepView::Reply(ReplyView::Output(list_view(params, eps)))
        } else if name == "get"@ {
            match arg_text(params, "url"@) {
                None => StepView::Reply(error_reply(-32602i32, "url is required"@)),
                Some(raw) => StepView::Reply(ReplyView::Output(lookup_view(eps, raw))),
            }
        } else if name == "search_live"@ {
            StepView::Reply(ReplyView::Output(search_view(params, alive_entries(scan))))
        } else if name == "list_all_live"@ {
            StepView::Reply(ReplyView::Output(list_view(params, alive_entries(scan))))
        } else {
            StepView::Reply(error_reply(-32601i32, "unknown tool: "@ + name))
        },
    }
}

/// What the directory does with a request, given the stored endpoints and
/// the latest spider scan.
pub open spec fn request_step(req: RpcRequest, eps: Seq<EndpointView>, scan: Seq<EndpointView>) -> StepView {
    if req.jsonrpc@ != "2.0"@ {
        StepView::Reply(
            ReplyView::Error { echo_id: false, code: -32600i32, message: "jsonrpc must be \"2.0\""@ },
        )
    } else if req.method@ == "initialize"@ {
        StepView::Reply(ReplyView::Initialize)
    } else if req.method@ == "notifications/initialized"@ {
        StepView::Reply(ReplyView::Initialized)
    } else if req.method@ == "tools/list"@ {
        StepView::Reply(ReplyView::ToolList(tool_names_listed()))
    } else if req.method@ == "tools/call"@ {
        tool_call_step(req.params, eps, scan)
    } else {
        StepView::Reply(error_reply(-32601i32, "method not found: "@ + req.method@))
    }
}

fn rpc_error(code: i32, message: String) -> (r: Reply)
    ensures
        r@ == error_reply(code, message@),
{
    Reply::Error(RpcError { echo_id: true, code, message })
}

fn arguments(params: &Json) -> (r: Option<&Json>)
    ensures
        match r {
            Some(a) => json_get(*params, "arguments"@) == Some(*a),
            None => json_get(*params, "arguments"@) is None,
        },
{
    params.get("arguments")
}

fn argument_text(params: &Json, key: &str) -> (r: Option<String>)
    ensures
        match r {
            Some(s) => arg_text(*params, key@) == Some(s@),
            None => arg_text(*params, key@) is None,
        },
{
    match arguments(params) {
        Some(args) => args.text_at(key),
        None => None,
    }
}

fn argument_u64(params: &Json, key: &str, default: u64) -> (n: u64)
    ensures
        n == arg_u64(*params, key@, default),
{
    match arguments(params) {
        Some(args) => match args.u64_at(key) {
            Some(n) => n,
            None => default,
        },
        None => default,
    }
}

fn listing(e: &Endpoint) -> (l: Listing)
    ensures
        l@ == listing_of(e@),
{
    Listing { url: e.url.clone(), description: e.description.clone() }
}

/// The page of `eps` from `offset`, at most `limit` long.
fn page(eps: &Vec<Endpoint>, offset: usize, limit: usize) -> (p: Page)
    ensures
        (ToolOutput::Page(p))@ == page_view(eps.deep_view(), offset, limit),
{
    let n = eps.len();
    let start = if offset < n { offset } else { n };
    let end = if limit < n - start { start + limit } else { n };
    let mut results: Vec<Listing> = Vec::new();
    let mut i = start;
    while i < end
        invariant
            start <= i <= end <= n == eps.len(),
            results.deep_view() == listings(eps.deep_view().subrange(start as int, i as int)),
        decreases end - i,
    {
        let ghost before = results.deep_view();
        results.push(listing(&eps[i]));
        proof {
            let want = listings(eps.deep_view().subrange(start as int, i + 1));
            assert forall|k: int| 0 <= k < want.len() implies #[trigger] results.deep_view()[k] == want[k] by {
                if k < before.len() {
                    assert(results.deep_view()[k] == results@[k].deep_view());
                    assert(before[k] == results@[k].deep_view());
                }
            }
            assert(before.len() == i - start);
            assert(results@.len() == before.len() + 1);
            assert(results.deep_view().len() == want.len());
            assert(results.deep_view() =~= want);
        }
        i = i + 1;
    }
    Page { total: n, offset, limit, results }
}

/// The endpoints that match a lower-cased query.
fn matching_endpoints(eps: &Vec<Endpoint>, query: &String) -> (found: Vec<Endpoint>)
    ensures
        found.deep_view() == matching(eps.deep_view(), query@),
{
    let mut found: Vec<Endpoint> = Vec::new();
    let empty = query.as_str().is_empty();
    let mut i: usize = 0;
    while i < eps.len()
        invariant
            0 <= i <= eps.len(),
            empty == (query@.len() == 0),
            found.deep_view() == matching(eps.deep_view().take(i as int), query@),
        decreases eps.len() - i,
    {
        assert(eps.deep_view().take(i + 1).drop_last() == eps.deep_view().take(i as int));
        let keep = empty || {
            let lowered = to_lowercase(eps[i].description.as_str());
            contains_text(lowered.as_str(), query.as_str())
        };
        if keep {
            found.push(eps[i].clone());
        }
        assert(found.deep_view() =~= matching(eps.deep_view().take(i + 1), query@));
        i = i + 1;
    }
    assert(eps.deep_view().take(eps.len() as int) == eps.deep_view());
    found
}

/// The `search` tool. Without a query it lists every stored endpoint, as
/// `list_all` does.
pub fn search(params: &Json, eps: &Vec<Endpoint>) -> (o: ToolOutput)
    ensures
        o@ == search_view(*params, eps.deep_view()),
        arg_text(*params, "query"@) is None ==> o@ == page_view(
            eps.deep_view(),
            arg_u64(*params, "offset"@, 0) as usize,
            min_u64(arg_u64(*params, "limit"@, 10), 50) as usize,
        ),
{
    let raw = match argument_text(params, "query") {
        Some(q) => q,
        None => String::new(),
    };
    let query = to_lowercase(raw.as_str());
    proof {
        if arg_text(*params, "query"@) is None {
            assert(query@ =~= Seq::<char>::empty());
            lemma_matching_empty(eps.deep_view());
        }
    }
    let limit = argument_u64(params, "limit", 10);
    let limit = if limit < 50 { limit } else { 50 };
    let offset = argument_u64(params, "offset", 0);
    let found = matching_endpoints(eps, &query);
    ToolOutput::Page(page(&found, offset as usize, limit as usize))
}

/// The `list_all` tool.
pub fn list_all(params: &Json, eps: &Vec<Endpoint>) -> (o: ToolOutput)
    ensures
        o@ == list_view(*params, eps.deep_view()),
{
    let limit = argument_u64(params, "limit", 50);
    let limit = if limit < 200 { limit } else { 200 };
    let offset = argument_u64(params, "offset", 0);
    ToolOutput::Page(page(eps, offset as usize, limit as usize))
}

/// The endpoints of a spider scan that were found alive.
fn alive_endpoints(scan: &Vec<Endpoint>) -> (alive: Vec<Endpoint>)
    ensures
        alive.deep_view() == alive_entries(scan.deep_view()),
{
    let mut alive: Vec<Endpoint> = Vec::new();
    let mut i: usize = 0;
    while i < scan.len()
        invariant
            0 <= i <= scan.len(),
            alive.deep_view() == alive_entries(scan.deep_view().take(i as int)),
        decreases scan.len() - i,
    {
        assert(scan.deep_view().take(i + 1).drop_last() == scan.deep_view().take(i as int));
        if scan[i].trusted {
            alive.push(scan[i].clone());
        }
        assert(alive.deep_view() =~= alive_entries(scan.deep_view().take(i + 1)));
        i = i + 1;
    }
    assert(scan.deep_view().take(scan.len() as int) == scan.deep_view());
    alive
}

/// The `search_live` tool: `search` over the endpoints that the latest
/// spider scan found alive.
pub fn search_live(params: &Json, scan: &Vec<Endpoint>) -> (o: ToolOutput)
    ensures
        o@ == search_view(*params, alive_entries(scan.deep_view())),
{
    let alive = alive_endpoints(scan);
    search(params, &alive)
}

/// The `list_all_live` tool: `list_all` over the endpoints that the latest
/// spider scan found alive.
pub fn list_all_live(params: &Json, scan: &Vec<Endpoint>) -> (o: ToolOutput)
    ensures
        o@ == list_view(*params, alive_entries(scan.deep_view())),
{
    let alive = alive_endpoints(scan);
    list_all(params, &alive)
}

/// The names of the tools that the directory offers.
fn tool_names() -> (names: Vec<String>)
    ensures
        names.deep_view() == tool_names_listed(),
{
    let mut names: Vec<String> = Vec::new();
    names.push("submit".to_owned());
    names.push("search".to_owned());
    names.push("list_all".to_owned());
    names.push("get".to_owned());
    names.push("search_live".to_owned());
    names.push("list_all_live".to_owned());
    assert(names.deep_view() =~= tool_names_listed());
    names
}

/// What `get` answers for the url it was given.
pub fn lookup(eps: &Vec<Endpoint>, raw_url: &str) -> (o: ToolOutput)
    ensures
        o@ == lookup_view(eps.deep_view(), raw_url@),
{
    let url = trimmed(raw_url);
    assert(eps.deep_view().skip(0) == eps.deep_view());
    let mut i: usize = 0;
    while i < eps.len()
        invariant
            0 <= i <= eps.len(),
            url@ == trim(raw_url@),
            find_url(eps.deep_view(), url@) == find_url(eps.deep_view().skip(i as int), url@),
        decreases eps.len() - i,
    {
        proof {
            let s = eps.deep_view().skip(i as int);
            assert(s[0] == eps.deep_view()[i as int]);
            assert(s.drop_first() == eps.deep_view().skip(i + 1));
        }
        if eps[i].url == url {
            return ToolOutput::Found {
                url: eps[i].url.clone(),
                description: eps[i].description.clone(),
                submitted_at: eps[i].submitted_at,
            };
        }
        i = i + 1;
    }
    ToolOutput::NotFound { url }
}

fn tool_call(params: &Json, eps: &Vec<Endpoint>, scan: &Vec<Endpoint>) -> (s: Step)
    ensures
        s@ == tool_call_step(*params, eps.deep_view(), scan.deep_view()),
{
    let name = match params.text_at("name") {
        Some(n) => n,
        None => {
            return Step::Reply(rpc_error(-32602i32, "params.name required".to_owned()));
        },
    };
    if is_text(&name, "submit") {
        let raw = match argument_text(params, "url") {
            Some(u) => u,
            None => {
                return Step::Reply(rpc_error(-32602i32, "url is required".to_owned()));
            },
        };
        let url = match sanitize_url(raw.as_str()) {
            Ok(u) => u,
            Err(e) => {
                return Step::Reply(rpc_error(-32602i32, e));
            },
        };
        let text = match argument_text(params, "description") {
            Some(d) => d,
            None => String::new(),
        };
        let description = sanitize_description(text.as_str());
        Step::Submit(Submission { url, description })
    } else if is_text(&name, "search") {
        Step::Reply(Reply::Output(search(params, eps)))
    } else if is_text(&name, "list_all") {
        Step::Reply(Reply::Output(list_all(params, eps)))
    } else if is_text(&name, "get") {
        match argument_text(params, "url") {
            Some(raw) => Step::Reply(Reply::Output(lookup(eps, raw.as_str()))),
            None => Step::Reply(rpc_error(-32602i32, "url is required".to_owned())),
        }
    } else if is_text(&name, "search_live") {
        Step::Reply(Reply::Output(search_live(params, scan)))
    } else if is_text(&name, "list_all_live") {
        Step::Reply(Reply::Output(list_all_live(params, scan)))
    } else {
        let mut message = "unknown tool: ".to_owned();
        push_str(&mut message, name.as_str());
        Step::Reply(rpc_error(-32601i32, message))
    }
}

/// Decides what to do with a JSON-RPC request to the directory: answer the
/// MCP handshake, list the tools, run a read-only tool on `endpoints` (or,
/// for the live tools, on the latest spider scan `scan`), or pass a checked
/// submission on; malformed requests get JSON-RPC errors.
pub fn handle_request(req: &RpcRequest, endpoints: &Vec<Endpoint>, scan: &Vec<Endpoint>) -> (s: Step)
    ensures
        s@ == request_step(*req, endpoints.deep_view(), scan.deep_view()),
{
    if !is_text(&req.jsonrpc, "2.0") {
        return Step::Reply(
            Reply::Error(
                RpcError { echo_id: false, code: -32600i32, message: "jsonrpc must be \"2.0\"".to_owned() },
            ),
        );
    }
    if is_text(&req.method, "initialize") {
        Step::Reply(Reply::Initialize)
    } else if is_text(&req.method, "notifications/initialized") {
        Step::Reply(Reply::Initialized)
    } else if is_text(&req.method, "tools/list") {
        Step::Reply(Reply::ToolList(tool_names()))
    } else if is_text(&req.method, "tools/call") {
        tool_call(&req.params, endpoints, scan)
    } else {
        let mut message = "method not found: ".to_owned();
        push_str(&mut message, req.method.as_str());
        Step::Reply(rpc_error(-32601i32, message))
    }
}

// ---------------------------------------------------------------------------
// Completing a submission
// ---------------------------------------------------------------------------

pub open spec fn has_url(eps: Seq<EndpointView>, url: Seq<char>) -> bool {
    exists|i: int| 0 <= i < eps.len() && (#[trigger] eps[i]).url == url
}

/// The stored endpoints and the reply after a submission's domain check:
/// refused where the well-known file is missing or the url is already
/// stored; otherwise stored at the end, untrusted, with the given time.
pub open spec fn submit_outcome(
    eps: Seq<EndpointView>,
    url: Seq<char>,
    description: Seq<char>,
    found: bool,
    now: i64,
) -> (Seq<EndpointView>, ReplyView) {
    if !found {
        (
            eps,
            ReplyView::Output(
                OutputView::WellKnownMissing { required_url: required_well_known_url(url) },
            ),
        )
    } else if has_url(eps, url) {
        (eps, error_reply(-32602i32, "url already registered"@))
    } else {
        (
            eps.push(EndpointView { url, description, trusted: false, submitted_at: now }),
            ReplyView::Output(OutputView::Registered),
        )
    }
}

/// Finishes a submission once its domain was checked for the well-known
/// file (`found`): stores it unless refused, with `now` as its time. The
/// caller saves the endpoints when the reply is `Registered`.
pub fn complete_submit(
    endpoints: &mut Vec<Endpoint>,
    submission: Submission,
    found: bool,
    now: i64,
) -> (r: Reply)
    ensures
        (final(endpoints).deep_view(), r@) == submit_outcome(
            old(endpoints).deep_view(),
            submission.url@,
            submission.description@,
            found,
            now,
        ),
{
    if !found {
        return Reply::Output(
            ToolOutput::WellKnownMissing { required_url: required_url(submission.url.as_str()) },
        );
    }
    let mut i: usize = 0;
    while i < endpoints.len()
        invariant
            found,
            *endpoints == *old(endpoints),
            0 <= i <= endpoints.len(),
            forall|j: int| 0 <= j < i ==> (#[trigger] endpoints.deep_view()[j]).url != submission.url@,
        decreases endpoints.len() - i,
    {
        if endpoints[i].url == submission.url {
            assert(endpoints.deep_view()[i as int].url == submission.url@);
            assert(has_url(old(endpoints).deep_view(), submission.url@));
            return rpc_error(-32602i32, "url already registered".to_owned());
        }
        i = i + 1;
    }
    let Submission { url, description } = submission;
    endpoints.push(Endpoint { url, description, trusted: false, submitted_at: now });
    assert(endpoints.deep_view() =~= old(endpoints).deep_view().push(
        EndpointView { url: submission.url@, description: submission.description@, trusted: false, submitted_at: now },
    ));
    Reply::Output(ToolOutput::Registered)
}


// ---------------------------------------------------------------------------
// Laws
// ---------------------------------------------------------------------------

proof fn lemma_find_url_absent(eps: Seq<EndpointView>, url: Seq<char>)
    requires
        !has_url(eps, url),
    ensures
        find_url(eps, url) is None,
    decreases eps.len(),
{
    if eps.len() > 0 {
        assert(eps[0].url != url);
        assert forall|i: int| 0 <= i < eps.drop_first().len() implies (#[trigger] eps.drop_first()[i]).url != url by {
            assert(eps.drop_first()[i] == eps[i + 1]);
        }
        lemma_find_url_absent(eps.drop_first(), url);
    }
}

proof fn lemma_find_url_push(eps: Seq<EndpointView>, e: EndpointView, url: Seq<char>)
    requires
        find_url(eps, url) is None,
    ensures
        find_url(eps.push(e), url) == (if e.url == url { Some(e) } else { None::<EndpointView> }),
    decreases eps.len(),
{
    if eps.len() > 0 {
        assert(eps.push(e).drop_first() == eps.drop_first().push(e));
        assert(eps.push(e)[0] == eps[0]);
        assert(eps[0].url != url);
        lemma_find_url_push(eps.drop_first(), e, url);
        assert(find_url(eps.push(e), url) == find_url(eps.push(e).drop_first(), url));
    } else {
        let one = eps.push(e);
        assert(one.drop_first() =~= Seq::<EndpointView>::empty());
        assert(one[0] == e);
        assert(find_url(one.drop_first(), url) is None);
    }
}

/// A read after a write: once a submission of a url that carries no white
/// space at either end is registered, `get` with that url answers it, with
/// the submitted description and time.
pub proof fn lemma_submit_then_get(
    eps: Seq<EndpointView>,
    url: Seq<char>,
    description: Seq<char>,
    now: i64,
)
    requires
        !has_url(eps, url),
        trim(url) == url,
    ensures
        submit_outcome(eps, url, description, true, now).1 == ReplyView::Output(OutputView::Registered),
        lookup_view(submit_outcome(eps, url, description, true, now).0, url) == (OutputView::Found {
            url,
            description,
            submitted_at: now,
        }),
{
    lemma_find_url_absent(eps, url);
    let e = EndpointView { url, description, trusted: false, submitted_at: now };
    lemma_find_url_push(eps, e, url);
}

/// A url is registered at most once: after a submission is stored, another
/// submission of the same url is refused and changes nothing.
pub proof fn lemma_resubmit_refused(
    eps: Seq<EndpointView>,
    url: Seq<char>,
    description: Seq<char>,
    now: i64,
    other_description: Seq<char>,
    found: bool,
    later: i64,
)
    requires
        !has_url(eps, url),
    ensures
        ({
            let stored = submit_outcome(eps, url, description, true, now).0;
            let again = submit_outcome(stored, url, other_description, found, later);
            &&& again.0 == stored
            &&& again.1 != ReplyView::Output(OutputView::Registered)
        }),
{
    let stored = submit_outcome(eps, url, description, true, now).0;
    assert(stored[eps.len() as int].url == url);
    assert(has_url(stored, url));
}

pub open spec fn urls_distinct(eps: Seq<EndpointView>) -> bool {
    forall|i: int, j: int| 0 <= i < j < eps.len() ==> (#[trigger] eps[i]).url != (#[trigger] eps[j]).url
}

/// Submissions never store a url twice: a list without repeated urls keeps
/// none after any submission.
pub proof fn lemma_submit_keeps_urls_distinct(
    eps: Seq<EndpointView>,
    url: Seq<char>,
    description: Seq<char>,
    found: bool,
    now: i64,
)
    requires
        urls_distinct(eps),
    ensures
        urls_distinct(submit_outcome(eps, url, description, found, now).0),
{
    let after = submit_outcome(eps, url, description, found, now).0;
    if found && !has_url(eps, url) {
        assert forall|i: int, j: int| 0 <= i < j < after.len() implies (#[trigger] after[i]).url != (
        #[trigger] after[j]).url by {
            if j == eps.len() {
                assert(after[i] == eps[i]);
            } else {
                assert(after[i] == eps[i] && after[j] == eps[j]);
            }
        }
    }
}

/// Paging: the page at `offset` followed by the page right after it is the
/// longer page at `offset`, so stepping the offset by the limit visits every
/// item once and in order.
pub proof fn lemma_pages_concatenate<T>(s: Seq<T>, offset: int, first: int, second: int)
    requires
        offset >= 0,
        first >= 0,
        second >= 0,
    ensures
        page_of(s, offset, first) + page_of(s, offset + first, second) == page_of(
            s,
            offset,
            first + second,
        ),
{
    assert(page_of(s, offset, first) + page_of(s, offset + first, second) =~= page_of(
        s,
        offset,
        first + second,
    ));
}

/// A page never holds more than its limit, and the first page with a limit
/// of at least the total holds everything.
pub proof fn lemma_page_size<T>(s: Seq<T>, offset: int, limit: int)
    requires
        offset >= 0,
        limit >= 0,
    ensures
        page_of(s, offset, limit).len() <= limit,
        limit >= s.len() ==> page_of(s, 0, limit) == s,
{
    if limit >= s.len() {
        assert(page_of(s, 0, limit) =~= s);
    }
}

proof fn lemma_matching_empty(eps: Seq<EndpointView>)
    ensures
        matching(eps, Seq::empty()) == eps,
    decreases eps.len(),
{
    if eps.len() > 0 {
        lemma_matching_empty(eps.drop_last());
        assert(eps.drop_last().push(eps.last()) == eps);
    }
}

/// The matches of a query are some of the stored endpoints, in stored order.
pub proof fn lemma_matching_is_subsequence(eps: Seq<EndpointView>, query: Seq<char>)
    ensures
        matching(eps, query).len() <= eps.len(),
        forall|i: int| 0 <= i < matching(eps, query).len() ==> eps.contains(#[trigger] matching(eps, query)[i]),
        forall|i: int| 0 <= i < matching(eps, query).len() ==> matches_query(#[trigger] matching(eps, query)[i], query),
    decreases eps.len(),
{
    if eps.len() > 0 {
        let rest = eps.drop_last();
        lemma_matching_is_subsequence(rest, query);
        let m = matching(eps, query);
        assert forall|i: int| 0 <= i < m.len() implies eps.contains(#[trigger] m[i]) by {
            if i < matching(rest, query).len() {
                let x = m[i];
                assert(rest.contains(x));
                let k = choose|k: int| 0 <= k < rest.len() && rest[k] == x;
                assert(eps[k] == x);
            } else {
                assert(eps[eps.len() - 1] == m[i]);
            }
        }
    }
}

/// Submissions only append: every endpoint stored before a submission is
/// still stored, unchanged and at the same place, after it.
pub proof fn lemma_submit_keeps_existing(
    eps: Seq<EndpointView>,
    url: Seq<char>,
    description: Seq<char>,
    found: bool,
    now: i64,
)
    ensures
        submit_outcome(eps, url, description, found, now).0.len() >= eps.len(),
        forall|i: int| 0 <= i < eps.len() ==> #[trigger] submit_outcome(eps, url, description, found, now).0[i] == eps[i],
{
}

/// Only a `submit` call waits for the network: every other request is
/// answered from the stored endpoints at once.
pub proof fn lemma_only_submit_checks_domains(
    req: RpcRequest,
    eps: Seq<EndpointView>,
    scan: Seq<EndpointView>,
)
    ensures
        request_step(req, eps, scan) is Submit ==> req.jsonrpc@ == "2.0"@ && req.method@ == "tools/call"@
            && get_text(req.params, "name"@) == Some("submit"@),
{
}


/// Whether `l` lists an endpoint of `scan` that the scan found alive.
pub open spec fn alive_listing(scan: Seq<EndpointView>, l: (Seq<char>, Seq<char>)) -> bool {
    exists|j: int| 0 <= j < scan.len() && scan[j].trusted && #[trigger] listing_of(scan[j]) == l
}

/// Every result of a page lists an endpoint of `scan` that the scan found
/// alive.
pub open spec fn listed_from_alive(o: OutputView, scan: Seq<EndpointView>) -> bool {
    &&& o is Page
    &&& forall|i: int| 0 <= i < o->results.len() ==> #[trigger] alive_listing(scan, o->results[i])
}

proof fn lemma_alive_entries(scan: Seq<EndpointView>)
    ensures
        forall|i: int|
            0 <= i < alive_entries(scan).len() ==> scan.contains(#[trigger] alive_entries(scan)[i])
                && alive_entries(scan)[i].trusted,
    decreases scan.len(),
{
    if scan.len() > 0 {
        let rest = scan.drop_last();
        lemma_alive_entries(rest);
        let a = alive_entries(scan);
        assert forall|i: int| 0 <= i < a.len() implies scan.contains(#[trigger] a[i]) && a[i].trusted by {
            if i < alive_entries(rest).len() {
                let x = a[i];
                assert(x == alive_entries(rest)[i]);
                assert(rest.contains(x));
                let k = choose|k: int| 0 <= k < rest.len() && rest[k] == x;
                assert(scan[k] == x);
            } else {
                assert(scan[scan.len() - 1] == a[i]);
            }
        }
    }
}

proof fn lemma_page_from_alive(s: Seq<EndpointView>, scan: Seq<EndpointView>, offset: usize, limit: usize)
    requires
        forall|i: int| 0 <= i < s.len() ==> scan.contains(#[trigger] s[i]) && s[i].trusted,
    ensures
        listed_from_alive(page_view(s, offset, limit), scan),
{
    let o = page_view(s, offset, limit);
    let p = page_of(s, offset as int, limit as int);
    let start = if (offset as int) < s.len() { offset as int } else { s.len() as int };
    assert forall|i: int| 0 <= i < o->results.len() implies #[trigger] alive_listing(scan, o->results[i]) by {
        assert(o->results == listings(p));
        assert(o->results[i] == listing_of(p[i]));
        assert(p[i] == s[start + i]);
        assert(scan.contains(s[start + i]));
        let j = choose|j: int| 0 <= j < scan.len() && scan[j] == s[start + i];
        assert(listing_of(scan[j]) == o->results[i]);
    }
}

/// The live tools show only what the latest spider scan found alive: every
/// result of `search_live` and of `list_all_live` is an endpoint of the
/// scan marked alive, so no endpoint found dead is ever listed.
pub proof fn lemma_live_results_alive(params: Json, scan: Seq<EndpointView>)
    ensures
        listed_from_alive(search_view(params, alive_entries(scan)), scan),
        listed_from_alive(list_view(params, alive_entries(scan)), scan),
{
    let alive = alive_entries(scan);
    lemma_alive_entries(scan);
    let query = unicode_lowercase(
        match arg_text(params, "query"@) {
            Some(q) => q,
            None => Seq::empty(),
        },
    );
    let m = matching(alive, query);
    lemma_matching_is_subsequence(alive, query);
    assert forall|i: int| 0 <= i < m.len() implies scan.contains(#[trigger] m[i]) && m[i].trusted by {
        assert(alive.contains(m[i]));
        let k = choose|k: int| 0 <= k < alive.len() && alive[k] == m[i];
        assert(scan.contains(alive[k]) && alive[k].trusted);
    }
    lemma_page_from_alive(
        m,
        scan,
        arg_u64(params, "offset"@, 0) as usize,
        min_u64(arg_u64(params, "limit"@, 10), 50) as usize,
    );
    lemma_page_from_alive(
        alive,
        scan,
        arg_u64(params, "offset"@, 0) as usize,
        min_u64(arg_u64(params, "limit"@, 50), 200) as usize,
    );
}

/// A search after a submission finds it: once a submission is stored, the
/// matches of any lower-cased query are those from before, followed by the
/// new endpoint where its lower-cased description holds the query (every
/// endpoint matches the empty query).
pub proof fn lemma_submit_then_search(
    eps: Seq<EndpointView>,
    url: Seq<char>,
    description: Seq<char>,
    now: i64,
    query: Seq<char>,
)
    requires
        !has_url(eps, url),
    ensures
        ({
            let stored = submit_outcome(eps, url, description, true, now).0;
            let e = EndpointView { url, description, trusted: false, submitted_at: now };
            &&& stored == eps.push(e)
            &&& matching(stored, query) == if query.len() == 0 || has_substring(
                unicode_lowercase(description),
                query,
            ) {
                matching(eps, query).push(e)
            } else {
                matching(eps, query)
            }
        }),
{
    let e = EndpointView { url, description, trusted: false, submitted_at: now };
    let stored = eps.push(e);
    assert(stored.drop_last() == eps);
    assert(stored.last() == e);
}


/// Search matches on descriptions only, case-blind, and keeps stored order:
/// nothing matches in an empty directory, and a further endpoint joins the
/// matches of a non-empty lower-cased query exactly when its lower-cased
/// description holds the query, whatever its url and its trusted flag.
pub proof fn lemma_search_matches_descriptions_only(
    eps: Seq<EndpointView>,
    e: EndpointView,
    query: Seq<char>,
)
    ensures
        matching(Seq::<EndpointView>::empty(), query) == Seq::<EndpointView>::empty(),
        matching(eps.push(e), query) == if query.len() == 0 || has_substring(
            unicode_lowercase(e.description),
            query,
        ) {
            matching(eps, query).push(e)
        } else {
            matching(eps, query)
        },
{
    assert(eps.push(e).drop_last() == eps);
    assert(eps.push(e).last() == e);
}

/// A page of `list_all` is the stored endpoints themselves: its total is
/// the number stored, its limit is the requested one (50 by default) capped
/// at 200, and its results are the stored endpoints from the offset on, in
/// order, as many as the limit allows.
pub proof fn lemma_list_all_pages_the_store(params: Json, eps: Seq<EndpointView>)
    ensures
        ({
            let o = list_view(params, eps);
            let offset = arg_u64(params, "offset"@, 0) as usize;
            let limit = (if arg_u64(params, "limit"@, 50) < 200 {
                arg_u64(params, "limit"@, 50)
            } else {
                200
            }) as usize;
            &&& o is Page
            &&& o->total == eps.len() as usize
            &&& o->offset == offset
            &&& o->limit == limit
            &&& o->results.len() == (if offset >= eps.len() {
                0
            } else if offset + limit <= eps.len() {
                limit as int
            } else {
                eps.len() - offset
            })
            &&& forall|i: int|
                0 <= i < o->results.len() ==> #[trigger] o->results[i] == (
                    eps[offset + i].url,
                    eps[offset + i].description,
                )
        }),
{
}

proof fn lemma_find_url_first(eps: Seq<EndpointView>, url: Seq<char>, i: int)
    requires
        0 <= i < eps.len(),
        eps[i].url == url,
        forall|j: int| 0 <= j < i ==> (#[trigger] eps[j]).url != url,
    ensures
        find_url(eps, url) == Some(eps[i]),
    decreases i,
{
    if i > 0 {
        assert(eps[0].url != url);
        let rest = eps.drop_first();
        assert forall|j: int| 0 <= j < i - 1 implies (#[trigger] rest[j]).url != url by {
            assert(rest[j] == eps[j + 1]);
        }
        assert(rest[i - 1] == eps[i]);
        lemma_find_url_first(rest, url, i - 1);
    }
}

/// `get` answers the first stored endpoint whose url is exactly the given
/// one (trimmed), with its description and time, and not-found, echoing the
/// trimmed url, where no stored endpoint has that url.
pub proof fn lemma_get_finds_the_stored_url(eps: Seq<EndpointView>, raw_url: Seq<char>)
    ensures
        forall|i: int|
            0 <= i < eps.len() && (#[trigger] eps[i]).url == trim(raw_url) && (forall|j: int|
                0 <= j < i ==> eps[j].url != trim(raw_url)) ==> lookup_view(eps, raw_url) == (
            OutputView::Found {
                url: eps[i].url,
                description: eps[i].description,
                submitted_at: eps[i].submitted_at,
            }),
        (forall|i: int| 0 <= i < eps.len() ==> (#[trigger] eps[i]).url != trim(raw_url))
            ==> lookup_view(eps, raw_url) == (OutputView::NotFound { url: trim(raw_url) }),
{
    let url = trim(raw_url);
    assert forall|i: int|
        0 <= i < eps.len() && (#[trigger] eps[i]).url == url && (forall|j: int|
            0 <= j < i ==> eps[j].url != url) implies lookup_view(eps, raw_url) == (
        OutputView::Found {
            url: eps[i].url,
            description: eps[i].description,
            submitted_at: eps[i].submitted_at,
        }) by {
        lemma_find_url_first(eps, url, i);
    }
    if forall|i: int| 0 <= i < eps.len() ==> (#[trigger] eps[i]).url != url {
        lemma_find_url_absent(eps, url);
    }
}

/// The directory's own tools answer from the stored endpoints and never
/// from the spider scan; only the live tools read the scan, through its
/// endpoints found alive.
pub proof fn lemma_tools_read_the_right_list(req: RpcRequest, eps: Seq<EndpointView>, scan: Seq<EndpointView>)
    requires
        req.jsonrpc@ == "2.0"@,
        req.method@ == "tools/call"@,
    ensures
        get_text(req.params, "name"@) == Some("search"@) ==> request_step(req, eps, scan)
            == StepView::Reply(ReplyView::Output(search_view(req.params, eps))),
        get_text(req.params, "name"@) == Some("list_all"@) ==> request_step(req, eps, scan)
            == StepView::Reply(ReplyView::Output(list_view(req.params, eps))),
        get_text(req.params, "name"@) == Some("get"@) && arg_text(req.params, "url"@) is Some
            ==> request_step(req, eps, scan) == StepView::Reply(
            ReplyView::Output(lookup_view(eps, arg_text(req.params, "url"@)->0)),
        ),
        get_text(req.params, "name"@) == Some("search_live"@) ==> request_step(req, eps, scan)
            == StepView::Reply(ReplyView::Output(search_view(req.params, alive_entries(scan)))),
        get_text(req.params, "name"@) == Some("list_all_live"@) ==> request_step(req, eps, scan)
            == StepView::Reply(ReplyView::Output(list_view(req.params, alive_entries(scan)))),
{
    reveal_strlit("2.0");
    reveal_strlit("tools/call");
    reveal_strlit("initialize");
    reveal_strlit("notifications/initialized");
    reveal_strlit("tools/list");
    reveal_strlit("submit");
    reveal_strlit("search");
    reveal_strlit("list_all");
    reveal_strlit("get");
    reveal_strlit("search_live");
    reveal_strlit("list_all_live");
    assert(req.method@ != "initialize"@) by { assert(req.method@[0] != "initialize"@[0]); }
    assert(req.method@ != "notifications/initialized"@) by {
        assert(req.method@[0] != "notifications/initialized"@[0]);
    }
    assert(req.method@ != "tools/list"@) by { assert(req.method@[6] != "tools/list"@[6]); }
    assert("search"@ != "submit"@) by { assert("search"@[1] != "submit"@[1]); }
    assert("list_all"@ != "submit"@) by { assert("list_all"@[0] != "submit"@[0]); }
    assert("list_all"@ != "search"@) by { assert("list_all"@[0] != "search"@[0]); }
    assert("get"@ != "submit"@) by { assert("get"@[0] != "submit"@[0]); }
    assert("get"@ != "search"@) by { assert("get"@[0] != "search"@[0]); }
    assert("get"@ != "list_all"@) by { assert("get"@[0] != "list_all"@[0]); }
    assert("search_live"@ != "submit"@) by { assert("search_live"@[1] != "submit"@[1]); }
    assert("search_live"@ != "search"@) by { assert("search_live"@.len() != "search"@.len()); }
    assert("search_live"@ != "list_all"@) by { assert("search_live"@[0] != "list_all"@[0]); }
    assert("search_live"@ != "get"@) by { assert("search_live"@[0] != "get"@[0]); }
    assert("list_all_live"@ != "submit"@) by { assert("list_all_live"@[0] != "submit"@[0]); }
    assert("list_all_live"@ != "search"@) by { assert("list_all_live"@[0] != "search"@[0]); }
    assert("list_all_live"@ != "list_all"@) by { assert("list_all_live"@.len() != "list_all"@.len()); }
    assert("list_all_live"@ != "get"@) by { assert("list_all_live"@[0] != "get"@[0]); }
    assert("list_all_live"@ != "search_live"@) by { assert("list_all_live"@[0] != "search_live"@[0]); }
}

/// A read after a write, through the handler: once a submission of a url
/// with no white space at either end is stored, a `get` request for that
/// url answers it with the submitted description and time, whatever the
/// spider scan holds.
pub proof fn lemma_submit_then_get_request(
    eps: Seq<EndpointView>,
    url: Seq<char>,
    description: Seq<char>,
    now: i64,
    req: RpcRequest,
    scan: Seq<EndpointView>,
)
    requires
        !has_url(eps, url),
        trim(url) == url,
        req.jsonrpc@ == "2.0"@,
        req.method@ == "tools/call"@,
        get_text(req.params, "name"@) == Some("get"@),
        arg_text(req.params, "url"@) == Some(url),
    ensures
        request_step(req, submit_outcome(eps, url, description, true, now).0, scan)
            == StepView::Reply(
            ReplyView::Output(OutputView::Found { url, description, submitted_at: now }),
        ),
{
    lemma_submit_then_get(eps, url, description, now);
    lemma_tools_read_the_right_list(req, submit_outcome(eps, url, description, true, now).0, scan);
}

} // verus!
