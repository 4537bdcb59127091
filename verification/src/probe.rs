use vstd::prelude::*;
use crate::handshake::{opt_text, InitOk, InitView};
use crate::text::{chars_of, push_str, string_of, trim_end_char};

verus! {

/// What a probe found out about an endpoint.
#[derive(Debug, PartialEq, Eq)]
pub struct ProbeResult {
    /// The base url as it was given.
    pub url: String,
    pub alive: bool,
    pub server_name: String,
    pub tools: Option<Vec<String>>,
    pub error: Option<String>,
    pub latency_ms: u64,
    pub protocol_version: String,
    pub session_id: Option<String>,
}

pub ghost struct ProbeView {
    pub url: Seq<char>,
    pub alive: bool,
    pub server_name: Seq<char>,
    pub tools: Option<Seq<Seq<char>>>,
    pub error: Option<Seq<char>>,
    pub latency_ms: u64,
    pub protocol_version: Seq<char>,
    pub session_id: Option<Seq<char>>,
}

pub open spec fn names_of(o: Option<Vec<String>>) -> Option<Seq<Seq<char>>> {
    match o {
        Some(v) => Some(v.deep_view()),
        None => None,
    }
}

impl View for ProbeResult {
    type V = ProbeView;

    open spec fn view(&self) -> ProbeView {
        ProbeView {
            url: self.url@,
            alive: self.alive,
            server_name: self.server_name@,
            tools: names_of(self.tools),
            error: opt_text(self.error),
            latency_ms: self.latency_ms,
            protocol_version: self.protocol_version@,
            session_id: opt_text(self.session_id),
        }
    }
}

/// The result for an endpoint that answered `initialize`.
pub open spec fn alive_view(
    base: Seq<char>,
    init: InitView,
    tools: Option<Seq<Seq<char>>>,
    latency_ms: u64,
) -> ProbeView {
    ProbeView {
        url: base,
        alive: true,
        server_name: init.server_name,
        tools,
        error: None,
        latency_ms,
        protocol_version: init.protocol_version,
        session_id: init.session_id,
    }
}

/// The result for an endpoint where no candidate answered.
pub open spec fn dead_view(base: Seq<char>, error: Seq<char>, latency_ms: u64) -> ProbeView {
    ProbeView {
        url: base,
        alive: false,
        server_name: Seq::empty(),
        tools: None,
        error: Some(error),
        latency_ms,
        protocol_version: Seq::empty(),
        session_id: None,
    }
}

// ---------------------------------------------------------------------------
// Candidate urls
// ---------------------------------------------------------------------------

/// The paths tried after the advertised endpoint, in order.
pub open spec fn path_suffixes() -> Seq<Seq<char>> {
    seq!["/mcp"@, ""@, "/sse"@, "/api/mcp"@, "/v1/mcp"@]
}

pub open spec fn add_new(list: Seq<Seq<char>>, x: Seq<char>) -> Seq<Seq<char>> {
    if list.contains(x) {
        list
    } else {
        list.push(x)
    }
}

pub open spec fn add_suffixed(list: Seq<Seq<char>>, base: Seq<char>, suffixes: Seq<Seq<char>>) -> Seq<
    Seq<char>,
>
    decreases suffixes.len(),
{
    if suffixes.len() == 0 {
        list
    } else {
        add_suffixed(add_new(list, base + suffixes[0]), base, suffixes.drop_first())
    }
}

/// The urls a probe tries, in order: the advertised endpoint if any, then
/// the base url without trailing slashes followed by each path suffix,
/// skipping any url already listed.
pub open spec fn probe_candidates(base_url: Seq<char>, advertised: Option<Seq<char>>) -> Seq<
    Seq<char>,
> {
    add_suffixed(
        match advertised {
            Some(u) => seq![u],
            None => Seq::empty(),
        },
        trim_end_char(base_url, '/'),
        path_suffixes(),
    )
}

fn listed(list: &Vec<String>, x: &String) -> (b: bool)
    ensures
        b == list.deep_view().contains(x@),
{
    let mut i: usize = 0;
    while i < list.len()
        invariant
            0 <= i <= list.len(),
            forall|j: int| 0 <= j < i ==> list.deep_view()[j] != x@,
        decreases list.len() - i,
    {
        if list[i] == *x {
            assert(list.deep_view()[i as int] == x@);
            return true;
        }
        i = i + 1;
    }
    false
}

/// The urls a probe tries.
pub fn candidates(base_url: &str, advertised: Option<String>) -> (list: Vec<String>)
    ensures
        list.deep_view() == probe_candidates(base_url@, opt_text(advertised)),
{
    let v = chars_of(base_url);
    let mut end = v.len();
    while end > 0 && v[end - 1] == '/'
        invariant
            0 <= end <= v.len(),
            forall|j: int| end <= j < v.len() ==> v@[j] == '/',
        decreases end,
    {
        end = end - 1;
    }
    proof {
        if end > 0 {
            assert(v@[end - 1] != '/');
        }
        crate::text::lemma_end_where_at(v@, crate::text::is_char('/'), end as int);
    }
    let base = string_of(&v, 0, end);
    assert(base@ == trim_end_char(base_url@, '/'));
    let mut list: Vec<String> = Vec::new();
    match advertised {
        Some(u) => {
            list.push(u);
        },
        None => {},
    }
    let ghost start = list.deep_view();
    assert(start =~= (match opt_text(advertised) {
        Some(u) => seq![u],
        None => Seq::<Seq<char>>::empty(),
    }));
    let suffixes: [&str; 5] = ["/mcp", "", "/sse", "/api/mcp", "/v1/mcp"];
    let ghost sfx = path_suffixes();
    assert(suffixes@.map_values(|s: &str| s@) =~= sfx);
    assert(sfx.skip(0) == sfx);
    let mut i: usize = 0;
    while i < 5
        invariant
            0 <= i <= 5,
            sfx == path_suffixes(),
            suffixes@.map_values(|s: &str| s@) == sfx,
            add_suffixed(start, base@, sfx) == add_suffixed(list.deep_view(), base@, sfx.skip(i as int)),
        decreases 5 - i,
    {
        let mut url = base.clone();
        push_str(&mut url, suffixes[i]);
        assert(suffixes@.map_values(|s: &str| s@)[i as int] == suffixes@[i as int]@);
        assert(sfx.skip(i as int)[0] == sfx[i as int]);
        assert(sfx.skip(i as int).drop_first() == sfx.skip(i + 1));
        let ghost before = list.deep_view();
        if !listed(&list, &url) {
            list.push(url);
            assert(list.deep_view() =~= before.push(url@));
        }
        i = i + 1;
    }
    proof {
        assert(sfx.skip(0) == sfx);
        assert(sfx.skip(5) == Seq::<Seq<char>>::empty());
    }
    list
}


// ---------------------------------------------------------------------------
// The probe, one exchange at a time
// ---------------------------------------------------------------------------

/// What the caller reports to the prober.
#[derive(Debug, PartialEq, Eq)]
pub enum ProbeEvent {
    /// The probe begins (after well-known discovery).
    Start { elapsed_ms: u64 },
    /// The `initialize` handshake with the last requested candidate, with
    /// its retries, ended this way.
    Initialized { outcome: Result<InitOk, String>, elapsed_ms: u64 },
    /// The requested tool list, where it could be had.
    ToolsListed { tools: Option<Vec<String>> },
}

/// What the prober asks of the caller next.
#[derive(Debug, PartialEq, Eq)]
pub enum ProbeAction {
    /// Run the `initialize` handshake (with retries) against this url.
    Initialize { url: String },
    /// Ask this url for its tools, in this session.
    FetchTools { url: String, session_id: Option<String> },
    /// The probe is over.
    Done(ProbeResult),
}

pub ghost enum ActionView {
    Initialize { url: Seq<char> },
    FetchTools { url: Seq<char>, session_id: Option<Seq<char>> },
    Done(ProbeView),
}

impl View for ProbeAction {
    type V = ActionView;

    open spec fn view(&self) -> ActionView {
        match self {
            ProbeAction::Initialize { url } => ActionView::Initialize { url: url@ },
            ProbeAction::FetchTools { url, session_id } => ActionView::FetchTools {
                url: url@,
                session_id: opt_text(*session_id),
            },
            ProbeAction::Done(r) => ActionView::Done(r@),
        }
    }
}

/// Tries the candidate urls of an endpoint in order until one completes the
/// MCP handshake, then (in a deep probe) lists its tools.
#[derive(Debug, PartialEq, Eq)]
pub struct Prober {
    pub base_url: String,
    pub deep: bool,
    pub candidates: Vec<String>,
    /// How many candidates were handed out.
    pub next: usize,
    pub last_error: String,
    /// The handshake that succeeded, and when, while its tools are fetched.
    pub pending: Option<(InitOk, u64)>,
    pub finished: bool,
}

/// The handshake that a waiting prober holds.
pub open spec fn pending_init(p: Option<(InitOk, u64)>) -> InitView {
    match p {
        Some((init, _)) => init@,
        None => InitView { protocol_version: Seq::empty(), server_name: Seq::empty(), session_id: None },
    }
}

/// When the handshake that a waiting prober holds succeeded.
pub open spec fn pending_latency(p: Option<(InitOk, u64)>) -> u64 {
    match p {
        Some((_, t)) => t,
        None => 0,
    }
}

impl Prober {
    pub open spec fn well_formed(self) -> bool {
        &&& self.next <= self.candidates.len()
        &&& self.pending is Some ==> self.next > 0 && self.deep
    }

    /// Whether the prober expects `event` now.
    pub open spec fn expects(self, event: ProbeEvent) -> bool {
        &&& !self.finished
        &&& match event {
            ProbeEvent::Start { .. } => self.pending is None && self.next == 0,
            ProbeEvent::Initialized { .. } => self.pending is None && self.next > 0,
            ProbeEvent::ToolsListed { .. } => self.pending is Some,
        }
    }

    /// A probe of `base_url`, given the endpoint that its well-known document
    /// advertises.
    pub fn new(base_url: &str, advertised: Option<String>, deep: bool) -> (p: Prober)
        ensures
            p.well_formed(),
            p.base_url@ == base_url@,
            p.deep == deep,
            p.candidates.deep_view() == probe_candidates(base_url@, opt_text(advertised)),
            p.next == 0,
            p.last_error@ == "no endpoint found"@,
            p.pending is None,
            !p.finished,
    {
        Prober {
            base_url: base_url.to_owned(),
            deep,
            candidates: candidates(base_url, advertised),
            next: 0,
            last_error: "no endpoint found".to_owned(),
            pending: None,
            finished: false,
        }
    }

    /// Hands out the next candidate, or ends the probe as dead with the last
    /// error where none is left.
    fn next_candidate(&mut self, elapsed_ms: u64) -> (a: ProbeAction)
        requires
            old(self).well_formed(),
            old(self).pending is None,
        ensures
            final(self).well_formed(),
            final(self).base_url == old(self).base_url,
            final(self).deep == old(self).deep,
            final(self).candidates == old(self).candidates,
            final(self).last_error == old(self).last_error,
            final(self).pending is None,
            if old(self).next < old(self).candidates.len() {
                &&& a@ == ActionView::Initialize { url: old(self).candidates@[old(self).next as int]@ }
                &&& final(self).next == old(self).next + 1
                &&& final(self).finished == old(self).finished
            } else {
                &&& a@ == ActionView::Done(
                    dead_view(old(self).base_url@, old(self).last_error@, elapsed_ms),
                )
                &&& final(self).next == old(self).next
                &&& final(self).finished
            },
    {
        if self.next < self.candidates.len() {
            let url = self.candidates[self.next].clone();
            self.next = self.next + 1;
            ProbeAction::Initialize { url }
        } else {
            self.finished = true;
            ProbeAction::Done(
                ProbeResult {
                    url: self.base_url.clone(),
                    alive: false,
                    server_name: String::new(),
                    tools: None,
                    error: Some(self.last_error.clone()),
                    latency_ms: elapsed_ms,
                    protocol_version: String::new(),
                    session_id: None,
                },
            )
        }
    }

    /// Takes the caller's report and says what to do next. Candidates are
    /// tried in order; the first successful handshake makes the endpoint
    /// alive (after its tools are listed, in a deep probe); when every
    /// candidate failed, the endpoint is dead with the last failure as its
    /// error.
    pub fn step(&mut self, event: ProbeEvent) -> (a: ProbeAction)
        requires
            old(self).well_formed(),
            old(self).expects(event),
        ensures
            final(self).well_formed(),
            final(self).base_url == old(self).base_url,
            final(self).candidates == old(self).candidates,
            final(self).deep == old(self).deep,
            match event {
                ProbeEvent::Start { elapsed_ms } => if old(self).next < old(self).candidates.len() {
                    &&& a@ == ActionView::Initialize { url: old(self).candidates@[old(self).next as int]@ }
                    &&& final(self).next == old(self).next + 1
                    &&& !final(self).finished
                } else {
                    &&& a@ == ActionView::Done(
                        dead_view(old(self).base_url@, old(self).last_error@, elapsed_ms),
                    )
                    &&& final(self).finished
                },
                ProbeEvent::Initialized { outcome: Err(e), elapsed_ms } => {
                    &&& final(self).last_error == e
                    &&& if old(self).next < old(self).candidates.len() {
                        &&& a@ == ActionView::Initialize { url: old(self).candidates@[old(self).next as int]@ }
                        &&& final(self).next == old(self).next + 1
                        &&& !final(self).finished
                    } else {
                        &&& a@ == ActionView::Done(dead_view(old(self).base_url@, e@, elapsed_ms))
                        &&& final(self).finished
                    }
                },
                ProbeEvent::Initialized { outcome: Ok(init), elapsed_ms } => if old(self).deep {
                    &&& a@ == ActionView::FetchTools {
                        url: old(self).candidates@[old(self).next - 1]@,
                        session_id: init@.session_id,
                    }
                    &&& final(self).pending == Some((init, elapsed_ms))
                    &&& final(self).next == old(self).next
                    &&& !final(self).finished
                } else {
                    &&& a@ == ActionView::Done(alive_view(old(self).base_url@, init@, None, elapsed_ms))
                    &&& final(self).finished
                },
                ProbeEvent::ToolsListed { tools } => {
                    &&& a@ == ActionView::Done(
                        alive_view(
                            old(self).base_url@,
                            pending_init(old(self).pending),
                            names_of(tools),
                            pending_latency(old(self).pending),
                        ),
                    )
                    &&& final(self).finished
                },
            },
    {
        match event {
            ProbeEvent::Start { elapsed_ms } => self.next_candidate(elapsed_ms),
            ProbeEvent::Initialized { outcome, elapsed_ms } => match outcome {
                Err(e) => {
                    self.last_error = e;
                    self.next_candidate(elapsed_ms)
                },
                Ok(init) => {
                    if self.deep {
                        let url = self.candidates[self.next - 1].clone();
                        let session_id = match &init.session_id {
                            Some(s) => Some(s.clone()),
                            None => None,
                        };
                        self.pending = Some((init, elapsed_ms));
                        ProbeAction::FetchTools { url, session_id }
                    } else {
                        self.finished = true;
                        ProbeAction::Done(
                            ProbeResult {
                                url: self.base_url.clone(),
                                alive: true,
                                server_name: init.server_name,
                                tools: None,
                                error: None,
                                latency_ms: elapsed_ms,
                                protocol_version: init.protocol_version,
                                session_id: init.session_id,
                            },
                        )
                    }
                },
            },
            ProbeEvent::ToolsListed { tools } => {
                let (init, latency_ms) = self.pending.take().unwrap();
                self.finished = true;
                ProbeAction::Done(
                    ProbeResult {
                        url: self.base_url.clone(),
                        alive: true,
                        server_name: init.server_name,
                        tools,
                        error: None,
                        latency_ms,
                        protocol_version: init.protocol_version,
                        session_id: init.session_id,
                    },
                )
            },
        }
    }
}


pub open spec fn distinct(list: Seq<Seq<char>>) -> bool {
    forall|i: int, j: int| 0 <= i < j < list.len() ==> list[i] != list[j]
}

proof fn lemma_add_suffixed(list: Seq<Seq<char>>, base: Seq<char>, suffixes: Seq<Seq<char>>)
    requires
        distinct(list),
    ensures
        distinct(add_suffixed(list, base, suffixes)),
        add_suffixed(list, base, suffixes).len() >= list.len(),
        forall|i: int| 0 <= i < list.len() ==> add_suffixed(list, base, suffixes)[i] == list[i],
        forall|k: int| 0 <= k < suffixes.len() ==> add_suffixed(list, base, suffixes).contains(base + #[trigger] suffixes[k]),
    decreases suffixes.len(),
{
    if suffixes.len() > 0 {
        let next = add_new(list, base + suffixes[0]);
        if !list.contains(base + suffixes[0]) {
            assert forall|i: int, j: int| 0 <= i < j < next.len() implies next[i] != next[j] by {
                if j == list.len() {
                    assert(next[i] == list[i]);
                }
            }
        }
        if !list.contains(base + suffixes[0]) {
            assert(next[list.len() as int] == base + suffixes[0]);
        }
        assert(next.contains(base + suffixes[0]));
        lemma_add_suffixed(next, base, suffixes.drop_first());
        let all = add_suffixed(list, base, suffixes);
        assert forall|i: int| 0 <= i < list.len() implies all[i] == list[i] by {
            assert(next[i] == list[i]);
        }
        assert forall|k: int| 0 <= k < suffixes.len() implies all.contains(base + #[trigger] suffixes[k]) by {
            if k == 0 {
                let w = choose|w: int| 0 <= w < next.len() && next[w] == base + suffixes[0];
                assert(all[w] == next[w]);
            } else {
                assert(suffixes.drop_first()[k - 1] == suffixes[k]);
            }
        }
    }
}

/// The candidates of a probe are distinct; the advertised endpoint comes
/// first; and every path suffix is tried on the base url without trailing
/// slashes.
pub proof fn lemma_probe_candidates(base_url: Seq<char>, advertised: Option<Seq<char>>)
    ensures
        distinct(probe_candidates(base_url, advertised)),
        advertised matches Some(u) ==> probe_candidates(base_url, advertised)[0] == u,
        forall|k: int| 0 <= k < path_suffixes().len() ==> probe_candidates(base_url, advertised).contains(
            trim_end_char(base_url, '/') + #[trigger] path_suffixes()[k],
        ),
{
    let start = match advertised {
        Some(u) => seq![u],
        None => Seq::<Seq<char>>::empty(),
    };
    lemma_add_suffixed(start, trim_end_char(base_url, '/'), path_suffixes());
    if advertised is Some {
        assert(start[0] == advertised->0);
    }
}

} // verus!
