use vstd::prelude::*;
use crate::csv_text::{csv_record_bytes, csv_text, write_csv};
use crate::json::{find_member, member, Json};
use crate::number::{decimal, u64_text};
use crate::probe::{ProbeResult, ProbeView};
use crate::store::header_fields;
use crate::text::{lemma_push_deep_view, push_str};

verus! {

// ---------------------------------------------------------------------------
// Input records
// ---------------------------------------------------------------------------

/// One row of the spider's input: the endpoint's url and the other columns
/// by name.
#[derive(Debug, PartialEq, Eq)]
pub struct InputRecord {
    pub url: String,
    pub extra: Vec<(String, Json)>,
}

/// The text in column `key`, where the column exists and holds text.
pub open spec fn column_text(extra: Seq<(String, Json)>, key: Seq<char>) -> Option<Seq<char>> {
    match member(extra, key) {
        Some(Json::Text(s)) => Some(s@),
        _ => None,
    }
}

fn column(extra: &Vec<(String, Json)>, key: &str) -> (r: Option<String>)
    ensures
        match r {
            Some(s) => column_text(extra@, key@) == Some(s@),
            None => column_text(extra@, key@) is None,
        },
{
    match find_member(extra, key) {
        Some(v) => match v.as_str() {
            Some(s) => Some(s.clone()),
            None => None,
        },
        None => None,
    }
}

/// Whether a record is marked dead: its `alive` column holds the text `0`.
pub open spec fn marked_dead(extra: Seq<(String, Json)>) -> bool {
    column_text(extra, "alive"@) == Some("0"@)
}

/// The description that a record brings, or empty text.
pub open spec fn original_description(extra: Seq<(String, Json)>) -> Seq<char> {
    match column_text(extra, "description"@) {
        Some(d) => d,
        None => Seq::empty(),
    }
}

impl InputRecord {
    /// Whether an earlier scan marked this endpoint dead.
    pub fn is_marked_dead(&self) -> (dead: bool)
        ensures
            dead == marked_dead(self.extra@),
    {
        match column(&self.extra, "alive") {
            Some(v) => {
                let zero = "0".to_owned();
                v == zero
            },
            None => false,
        }
    }

    /// The description column, or empty text.
    pub fn description(&self) -> (d: String)
        ensures
            d@ == original_description(self.extra@),
    {
        match column(&self.extra, "description") {
            Some(d) => d,
            None => String::new(),
        }
    }
}

/// The records that are not marked dead, in order.
pub open spec fn live_records(rs: Seq<InputRecord>) -> Seq<InputRecord>
    decreases rs.len(),
{
    if rs.len() == 0 {
        Seq::empty()
    } else if marked_dead(rs.last().extra@) {
        live_records(rs.drop_last())
    } else {
        live_records(rs.drop_last()).push(rs.last())
    }
}

/// Drops the records that are marked dead.
pub fn skip_dead(records: Vec<InputRecord>) -> (live: Vec<InputRecord>)
    ensures
        live@ == live_records(records@),
{
    broadcast use vstd::std_specs::vec::axiom_spec_into_iter;

    let ghost all = records@;
    let mut live: Vec<InputRecord> = Vec::new();
    for r in it: records.into_iter()
        invariant
            it.seq() == all,
            live@ == live_records(all.take(it.index() as int)),
    {
        assert(all.take(it.index() + 1).drop_last() == all.take(it.index() as int));
        if !r.is_marked_dead() {
            live.push(r);
        }
    }
    assert(all.take(all.len() as int) == all);
    live
}


// ---------------------------------------------------------------------------
// Descriptions of probed endpoints
// ---------------------------------------------------------------------------

/// The parts joined with `sep` between neighbours.
pub open spec fn join_with(parts: Seq<Seq<char>>, sep: Seq<char>) -> Seq<char>
    decreases parts.len(),
{
    if parts.len() == 0 {
        Seq::empty()
    } else if parts.len() == 1 {
        parts[0]
    } else {
        join_with(parts.drop_last(), sep) + sep + parts.last()
    }
}

/// The facts that a probe adds to a description: the server name where
/// known, the latency and protocol, and for a non-empty tool list its size
/// and its first six names.
pub open spec fn stats_of(p: ProbeView) -> Seq<Seq<char>> {
    (if p.server_name.len() > 0 {
        seq!["server: "@ + p.server_name]
    } else {
        Seq::empty()
    }) + seq!["latency: "@ + decimal(p.latency_ms as nat) + "ms"@, "protocol: "@ + p.protocol_version]
        + match p.tools {
        Some(t) => if t.len() > 0 {
            seq![
                "tools: "@ + decimal(t.len()),
                "first: "@ + join_with(
                    t.take(
                        if t.len() < 6 {
                            t.len() as int
                        } else {
                            6
                        },
                    ),
                    ", "@,
                ),
            ]
        } else {
            Seq::empty()
        },
        None => Seq::empty(),
    }
}

/// The description of a probed endpoint: its original description, if any,
/// then the probe's facts in brackets, separated by ` | `.
pub open spec fn description_for(original: Seq<char>, p: ProbeView) -> Seq<char> {
    join_with(
        (if original.len() > 0 {
            seq![original]
        } else {
            Seq::empty()
        }) + seq!["["@ + join_with(stats_of(p), " | "@) + "]"@],
        " "@,
    )
}

/// Joins the texts with `sep` between neighbours.
pub fn join(parts: &Vec<String>, sep: &str) -> (s: String)
    ensures
        s@ == join_with(parts.deep_view(), sep@),
{
    let mut s = String::new();
    let mut i: usize = 0;
    while i < parts.len()
        invariant
            0 <= i <= parts.len(),
            s@ == join_with(parts.deep_view().take(i as int), sep@),
        decreases parts.len() - i,
    {
        let ghost prefix = parts.deep_view().take(i + 1);
        assert(prefix.drop_last() == parts.deep_view().take(i as int));
        assert(prefix.last() == parts@[i as int]@);
        if i > 0 {
            push_str(&mut s, sep);
        } else {
            assert(parts.deep_view().take(i as int).len() == 0);
        }
        push_str(&mut s, parts[i].as_str());
        i = i + 1;
    }
    assert(parts.deep_view().take(parts.len() as int) == parts.deep_view());
    s
}

fn labelled(label: &str, value: &str) -> (s: String)
    ensures
        s@ == label@ + value@,
{
    let mut s = label.to_owned();
    push_str(&mut s, value);
    s
}

/// The first `n` names, or all of them where there are fewer.
fn first_names(names: &Vec<String>, n: usize) -> (r: Vec<String>)
    ensures
        r.deep_view() == names.deep_view().take(
            if names.len() < n {
                names.len() as int
            } else {
                n as int
            },
        ),
{
    let mut r: Vec<String> = Vec::new();
    let mut i: usize = 0;
    while i < names.len() && i < n
        invariant
            0 <= i <= names.len(),
            i <= n,
            r.deep_view() == names.deep_view().take(i as int),
        decreases names.len() - i,
    {
        let ghost before = r;
        let name = names[i].clone();
        r.push(name);
        proof {
            lemma_push_deep_view(before, r, name);
            assert(r.deep_view() =~= names.deep_view().take(i + 1));
        }
        i = i + 1;
    }
    r
}

/// Describes a probed endpoint for the directory.
pub fn build_description(original_desc: &str, probe: &ProbeResult) -> (d: String)
    ensures
        d@ == description_for(original_desc@, probe@),
{
    let mut parts: Vec<String> = Vec::new();
    if !original_desc.is_empty() {
        parts.push(original_desc.to_owned());
    }
    let mut stats: Vec<String> = Vec::new();
    if !probe.server_name.as_str().is_empty() {
        stats.push(labelled("server: ", probe.server_name.as_str()));
    }
    let mut latency = labelled("latency: ", u64_text(probe.latency_ms).as_str());
    push_str(&mut latency, "ms");
    stats.push(latency);
    stats.push(labelled("protocol: ", probe.protocol_version.as_str()));
    let ghost before_tools = stats.deep_view();
    match &probe.tools {
        Some(tools) => {
            if tools.len() > 0 {
                stats.push(labelled("tools: ", u64_text(tools.len() as u64).as_str()));
                let preview = first_names(tools, 6);
                stats.push(labelled("first: ", join(&preview, ", ").as_str()));
            }
        },
        None => {},
    }
    assert(stats.deep_view() =~= stats_of(probe@));
    if stats.len() > 0 {
        let mut bracket = labelled("[", join(&stats, " | ").as_str());
        push_str(&mut bracket, "]");
        parts.push(bracket);
    }
    assert(parts.deep_view() =~= (if original_desc@.len() > 0 {
        seq![original_desc@]
    } else {
        Seq::<Seq<char>>::empty()
    }) + seq!["["@ + join_with(stats_of(probe@), " | "@) + "]"@]);
    if parts.len() == 0 {
        "MCP server".to_owned()
    } else {
        join(&parts, " ")
    }
}

// ---------------------------------------------------------------------------
// Output records
// ---------------------------------------------------------------------------

/// A row of the spider's output, in the directory's data format.
#[derive(Debug, PartialEq, Eq)]
pub struct McpubRecord {
    pub url: String,
    pub description: String,
    pub trusted: String,
    pub submitted_at: String,
}

impl DeepView for McpubRecord {
    type V = Seq<Seq<char>>;

    open spec fn deep_view(&self) -> Seq<Seq<char>> {
        seq![self.url@, self.description@, self.trusted@, self.submitted_at@]
    }
}

/// The row for a probed record: alive endpoints are described from the
/// probe and marked trusted; dead ones are kept (untrusted, described as
/// dead with their own description or else the probe's error) only where
/// asked.
pub open spec fn output_row(original: Seq<char>, p: ProbeView, keep_dead: bool) -> Option<
    Seq<Seq<char>>,
> {
    if p.alive {
        Some(seq![p.url, description_for(original, p), "1"@, "0"@])
    } else if keep_dead {
        Some(
            seq![
                p.url,
                "[DEAD] "@ + if original.len() > 0 {
                    original
                } else {
                    match p.error {
                        Some(e) => e,
                        None => Seq::empty(),
                    }
                },
                "0"@,
                "0"@,
            ],
        )
    } else {
        None
    }
}

/// The output row for an input record and the result of its probe.
pub fn output_record(input: &InputRecord, probe: &ProbeResult, keep_dead: bool) -> (r: Option<
    McpubRecord,
>)
    ensures
        match r {
            Some(rec) => output_row(original_description(input.extra@), probe@, keep_dead) == Some(
                rec.deep_view(),
            ),
            None => output_row(original_description(input.extra@), probe@, keep_dead) is None,
        },
{
    let original = input.description();
    if probe.alive {
        Some(
            McpubRecord {
                url: probe.url.clone(),
                description: build_description(original.as_str(), probe),
                trusted: "1".to_owned(),
                submitted_at: "0".to_owned(),
            },
        )
    } else if keep_dead {
        let mut description = "[DEAD] ".to_owned();
        if !original.as_str().is_empty() {
            push_str(&mut description, original.as_str());
        } else {
            match &probe.error {
                Some(e) => push_str(&mut description, e.as_str()),
                None => {},
            }
        }
        Some(
            McpubRecord {
                url: probe.url.clone(),
                description,
                trusted: "0".to_owned(),
                submitted_at: "0".to_owned(),
            },
        )
    } else {
        None
    }
}

/// The spider's output file: nothing for no records, else the header row
/// followed by one row per record.
pub open spec fn output_text(records: Seq<Seq<Seq<char>>>) -> Seq<u8> {
    if records.len() == 0 {
        Seq::empty()
    } else {
        csv_text(seq![header_fields()] + records)
    }
}

/// Writes the output records as CSV.
pub fn write_records(records: &Vec<McpubRecord>) -> (bytes: Vec<u8>)
    ensures
        bytes@ == output_text(records.deep_view()),
{
    if records.len() == 0 {
        return Vec::new();
    }
    let mut rows: Vec<Vec<String>> = Vec::new();
    let mut header: Vec<String> = Vec::new();
    header.push("url".to_owned());
    header.push("description".to_owned());
    header.push("trusted".to_owned());
    header.push("submitted_at".to_owned());
    assert(header.deep_view() =~= header_fields());
    rows.push(header);
    assert(rows.deep_view() =~= seq![header_fields()]);
    let mut i: usize = 0;
    while i < records.len()
        invariant
            0 <= i <= records.len(),
            rows.deep_view() == seq![header_fields()] + records.deep_view().take(i as int),
            forall|j: int| 0 <= j < rows.len() ==> (#[trigger] rows@[j])@.len() == 4,
        decreases records.len() - i,
    {
        let r = &records[i];
        let mut row: Vec<String> = Vec::new();
        row.push(r.url.clone());
        row.push(r.description.clone());
        row.push(r.trusted.clone());
        row.push(r.submitted_at.clone());
        let ghost before = rows;
        assert(row.deep_view() =~= r.deep_view());
        rows.push(row);
        proof {
            lemma_push_deep_view(before, rows, row);
            assert(rows.deep_view() =~= seq![header_fields()] + records.deep_view().take(i + 1));
        }
        i = i + 1;
    }
    assert(records.deep_view().take(records.len() as int) == records.deep_view());
    write_csv(&rows)
}

/// The bracketed facts of a probe.
pub open spec fn stats_block(p: ProbeView) -> Seq<char> {
    "["@ + join_with(stats_of(p), " | "@) + "]"@
}

/// A probed endpoint's description keeps its original description in
/// front, then a space and the probe's facts in brackets; without an
/// original description it is the bracketed facts alone. The facts always
/// start with the server name (where known) or the latency.
pub proof fn lemma_description_layout(original: Seq<char>, p: ProbeView)
    ensures
        description_for(original, p) == if original.len() > 0 {
            original + " "@ + stats_block(p)
        } else {
            stats_block(p)
        },
        stats_of(p).len() >= 2,
        stats_of(p)[if p.server_name.len() > 0 { 1int } else { 0int }] == "latency: "@ + decimal(
            p.latency_ms as nat,
        ) + "ms"@,
{
    let parts = (if original.len() > 0 {
        seq![original]
    } else {
        Seq::<Seq<char>>::empty()
    }) + seq![stats_block(p)];
    if original.len() > 0 {
        assert(parts.drop_last() =~= seq![original]);
        assert(parts.last() == stats_block(p));
        assert(join_with(seq![original], " "@) == original);
        assert(join_with(parts, " "@) == join_with(parts.drop_last(), " "@) + " "@ + parts.last());
    } else {
        assert(parts =~= seq![stats_block(p)]);
        assert(join_with(seq![stats_block(p)], " "@) == stats_block(p));
    }
}


/// The header is written once, in front: no records give an empty file; one
/// record gives the header row and then that record's row; and each further
/// record appends exactly its own row, nothing more.
pub proof fn lemma_output_header_once(records: Seq<Seq<Seq<char>>>, r: Seq<Seq<char>>)
    ensures
        output_text(Seq::empty()) == Seq::<u8>::empty(),
        output_text(seq![r]) == csv_record_bytes(header_fields()) + csv_record_bytes(r),
        records.len() >= 1 ==> output_text(records.push(r)) == output_text(records)
            + csv_record_bytes(r),
{
    let one = seq![header_fields()] + seq![r];
    assert(one.drop_last() == seq![header_fields()]);
    assert(seq![header_fields()].drop_last() == Seq::<Seq<Seq<char>>>::empty());
    assert(csv_text(seq![header_fields()]) == csv_text(Seq::<Seq<Seq<char>>>::empty())
        + csv_record_bytes(header_fields()));
    assert(csv_text(Seq::<Seq<Seq<char>>>::empty()) == Seq::<u8>::empty());
    assert(csv_text(seq![header_fields()]) =~= csv_record_bytes(header_fields()));
    assert(output_text(seq![r]) == csv_text(one));
    if records.len() >= 1 {
        let all = seq![header_fields()] + records.push(r);
        assert(all.drop_last() =~= seq![header_fields()] + records);
        assert(all.last() == r);
    }
}

} // verus!
