use vstd::prelude::*;
use crate::csv_text::{csv_records, csv_text, no_empty_record, read_csv_records, write_csv};
use crate::number::{
    decimal, decimal_int, i64_text, lemma_decimal, lemma_parse_decimal, parse_i64,
    parsed_i64,
};
use crate::text::{is_digit, lemma_trim_unchanged, trim, trimmed};

verus! {

/// One registered MCP endpoint.
#[derive(Debug, PartialEq, Eq)]
pub struct Endpoint {
    pub url: String,
    pub description: String,
    /// Seeded entries are trusted; submitted ones are not.
    pub trusted: bool,
    /// Seconds since the Unix epoch at submission.
    pub submitted_at: i64,
}

pub ghost struct EndpointView {
    pub url: Seq<char>,
    pub description: Seq<char>,
    pub trusted: bool,
    pub submitted_at: i64,
}

impl View for Endpoint {
    type V = EndpointView;

    open spec fn view(&self) -> EndpointView {
        EndpointView {
            url: self.url@,
            description: self.description@,
            trusted: self.trusted,
            submitted_at: self.submitted_at,
        }
    }
}

impl DeepView for Endpoint {
    type V = EndpointView;

    open spec fn deep_view(&self) -> EndpointView {
        self@
    }
}

impl Clone for Endpoint {
    fn clone(&self) -> (r: Self)
        ensures
            r@ == self@,
    {
        Endpoint {
            url: self.url.clone(),
            description: self.description.clone(),
            trusted: self.trusted,
            submitted_at: self.submitted_at,
        }
    }
}

// ---------------------------------------------------------------------------
// Records read from the data file
// ---------------------------------------------------------------------------

/// The endpoint that one CSV record describes: at least four fields, each
/// trimmed; the url must not be empty; `trusted` is the field `1`; a
/// timestamp that does not parse is 0.
pub open spec fn endpoint_of_fields(f: Seq<Seq<char>>) -> Option<EndpointView> {
    if f.len() < 4 || trim(f[0]).len() == 0 {
        None
    } else {
        Some(
            EndpointView {
                url: trim(f[0]),
                description: trim(f[1]),
                trusted: trim(f[2]) == "1"@,
                submitted_at: match parsed_i64(trim(f[3])) {
                    Some(n) => n,
                    None => 0,
                },
            },
        )
    }
}

/// The endpoints that a sequence of read results gives, in order; failed
/// reads and unusable records are skipped.
pub open spec fn endpoints_of_records(rs: Seq<Option<Seq<Seq<char>>>>) -> Seq<EndpointView>
    decreases rs.len(),
{
    if rs.len() == 0 {
        Seq::empty()
    } else {
        let prev = endpoints_of_records(rs.drop_last());
        match rs.last() {
            Some(f) => match endpoint_of_fields(f) {
                Some(e) => prev.push(e),
                None => prev,
            },
            None => prev,
        }
    }
}

fn field_text(v: &Vec<String>, i: usize) -> (s: String)
    requires
        i < v.len(),
    ensures
        s@ == trim(v@[i as int]@),
{
    trimmed(v[i].as_str())
}

/// The endpoint of one record, as `endpoint_of_fields` says.
pub fn endpoint_from_fields(fields: &Vec<String>) -> (r: Option<Endpoint>)
    ensures
        match r {
            Some(e) => endpoint_of_fields(fields.deep_view()) == Some(e@),
            None => endpoint_of_fields(fields.deep_view()) is None,
        },
{
    if fields.len() < 4 {
        return None;
    }
    let url = field_text(fields, 0);
    if url.as_str().is_empty() {
        return None;
    }
    let description = field_text(fields, 1);
    let flag = field_text(fields, 2);
    let one = "1".to_owned();
    let stamp = field_text(fields, 3);
    let submitted_at = match parse_i64(stamp.as_str()) {
        Some(n) => n,
        None => 0,
    };
    Some(Endpoint { url, description, trusted: flag == one, submitted_at })
}

/// The endpoints of the records read from the data file, skipping failed
/// reads, records with fewer than four fields and records without a url.
pub fn endpoints_from_records(records: &Vec<Option<Vec<String>>>) -> (eps: Vec<Endpoint>)
    ensures
        eps.deep_view() == endpoints_of_records(records.deep_view()),
{
    let mut eps: Vec<Endpoint> = Vec::new();
    let mut i: usize = 0;
    while i < records.len()
        invariant
            0 <= i <= records.len(),
            eps.deep_view() == endpoints_of_records(records.deep_view().take(i as int)),
        decreases records.len() - i,
    {
        assert(records.deep_view().take(i + 1).drop_last() == records.deep_view().take(i as int));
        match &records[i] {
            Some(fields) => match endpoint_from_fields(fields) {
                Some(e) => {
                    eps.push(e);
                },
                None => {},
            },
            None => {},
        }
        i = i + 1;
    }
    assert(records.deep_view().take(records.len() as int) == records.deep_view());
    eps
}

/// The endpoints stored in the bytes of a data file. Reading back what
/// `save_endpoints` wrote gives the same endpoints, in order, where each of
/// them has a non-empty url and no white space at either end of its url
/// and description (as every endpoint that a load makes).
pub fn load_endpoints(bytes: &[u8]) -> (eps: Vec<Endpoint>)
    ensures
        eps.deep_view() == endpoints_of_records(csv_records(bytes@)),
        forall|saved: Seq<EndpointView>|
            (forall|i: int| 0 <= i < saved.len() ==> is_loadable(#[trigger] saved[i])) && bytes@
                == #[trigger] saved_text(saved) ==> eps.deep_view() == saved,
{
    let records = read_csv_records(bytes);
    proof {
        assert forall|saved: Seq<EndpointView>|
            (forall|i: int| 0 <= i < saved.len() ==> is_loadable(#[trigger] saved[i])) && bytes@
                == #[trigger] saved_text(saved) implies endpoints_of_records(
            records.deep_view(),
        ) == saved by {
            let rows = seq![header_fields()] + rows_of_endpoints(saved);
            assert(no_empty_record(rows)) by {
                assert forall|i: int| 0 <= i < rows.len() implies (#[trigger] rows[i]).len() >= 1 by {
                    if i > 0 {
                        assert(rows[i] == fields_of_endpoint(saved[i - 1]));
                    }
                }
            }
            assert(bytes@ == csv_text(rows));
            assert(records.deep_view() =~= stored_records(saved));
            lemma_rows_round_trip(saved);
        }
    }
    endpoints_from_records(&records)
}

// ---------------------------------------------------------------------------
// Records written to the data file
// ---------------------------------------------------------------------------

pub open spec fn header_fields() -> Seq<Seq<char>> {
    seq!["url"@, "description"@, "trusted"@, "submitted_at"@]
}

/// The record that stores an endpoint.
pub open spec fn fields_of_endpoint(e: EndpointView) -> Seq<Seq<char>> {
    seq![
        e.url,
        e.description,
        if e.trusted {
            "1"@
        } else {
            "0"@
        },
        decimal_int(e.submitted_at as int),
    ]
}

pub open spec fn rows_of_endpoints(eps: Seq<EndpointView>) -> Seq<Seq<Seq<char>>> {
    Seq::new(eps.len(), |i: int| fields_of_endpoint(eps[i]))
}

/// The record that stores `e`.
pub fn endpoint_fields(e: &Endpoint) -> (fields: Vec<String>)
    ensures
        fields.deep_view() == fields_of_endpoint(e@),
{
    let mut fields: Vec<String> = Vec::new();
    fields.push(e.url.clone());
    fields.push(e.description.clone());
    fields.push(
        if e.trusted {
            "1".to_owned()
        } else {
            "0".to_owned()
        },
    );
    fields.push(i64_text(e.submitted_at));
    assert(fields.deep_view() =~= fields_of_endpoint(e@));
    fields
}

/// Appends to `rows` the records that store `eps`, one per endpoint, in order.
fn push_endpoint_rows(rows: &mut Vec<Vec<String>>, eps: &Vec<Endpoint>)
    ensures
        final(rows).deep_view() == old(rows).deep_view() + rows_of_endpoints(eps.deep_view()),
{
    let ghost start = rows.deep_view();
    let mut i: usize = 0;
    while i < eps.len()
        invariant
            0 <= i <= eps.len(),
            rows.deep_view() == start + rows_of_endpoints(eps.deep_view().take(i as int)),
        decreases eps.len() - i,
    {
        let ghost before = rows.deep_view();
        let fields = endpoint_fields(&eps[i]);
        rows.push(fields);
        proof {
            let want = start + rows_of_endpoints(eps.deep_view().take(i + 1));
            assert forall|k: int| 0 <= k < want.len() implies #[trigger] rows.deep_view()[k] == want[k] by {
                if k < before.len() {
                    assert(rows.deep_view()[k] == rows@[k].deep_view());
                    assert(before[k] == rows@[k].deep_view());
                } else {
                    assert(eps.deep_view().take(i + 1)[i as int] == eps@[i as int]@);
                }
            }
            assert(rows.deep_view() =~= want);
        }
        i = i + 1;
    }
    assert(eps.deep_view().take(eps.len() as int) == eps.deep_view());
}

/// The records that store `eps`, one per endpoint, in order.
pub fn endpoint_rows(eps: &Vec<Endpoint>) -> (rows: Vec<Vec<String>>)
    ensures
        rows.deep_view() == rows_of_endpoints(eps.deep_view()),
{
    let mut rows: Vec<Vec<String>> = Vec::new();
    push_endpoint_rows(&mut rows, eps);
    assert(rows.deep_view() =~= rows_of_endpoints(eps.deep_view()));
    rows
}

/// The bytes of the data file that stores `eps`: the header record, then
/// one record per endpoint.
pub open spec fn saved_text(eps: Seq<EndpointView>) -> Seq<u8> {
    csv_text(seq![header_fields()] + rows_of_endpoints(eps))
}

/// The text of the data file that stores `eps`: the header record, then one
/// record per endpoint.
pub fn save_endpoints(eps: &Vec<Endpoint>) -> (bytes: Vec<u8>)
    ensures
        bytes@ == saved_text(eps.deep_view()),
{
    let mut header: Vec<String> = Vec::new();
    header.push("url".to_owned());
    header.push("description".to_owned());
    header.push("trusted".to_owned());
    header.push("submitted_at".to_owned());
    assert(header.deep_view() =~= header_fields());
    let mut rows: Vec<Vec<String>> = Vec::new();
    rows.push(header);
    assert(rows.deep_view() =~= seq![header_fields()]);
    push_endpoint_rows(&mut rows, eps);
    let ghost body = rows_of_endpoints(eps.deep_view());
    assert(rows.deep_view() == seq![header_fields()] + body);
    assert forall|j: int| 0 <= j < rows.len() implies (#[trigger] rows@[j])@.len() == rows@[0]@.len() by {
        assert(rows.deep_view()[j] == rows@[j].deep_view());
        assert(rows.deep_view()[0] == rows@[0].deep_view());
        if j > 0 {
            assert(rows.deep_view()[j] == body[j - 1]);
            assert(body[j - 1] == fields_of_endpoint(eps.deep_view()[j - 1]));
        }
        assert(rows.deep_view()[j].len() == 4);
    }
    write_csv(&rows)
}


/// An endpoint as a load gives it: a non-empty url and a description that
/// are their own trim.
pub open spec fn is_loadable(e: EndpointView) -> bool {
    &&& e.url.len() > 0
    &&& trim(e.url) == e.url
    &&& trim(e.description) == e.description
}

pub open spec fn stored_records(eps: Seq<EndpointView>) -> Seq<Option<Seq<Seq<char>>>> {
    Seq::new(eps.len(), |i: int| Some(fields_of_endpoint(eps[i])))
}

proof fn lemma_endpoint_round_trip(e: EndpointView)
    requires
        is_loadable(e),
    ensures
        endpoint_of_fields(fields_of_endpoint(e)) == Some(e),
{
    reveal_strlit("1");
    reveal_strlit("0");
    lemma_trim_unchanged("1"@);
    lemma_trim_unchanged("0"@);
    assert("0"@ != "1"@) by {
        assert("0"@[0] != "1"@[0]);
    }
    lemma_parse_decimal(e.submitted_at);
    let d = decimal_int(e.submitted_at as int);
    if e.submitted_at < 0 {
        lemma_decimal((-(e.submitted_at as int)) as nat);
        assert(d.last() == decimal((-(e.submitted_at as int)) as nat).last());
        assert(is_digit(d.last()));
    } else {
        lemma_decimal(e.submitted_at as nat);
        assert(is_digit(d[0]));
        assert(is_digit(d.last()));
    }
    lemma_trim_unchanged(d);
}

/// Saving and loading round-trip: reading back the records that store a
/// list of endpoints gives the same list, for endpoints whose url is not
/// empty and whose url and description carry no white space at either end
/// (as every endpoint that a load produces).
pub proof fn lemma_rows_round_trip(eps: Seq<EndpointView>)
    requires
        forall|i: int| 0 <= i < eps.len() ==> is_loadable(#[trigger] eps[i]),
    ensures
        endpoints_of_records(stored_records(eps)) == eps,
    decreases eps.len(),
{
    if eps.len() > 0 {
        let rest = eps.drop_last();
        lemma_rows_round_trip(rest);
        assert(stored_records(eps).drop_last() == stored_records(rest));
        lemma_endpoint_round_trip(eps.last());
        assert(eps == rest.push(eps.last()));
    } else {
        assert(endpoints_of_records(stored_records(eps)) == eps);
    }
}

} // verus!
