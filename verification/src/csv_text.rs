use vstd::prelude::*;

verus! {

// ---------------------------------------------------------------------------
// Reading
// ---------------------------------------------------------------------------

/// The records that the `csv` crate reads from `bytes` with a header line
/// (skipped) and flexible field counts: each one either its fields, or
/// `None` where the crate reported an error for it (such as text that is not
/// UTF-8).
pub uninterp spec fn csv_records(bytes: Seq<u8>) -> Seq<Option<Seq<Seq<char>>>>;

/// Every record of `rows` holds at least one field.
pub open spec fn no_empty_record(rows: Seq<Seq<Seq<char>>>) -> bool {
    forall|i: int| 0 <= i < rows.len() ==> (#[trigger] rows[i]).len() >= 1
}

/// Trusted: reads `bytes` with `csv::ReaderBuilder::new().flexible(true)`
/// (headers on, the default) and drains `Reader::records`, turning each
/// record into its fields and each error into `None`. The result depends
/// on `bytes` alone; it is named `csv_records`, whose content is not stated
/// in general. What is stated is that the reader gives back what the
/// crate's writer wrote: for records of at least one field each, written
/// one after another with the default writer settings, the reader returns
/// every record after the first (the header) unchanged. (The writer quotes
/// every field holding `,`, `"`, `\r` or `\n`, doubling quotes inside, and
/// writes a record of one empty field as `""`; the reader, with its default
/// settings, undoes exactly that. A record of no fields would be read back
/// as one empty field, hence the first condition. The reader also drops a
/// byte-order mark at the very start of the input, and then skips the line
/// left empty where the first record was a lone U+FEFF field, which would
/// turn the second record into the header; hence the second condition.)
#[verifier::external_body]
pub(crate) fn read_csv_records(bytes: &[u8]) -> (records: Vec<Option<Vec<String>>>)
    ensures
        records.deep_view() == csv_records(bytes@),
        forall|rows: Seq<Seq<Seq<char>>>|
            rows.len() >= 1 && no_empty_record(rows) && rows[0] != seq![seq!['\u{feff}']] && bytes@
                == #[trigger] csv_text(rows)
                ==> records.deep_view() == Seq::new(
                (rows.len() - 1) as nat,
                |i: int| Some(rows[i + 1]),
            ),
{
    let mut reader = csv::ReaderBuilder::new().flexible(true).from_reader(bytes);
    reader.records().map(|r| r.ok().map(|rec| rec.iter().map(String::from).collect())).collect()
}

// ---------------------------------------------------------------------------
// Writing
// ---------------------------------------------------------------------------

/// A `csv::Writer` with the default settings that writes into a byte
/// vector in memory.
#[verifier::external_body]
pub struct CsvSink {
    writer: csv::Writer<Vec<u8>>,
}

/// Everything a `csv::Writer` into memory has been given to write so far,
/// as bytes.
pub uninterp spec fn csv_output(w: CsvSink) -> Seq<u8>;

/// The number of fields that the first record written fixed for all later
/// ones, if a record was written.
pub uninterp spec fn csv_width(w: CsvSink) -> Option<nat>;

/// Whether no record is half written: the writer is fresh or its last
/// record was accepted, so that the fields written so far and the quoting
/// state are reset.
pub uninterp spec fn csv_at_record_start(w: CsvSink) -> bool;

/// The bytes that a `csv::Writer` with default settings (`,` delimiter,
/// `"` quoting where necessary, `\n` terminator) emits for one record.
pub uninterp spec fn csv_record_bytes(fields: Seq<Seq<char>>) -> Seq<u8>;

/// Trusted: `csv::Writer::from_writer(Vec::new())`, a writer with the
/// default settings into an empty buffer; nothing written, no width fixed.
#[verifier::external_body]
pub(crate) fn new_csv_writer() -> (w: CsvSink)
    ensures
        csv_output(w) == Seq::<u8>::empty(),
        csv_width(w) is None,
        csv_at_record_start(w),
{
    CsvSink { writer: csv::Writer::from_writer(Vec::new()) }
}

/// Trusted: `csv::Writer::write_record`. As the crate's source shows for a
/// non-flexible writer into memory with no record half written, the record
/// is refused exactly when its field count differs from the first record's
/// (the count is checked only after the fields were written); an accepted
/// record appends its encoding and leaves the writer at a record start.
/// Nothing is stated of the writer after a refusal, nor of a write that
/// follows one: the refused fields stay counted there.
#[verifier::external_body]
pub(crate) fn write_csv_record(w: &mut CsvSink, fields: &Vec<String>) -> (ok: bool)
    ensures
        csv_at_record_start(*old(w)) ==> ok == (csv_width(*old(w)) is None || csv_width(*old(w))
            == Some(fields@.len())),
        csv_at_record_start(*old(w)) && ok ==> csv_output(*final(w)) == csv_output(*old(w))
            + csv_record_bytes(fields.deep_view()),
        csv_at_record_start(*old(w)) && ok ==> csv_width(*final(w)) == Some(fields@.len()),
        csv_at_record_start(*old(w)) && ok ==> csv_at_record_start(*final(w)),
{
    w.writer.write_record(fields).is_ok()
}

/// Trusted: `csv::Writer::into_inner`, which flushes into the in-memory
/// buffer (which cannot fail) and hands the buffer back.
#[verifier::external_body]
pub(crate) fn finish_csv(w: CsvSink) -> (bytes: Vec<u8>)
    ensures
        bytes@ == csv_output(w),
{
    match w.writer.into_inner() {
        Ok(bytes) => bytes,
        Err(_) => Vec::new(),
    }
}

/// The bytes of several records written one after another.
pub open spec fn csv_text(rows: Seq<Seq<Seq<char>>>) -> Seq<u8>
    decreases rows.len(),
{
    if rows.len() == 0 {
        Seq::empty()
    } else {
        csv_text(rows.drop_last()) + csv_record_bytes(rows.last())
    }
}

/// Writes `rows`, which all have the same number of fields, as CSV.
pub fn write_csv(rows: &Vec<Vec<String>>) -> (bytes: Vec<u8>)
    requires
        forall|i: int| 0 <= i < rows.len() ==> (#[trigger] rows@[i])@.len() == rows@[0]@.len(),
    ensures
        bytes@ == csv_text(rows.deep_view()),
{
    let mut w = new_csv_writer();
    let mut i: usize = 0;
    while i < rows.len()
        invariant
            0 <= i <= rows.len(),
            forall|j: int| 0 <= j < rows.len() ==> (#[trigger] rows@[j])@.len() == rows@[0]@.len(),
            csv_output(w) == csv_text(rows.deep_view().take(i as int)),
            csv_at_record_start(w),
            i == 0 ==> csv_width(w) is None,
            i > 0 ==> csv_width(w) == Some(rows@[0]@.len()),
        decreases rows.len() - i,
    {
        let ok = write_csv_record(&mut w, &rows[i]);
        assert(ok);
        assert(rows.deep_view().take(i + 1).drop_last() == rows.deep_view().take(i as int));
        i = i + 1;
    }
    assert(rows.deep_view().take(rows.len() as int) == rows.deep_view());
    finish_csv(w)
}

} // verus!
