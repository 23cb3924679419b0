//! The quote-aware delimited-record engine.
//!
//! Parsing and serializing follow standard quoting rules (a field may be
//! wrapped in double quotes, an embedded quote is doubled, delimiters and
//! line breaks inside quotes do not split a field); both directions are
//! done by the csv crate behind trusted wrappers.  Which fields of each
//! record are kept, and in which order, is verified logic.

use vstd::prelude::*;

use crate::ranges::Interval;
use crate::select::{extract_fields, selected};

verus! {

/// What the csv reader makes of an input: the records (as fields, quotes
/// and escapes resolved) parsed before the first structural fault, and
/// whether the whole input parsed cleanly.
pub uninterp spec fn csv_rows(input: Seq<u8>, delim: u8) -> (Seq<Seq<Seq<char>>>, bool);

/// Relies on `csv::Reader` (no headers, the given single-byte delimiter):
/// reading an in-memory buffer is a function of the bytes and the
/// delimiter alone; records come in input order until the first malformed
/// record, which ends the parse.
#[verifier::external_body]
fn parse_records(input: &[u8], delim: u8) -> (r: (Vec<Vec<String>>, Option<String>))
    ensures
        r.0.deep_view() == csv_rows(input@, delim).0,
        (r.1 is None) == csv_rows(input@, delim).1,
{
    let mut rdr =
        csv::ReaderBuilder::new().delimiter(delim).has_headers(false).from_reader(input);
    let mut rows: Vec<Vec<String>> = Vec::new();
    for rec in rdr.records() {
        match rec {
            Ok(sr) => rows.push(sr.iter().map(|f| f.to_string()).collect()),
            Err(e) => return (rows, Some(e.to_string())),
        }
    }
    (rows, None)
}

/// What the csv writer makes of one record: the delimited line (fields
/// quoted as needed, terminated by a line break), or nothing where the
/// writer refuses the record.
pub uninterp spec fn csv_line(fields: Seq<Seq<char>>, delim: u8) -> Option<Seq<u8>>;

/// Relies on `csv::Writer` (the given single-byte delimiter, in-memory
/// buffer): serializing one record is a function of the fields and the
/// delimiter alone.
#[verifier::external_body]
fn write_record(fields: &Vec<String>, delim: u8) -> (r: Result<Vec<u8>, String>)
    ensures
        (r is Ok) == (csv_line(fields.deep_view(), delim) is Some),
        r is Ok ==> r.unwrap()@ == csv_line(fields.deep_view(), delim).unwrap(),
{
    let mut wtr = csv::WriterBuilder::new().delimiter(delim).from_writer(Vec::new());
    if let Err(e) = wtr.write_record(fields) {
        return Err(e.to_string());
    }
    match wtr.into_inner() {
        Ok(buf) => Ok(buf),
        Err(e) => Err(e.to_string()),
    }
}

/// A fault while cutting one source.
#[derive(Debug)]
pub enum CutError {
    /// A line of a text-mode source is not well-formed encoded text.
    Encoding,
    /// A malformed delimited record, or a record the writer refused;
    /// carries the engine's own diagnostic text.
    Record(String),
}

impl CutError {
    /// The diagnostic text of this fault.
    pub fn message(&self) -> (r: String)
        ensures
            self is Encoding ==> r@ == "stream did not contain valid UTF-8"@,
            self is Record ==> r == self->Record_0,
    {
        match self {
            CutError::Encoding => "stream did not contain valid UTF-8".to_owned(),
            CutError::Record(m) => m.clone(),
        }
    }
}

/// Field-mode output for a record sequence: each record's kept fields
/// serialized in record order, stopping at the first record the writer
/// refuses; the flag tells whether every record was written.
pub open spec fn spec_field_output(
    rows: Seq<Seq<Seq<char>>>,
    ranges: Seq<Interval>,
    delim: u8,
) -> (Seq<u8>, bool)
    decreases rows.len(),
{
    if rows.len() == 0 {
        (Seq::empty(), true)
    } else {
        match csv_line(selected(rows[0], ranges), delim) {
            None => (Seq::empty(), false),
            Some(line) => {
                let rest = spec_field_output(rows.drop_first(), ranges, delim);
                (line + rest.0, rest.1)
            },
        }
    }
}

/// Cuts one field-mode source: parses the delimited records, keeps from
/// each the fields whose index lies in the union of `ranges` (in record
/// order), and re-serializes them with the same delimiter.  The first
/// malformed record ends the source; records already emitted are kept.
pub fn cut_fields(content: &[u8], ranges: &[Interval], delim: u8) -> (r: (
    Vec<u8>,
    Option<CutError>,
))
    ensures
        ({
            let parsed = csv_rows(content@, delim);
            let written = spec_field_output(parsed.0, ranges@, delim);
            &&& r.0@ == written.0
            &&& (r.1 is None) <==> (parsed.1 && written.1)
        }),
{
    let (rows, parse_err) = parse_records(content, delim);
    let ghost rows_dv = rows.deep_view();
    let mut out: Vec<u8> = Vec::new();
    let mut i: usize = 0;
    proof {
        assert(rows_dv.skip(0) =~= rows_dv);
        assert(Seq::<u8>::empty() + spec_field_output(rows_dv, ranges@, delim).0
            =~= spec_field_output(rows_dv, ranges@, delim).0);
    }
    while i < rows.len()
        invariant
            i <= rows@.len(),
            rows_dv == rows.deep_view(),
            rows_dv == csv_rows(content@, delim).0,
            spec_field_output(rows_dv, ranges@, delim).0 == out@ + spec_field_output(
                rows_dv.skip(i as int),
                ranges@,
                delim,
            ).0,
            spec_field_output(rows_dv, ranges@, delim).1 == spec_field_output(
                rows_dv.skip(i as int),
                ranges@,
                delim,
            ).1,
        decreases rows@.len() - i,
    {
        proof {
            assert(rows_dv.len() == rows@.len());
            assert(rows_dv.skip(i as int)[0] == rows_dv[i as int]);
            assert(rows_dv.skip(i as int).drop_first() =~= rows_dv.skip(i as int + 1));
            assert(rows_dv[i as int] == rows@[i as int].deep_view());
        }
        let kept = extract_fields(&rows[i], ranges);
        match write_record(&kept, delim) {
            Err(m) => {
                proof {
                    assert(csv_line(selected(rows_dv[i as int], ranges@), delim) is None);
                    let tail_out = spec_field_output(rows_dv.skip(i as int), ranges@, delim);
                    assert(tail_out.0 =~= Seq::<u8>::empty());
                    assert(!tail_out.1);
                    assert(out@ + Seq::<u8>::empty() =~= out@);
                }
                return (out, Some(CutError::Record(m)));
            },
            Ok(mut line) => {
                let ghost out_old = out@;
                let ghost line_v = line@;
                out.append(&mut line);
                proof {
                    let rest = spec_field_output(rows_dv.skip(i as int + 1), ranges@, delim);
                    assert(out@ =~= out_old + line_v);
                    assert(out_old + (line_v + rest.0) =~= out@ + rest.0);
                }
            },
        }
        i += 1;
    }
    proof {
        assert(rows_dv.skip(rows_dv.len() as int) =~= Seq::<Seq<Seq<char>>>::empty());
        assert(out@ + Seq::<u8>::empty() =~= out@);
    }
    match parse_err {
        None => (out, None),
        Some(m) => (out, Some(CutError::Record(m))),
    }
}

} // verus!
