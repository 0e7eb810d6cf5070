//! Reading raw rows out of comma-separated source bytes.
//!
//! The decomposition of the bytes into records of text fields is done by the
//! `csv` crate, configured so that every row — the first included — is a data
//! row and rows may differ in field count. What that decomposition yields is
//! named, not restated: `csv_parse_of` stands for the rows the parser
//! produces from given bytes, or for nothing when it fails.

use vstd::prelude::*;
use crate::ReadError;

verus! {

/// The view of one raw row: its fields as character sequences.
pub open spec fn row_view(row: Seq<String>) -> Seq<Seq<char>> {
    row.map_values(|f: String| f@)
}

/// The view of a sequence of raw rows.
pub open spec fn rows_view(rows: Seq<Vec<String>>) -> Seq<Seq<Seq<char>>> {
    rows.map_values(|row: Vec<String>| row_view(row@))
}

/// What the comma-separated parser makes of the bytes: the rows of fields it
/// yields, in source order, or nothing when the bytes cannot be decomposed.
/// A function of the bytes alone.
pub uninterp spec fn csv_parse_of(bytes: Seq<u8>) -> Option<Seq<Seq<Seq<char>>>>;

#[verifier::external_type_specification]
#[verifier::external_body]
pub struct ExCsvError(csv::Error);

/// Relies on csv::Reader, with headers off and flexible field counts: it
/// splits the bytes into records of text fields, every row a data row, in
/// source order, and fails exactly when the bytes cannot be decomposed into
/// such records.
#[verifier::external_body]
fn csv_records(bytes: &[u8]) -> (r: Result<Vec<Vec<String>>, csv::Error>)
    ensures
        r is Ok <==> csv_parse_of(bytes@) is Some,
        r matches Ok(rows) ==> csv_parse_of(bytes@) == Some(rows_view(rows@)),
{
    let mut reader = csv::ReaderBuilder::new().has_headers(false).flexible(true).from_reader(
        bytes,
    );
    let mut rows: Vec<Vec<String>> = Vec::new();
    for record in reader.records() {
        match record {
            Ok(rec) => rows.push(rec.iter().map(|field| field.to_string()).collect()),
            Err(e) => return Err(e),
        }
    }
    Ok(rows)
}

/// Reads the raw rows out of comma-separated source bytes, in source order.
///
/// Fails with `ParseError` exactly when the bytes cannot be decomposed into
/// rows of fields; a malformed grade value inside a field is no such failure.
pub fn extract_data_csv(bytes: &[u8]) -> (r: Result<Vec<Vec<String>>, ReadError>)
    ensures
        r is Ok <==> csv_parse_of(bytes@) is Some,
        r matches Ok(rows) ==> csv_parse_of(bytes@) == Some(rows_view(rows@)),
        r matches Err(e) ==> e == ReadError::ParseError,
{
    match csv_records(bytes) {
        Ok(rows) => Ok(rows),
        Err(_) => Err(ReadError::ParseError),
    }
}

} // verus!
