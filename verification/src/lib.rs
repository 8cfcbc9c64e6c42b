//! Converts CSV text into a JSON array of objects, one object per data row,
//! keyed by the header row's column names.
//!
//! The conversion is a single pipeline: decode the bytes as UTF-8, tokenize
//! the text as CSV with the first record as the header row, pair each later
//! record's fields with the headers by position, and serialize the resulting
//! records as a JSON array.  Each stage's failure is its own error kind, and
//! any failure aborts the whole conversion.  An input with no records at all
//! (empty, or blank lines only) yields the empty JSON array, as does a
//! header-only input; the serializer writes each object's keys in sorted
//! order, not header order.

use vstd::prelude::*;

pub mod ext;
pub mod parser;
pub mod records;

use crate::ext::{bytes_as_str, chars_of, json_of, to_json, utf8_decode, utf8_valid_prefix};
use crate::parser::{csv_rows_of, parse_csv, CsvParseError};
use crate::records::{build_records, records_of};

verus! {

/// Why a conversion failed; each variant carries the failing stage's detail.
#[derive(Debug, PartialEq, Eq)]
pub enum CsvToJsonError {
    /// The input bytes are not valid UTF-8; the payload is the length of the
    /// longest valid prefix.
    Utf8Error(usize),
    /// The text is not well-formed CSV.
    CsvError(CsvParseError),
    /// The serializer itself failed; the payload is its diagnostic.  The
    /// conversion never produces it — serializing these records cannot fail —
    /// but the error model keeps the kind distinct and reportable.
    SerdeJsonError(String),
}

impl CsvToJsonError {
    /// A short description of the error's kind.
    pub fn message(&self) -> (m: &'static str)
        ensures
            self is Utf8Error ==> m@ == "UTF-8 encoding error"@,
            self is CsvError ==> m@ == "CSV processing error"@,
            self is SerdeJsonError ==> m@ == "JSON serialization error"@,
    {
        match self {
            CsvToJsonError::Utf8Error(_) => "UTF-8 encoding error",
            CsvToJsonError::CsvError(_) => "CSV processing error",
            CsvToJsonError::SerdeJsonError(_) => "JSON serialization error",
        }
    }
}

/// What `csv_to_json` returns for the given input bytes: decoding, CSV
/// tokenization, and header pairing each pin the outcome in turn.
pub open spec fn conversion_spec(bytes: Seq<u8>, r: Result<String, CsvToJsonError>) -> bool {
    match utf8_decode(bytes) {
        None => r matches Err(CsvToJsonError::Utf8Error(n)) && n as nat == utf8_valid_prefix(
            bytes,
        ) && n <= bytes.len(),
        Some(text) => match csv_rows_of(text) {
            Err(e) => r == Err::<String, CsvToJsonError>(CsvToJsonError::CsvError(e)),
            Ok(rows) => r matches Ok(out) && out@ == json_of(records_of(rows)) && (records_of(
                rows,
            ).len() == 0 ==> out@ == "[]"@),
        },
    }
}

/// Converts raw CSV bytes into JSON text: a JSON array with one object per
/// data row, whose keys are the header row's column names and whose values
/// are that row's fields, all as JSON strings.
///
/// The bytes must be valid UTF-8, else `Utf8Error` carrying the length of the
/// longest valid prefix; the text must tokenize as CSV, else `CsvError`; on
/// any input that decodes and tokenizes, the conversion succeeds.  A row
/// shorter than the header row yields an object without the trailing keys, a
/// longer one has its extra fields dropped, and a header repeated in the
/// header row keeps the value of its last paired occurrence.
pub fn csv_to_json(data: Vec<u8>) -> (r: Result<String, CsvToJsonError>)
    ensures
        conversion_spec(data@, r),
        data@.len() == 0 ==> (r matches Ok(out) && out@ == "[]"@),
{
    let text = match bytes_as_str(&data) {
        Ok(s) => s,
        Err(n) => {
            return Err(CsvToJsonError::Utf8Error(n));
        },
    };
    let chars = chars_of(text);
    let rows = match parse_csv(&chars) {
        Ok(rows) => rows,
        Err(e) => {
            return Err(CsvToJsonError::CsvError(e));
        },
    };
    let records = build_records(&rows);
    match to_json(&records) {
        Ok(out) => Ok(out),
        Err(m) => Err(CsvToJsonError::SerdeJsonError(m)),
    }
}

} // verus!
