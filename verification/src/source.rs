//! The record source: delimited records, read from bytes by the `csv` crate, and the
//! key that each of them gives.

use crate::decimal::{decimal, push_decimal};
use crate::error::{fails_validation, HistError};
use vstd::prelude::*;
use vstd::string::*;

verus! {

/// `csv::Reader`, with nothing said of what is inside: a reader of records.
#[verifier::external_type_specification]
#[verifier::external_body]
#[verifier::reject_recursive_types(R)]
pub struct ExReader<R>(csv::Reader<R>);

/// `csv::StringRecord`, with nothing said of what is inside: the fields of one record.
#[verifier::external_type_specification]
#[verifier::external_body]
pub struct ExStringRecord(csv::StringRecord);

/// What `csv` makes of `data`, read with `delimiter` between the fields and, with
/// `has_headers`, without its first record: the outcome of each read in turn, until the
/// input is exhausted. `Some` holds the fields of the record that was read; `None`
/// stands for a read that failed.
pub uninterp spec fn csv_outcomes(data: Seq<u8>, delimiter: u8, has_headers: bool) -> Seq<
    Option<Seq<Seq<char>>>,
>;

/// The outcomes that a reader has still to give.
pub uninterp spec fn pending(reader: csv::Reader<&[u8]>) -> Seq<Option<Seq<Seq<char>>>>;

/// The fields that a record holds.
pub uninterp spec fn record_fields(record: csv::StringRecord) -> Seq<Seq<char>>;

/// `csv::ReaderBuilder::new`, `has_headers`, `delimiter` and `from_reader`: a reader of
/// `data` that splits fields at `delimiter` and, with `has_headers`, passes over the
/// first record. It has all the outcomes of `data` to give.
#[verifier::external_body]
pub(crate) fn open_reader(data: &[u8], delimiter: u8, has_headers: bool) -> (reader: csv::Reader<
    &[u8],
>)
    ensures
        pending(reader) == csv_outcomes(data@, delimiter, has_headers),
{
    csv::ReaderBuilder::new().has_headers(has_headers).delimiter(delimiter).from_reader(data)
}

/// `csv::StringRecord::new`: a record without fields.
#[verifier::external_body]
pub(crate) fn empty_record() -> (record: csv::StringRecord)
    ensures
        record_fields(record).len() == 0,
{
    csv::StringRecord::new()
}

/// `csv::Reader::read_record`: takes the next outcome off the reader. `Ok(true)` says
/// that a record was read, which is then in `record`; `Ok(false)` that the input is
/// exhausted; `Err` that the read failed.
#[verifier::external_body]
pub(crate) fn next_record(
    reader: &mut csv::Reader<&[u8]>,
    record: &mut csv::StringRecord,
) -> (result: Result<bool, csv::Error>)
    ensures
        match result {
            Ok(true) => pending(*old(reader)).len() > 0 && pending(*old(reader))[0] == Some(
                record_fields(*final(record)),
            ) && pending(*final(reader)) == pending(*old(reader)).skip(1),
            Ok(false) => pending(*old(reader)).len() == 0 && pending(*final(reader)).len() == 0,
            Err(_) => pending(*old(reader)).len() > 0 && pending(*old(reader))[0] is None
                && pending(*final(reader)) == pending(*old(reader)).skip(1),
        },
{
    reader.read_record(record)
}

/// `csv::StringRecord::get`: the field at index `i`, if the record has that many.
#[verifier::external_body]
pub(crate) fn record_field(record: &csv::StringRecord, i: usize) -> (field: Option<&str>)
    ensures
        match field {
            Some(text) => i < record_fields(*record).len() && text@ == record_fields(
                *record,
            )[i as int],
            None => i >= record_fields(*record).len(),
        },
{
    record.get(i)
}

/// The field in column `column` of a record, the columns counted from 1.
pub open spec fn field_at(fields: Seq<Seq<char>>, column: nat) -> Option<Seq<char>> {
    if 1 <= column <= fields.len() {
        Some(fields[column - 1])
    } else {
        None
    }
}

/// What is said of a record that has no column `column`.
pub open spec fn column_missing_text(column: nat) -> Seq<char> {
    "Column "@ + decimal(column) + " not found in record"@
}

/// The key of a record, given what was found in its column `column`: the field, or the
/// failure that names the column that the record lacks.
pub fn require_field<'a>(field: Option<&'a str>, column: usize) -> (result: Result<
    &'a str,
    HistError,
>)
    ensures
        match field {
            Some(text) => result == Ok::<&str, HistError>(text),
            None => fails_validation(result, column_missing_text(column as nat)),
        },
{
    match field {
        Some(text) => Ok(text),
        None => {
            let mut text = String::from_str("Column ");
            push_decimal(&mut text, column);
            text.append(" not found in record");
            Err(HistError::Validation(text))
        },
    }
}

} // verus!
