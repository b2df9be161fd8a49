//! Splitting a delimited text table into records and fields.
//!
//! The splitting itself is the `csv` crate's: quoting, record terminators
//! and the skipping of empty lines are whatever its reader makes of the
//! bytes. This module drives that reader record by record and stops at the
//! first record that it cannot decode.

use vstd::prelude::*;
use crate::sequence::{first_where, first_where_is_least};

verus! {

/// `csv::Reader`, the crate's record reader over a byte source `R`.
#[verifier::external_type_specification]
#[verifier::external_body]
#[verifier::reject_recursive_types(R)]
pub struct ExReader<R>(csv::Reader<R>);

/// `csv::Error`, the crate's error value.
#[verifier::external_type_specification]
#[verifier::external_body]
pub struct ExError(csv::Error);

/// What `csv` makes of a whole table: the items that the `records` of a
/// flexible, headerless reader with the given delimiter yield over `bytes`,
/// up to the end of the input. `Some` holds a record's fields,
/// `None` stands for a record that the reader reported as an error.
pub uninterp spec fn csv_records(bytes: Seq<u8>, delimiter: u8) -> Seq<Option<Seq<Seq<char>>>>;

/// The outcomes that a reader has yet to deliver, next one first.
pub uninterp spec fn unread(reader: csv::Reader<&[u8]>) -> Seq<Option<Seq<Seq<char>>>>;

/// The fields of a record as text.
pub open spec fn text_of_row(row: Seq<String>) -> Seq<Seq<char>> {
    row.map_values(|field: String| field@)
}

/// The records of a table as text.
pub open spec fn text_of_rows(rows: Seq<Vec<String>>) -> Seq<Seq<Seq<char>>> {
    rows.map_values(|row: Vec<String>| text_of_row(row@))
}

/// The outcome of a record as text.
pub open spec fn text_of_outcome(outcome: Option<Vec<String>>) -> Option<Seq<Seq<char>>> {
    match outcome {
        Some(fields) => Some(text_of_row(fields@)),
        None => None,
    }
}

/// The outcomes of a table as text.
pub open spec fn text_of_outcomes(outcomes: Seq<Option<Vec<String>>>) -> Seq<
    Option<Seq<Seq<char>>>,
> {
    outcomes.map_values(|outcome: Option<Vec<String>>| text_of_outcome(outcome))
}

/// The index of the first record that was not decoded, if there is one.
pub open spec fn first_undecoded(outcomes: Seq<Option<Seq<Seq<char>>>>) -> Option<int> {
    first_where(outcomes, |outcome: Option<Seq<Seq<char>>>| outcome is None)
}

/// The records of a table in which every record was decoded.
pub open spec fn decoded(outcomes: Seq<Option<Seq<Seq<char>>>>) -> Seq<Seq<Seq<char>>> {
    outcomes.map_values(|outcome: Option<Seq<Seq<char>>>| outcome->0)
}

/// A table could not be split: the record with this index, counted from 0
/// among the records of the table, was not decoded (with the input in
/// memory, that is a record which is not valid UTF-8).
#[derive(Clone, Copy, Debug, PartialEq, Eq, Structural)]
pub struct TableError {
    pub record: usize,
}

/// What `read_rows` makes of the outcomes of a table: all its records, or
/// the first that was not decoded.
pub open spec fn splits_as(
    outcomes: Seq<Option<Seq<Seq<char>>>>,
    r: Result<Vec<Vec<String>>, TableError>,
) -> bool {
    match r {
        Ok(rows) => first_undecoded(outcomes) is None && text_of_rows(rows@) == decoded(outcomes),
        Err(e) => first_undecoded(outcomes) == Some(e.record as int),
    }
}

/// `csv::ReaderBuilder::new`, configured by `delimiter`, `flexible(true)` and
/// `has_headers(false)`, then `from_reader` on the byte slice. The reader has
/// read nothing yet, so what it has to deliver is the whole table.
#[verifier::external_body]
fn open_reader<'a>(bytes: &'a [u8], delimiter: u8) -> (reader: csv::Reader<&'a [u8]>)
    ensures
        unread(reader) == csv_records(bytes@, delimiter),
{
    csv::ReaderBuilder::new()
        .delimiter(delimiter)
        .flexible(true)
        .has_headers(false)
        .from_reader(bytes)
}

/// `csv::Reader::records`, asked for its next item, whose fields are copied
/// out as strings. The call delivers the next outcome and leaves the rest:
/// `Some(Ok(..))` with the fields of a decoded record, `Some(Err(..))` for a
/// record reported as an error, `None` once at the end of the input, where
/// the reader stays.
#[verifier::external_body]
fn next_row(reader: &mut csv::Reader<&[u8]>) -> (row: Option<Result<Vec<String>, csv::Error>>)
    ensures
        match row {
            None => unread(*old(reader)).len() == 0 && unread(*final(reader)).len() == 0,
            Some(Ok(fields)) => {
                &&& unread(*old(reader)).len() > 0
                &&& unread(*old(reader))[0] == Some(text_of_row(fields@))
                &&& unread(*final(reader)) == unread(*old(reader)).skip(1)
            },
            Some(Err(_)) => {
                &&& unread(*old(reader)).len() > 0
                &&& unread(*old(reader))[0] is None
                &&& unread(*final(reader)) == unread(*old(reader)).skip(1)
            },
        },
{
    match reader.records().next() {
        None => None,
        Some(Ok(record)) => Some(Ok(record.iter().map(String::from).collect())),
        Some(Err(e)) => Some(Err(e)),
    }
}

/// Reads a headerless table to its end and returns the outcome of each
/// record in turn: its fields, or `None` where it could not be decoded.
/// Rows may differ in their number of fields.
pub fn read_outcomes(bytes: &[u8], delimiter: u8) -> (out: Vec<Option<Vec<String>>>)
    ensures
        text_of_outcomes(out@) == csv_records(bytes@, delimiter),
{
    let ghost outcomes = csv_records(bytes@, delimiter);
    let mut reader = open_reader(bytes, delimiter);
    let mut out: Vec<Option<Vec<String>>> = Vec::new();
    loop
        invariant
            outcomes == csv_records(bytes@, delimiter),
            out.len() <= outcomes.len(),
            unread(reader) == outcomes.skip(out.len() as int),
            text_of_outcomes(out@) == outcomes.take(out.len() as int),
        decreases unread(reader).len(),
    {
        let ghost before = out@;
        let ghost n = out@.len() as int;
        let outcome = match next_row(&mut reader) {
            None => {
                proof {
                    assert(outcomes.take(out.len() as int) == outcomes);
                }
                return out;
            },
            Some(Ok(fields)) => Some(fields),
            Some(Err(_)) => None,
        };
        proof {
            assert(outcomes.skip(n)[0] == outcomes[n]);
            assert(outcomes.skip(n).skip(1) == outcomes.skip(n + 1));
        }
        out.push(outcome);
        proof {
            assert(text_of_outcomes(out@) == text_of_outcomes(before).push(
                text_of_outcome(outcome),
            ));
            assert(outcomes.take(n + 1) == outcomes.take(n).push(outcomes[n]));
        }
    }
}

/// Turns the outcomes of a table into its rows. The result is all or
/// nothing: the records of the whole table in their order, or the index of
/// the first record that could not be decoded.
pub fn rows_or_failure(outcomes: Vec<Option<Vec<String>>>) -> (r: Result<
    Vec<Vec<String>>,
    TableError,
>)
    ensures
        splits_as(text_of_outcomes(outcomes@), r),
{
    let ghost texts = text_of_outcomes(outcomes@);
    let mut rows: Vec<Vec<String>> = Vec::new();
    for outcome in it: outcomes
        invariant
            it.seq() == outcomes@,
            texts == text_of_outcomes(outcomes@),
            rows.len() == it.index(),
            forall|i: int|
                0 <= i < rows.len() ==> (#[trigger] texts[i]) == Some(text_of_row(rows[i]@)),
    {
        match outcome {
            Some(fields) => {
                rows.push(fields);
            },
            None => {
                proof {
                    assert(texts[rows.len() as int] is None);
                    first_where_is_least(texts, |outcome: Option<Seq<Seq<char>>>| outcome is None);
                }
                return Err(TableError { record: rows.len() });
            },
        }
    }
    proof {
        assert(text_of_rows(rows@) =~= decoded(texts));
        first_where_is_least(texts, |outcome: Option<Seq<Seq<char>>>| outcome is None);
    }
    Ok(rows)
}

/// Splits a headerless table into its records, each a list of fields. Rows
/// may differ in their number of fields. The result is all or nothing: the
/// records of the whole table in their order, or the index of the first
/// record that could not be decoded.
pub fn read_rows(bytes: &[u8], delimiter: u8) -> (r: Result<Vec<Vec<String>>, TableError>)
    ensures
        splits_as(csv_records(bytes@, delimiter), r),
{
    rows_or_failure(read_outcomes(bytes, delimiter))
}

/// Splitting is repeatable: the outcomes of a table settle whether it splits,
/// into which rows, and at which record it fails.
pub proof fn splitting_is_repeatable(
    outcomes: Seq<Option<Seq<Seq<char>>>>,
    first: Result<Vec<Vec<String>>, TableError>,
    second: Result<Vec<Vec<String>>, TableError>,
)
    requires
        splits_as(outcomes, first),
        splits_as(outcomes, second),
    ensures
        match (first, second) {
            (Ok(a), Ok(b)) => text_of_rows(a@) == text_of_rows(b@),
            (Err(a), Err(b)) => a == b,
            _ => false,
        },
{
}

/// The failure that `read_rows` reports is the first record that was not
/// decoded, and it reports none only where every record was decoded.
pub proof fn first_undecoded_is_least(outcomes: Seq<Option<Seq<Seq<char>>>>)
    ensures
        match first_undecoded(outcomes) {
            Some(k) => {
                &&& 0 <= k < outcomes.len()
                &&& outcomes[k] is None
                &&& forall|i: int| 0 <= i < k ==> (#[trigger] outcomes[i]) is Some
            },
            None => forall|i: int| 0 <= i < outcomes.len() ==> (#[trigger] outcomes[i]) is Some,
        },
{
    first_where_is_least(outcomes, |outcome: Option<Seq<Seq<char>>>| outcome is None);
}

} // verus!
