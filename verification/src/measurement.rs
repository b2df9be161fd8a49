//! Loading of measurements: instrument readings along the station axis.
//!
//! The measurement table is written by the instrument and is read strictly.
//! A row's first three fields are taken as they stand, and a field that is
//! not a number fails the whole load. Only a row with fewer than three
//! fields is passed over.

use vstd::prelude::*;
use crate::binary64::Binary64;
use crate::fields::{text_of_triple, text_of_triples, Triple};
use crate::sequence::{first_where, first_where_is_least, kept, kept_of_one_more};
use crate::table::{
    csv_records, decoded, first_undecoded, read_rows, text_of_row, text_of_rows, TableError,
};

verus! {

/// The field delimiter of the measurement table: the space.
pub const DELIMITER: u8 = 0x20u8;

/// One reading of the instrument.
#[derive(Clone, Copy, Debug, PartialEq, Eq, Structural)]
pub struct Measurement {
    pub station: Binary64,
    pub depth: Binary64,
    pub resistivity: Binary64,
}

/// A field of the measurement table is not a number: the row, counted from 0
/// among the rows that have three fields, and the field in it (0 for the
/// station, 1 for the depth, 2 for the resistivity).
#[derive(Clone, Copy, Debug, PartialEq, Eq, Structural)]
pub struct ParseError {
    pub row: usize,
    pub field: usize,
}

/// What a row offers as station, depth and resistivity: its first three
/// fields as they stand. A row with fewer than three fields offers nothing.
pub open spec fn candidate_of(row: Seq<Seq<char>>) -> Option<Triple<Seq<char>>> {
    if row.len() >= 3 {
        Some(Triple { first: row[0], second: row[1], third: row[2] })
    } else {
        None
    }
}

/// The candidates of the rows that offer one, in the order of the rows.
pub open spec fn candidates_of(rows: Seq<Seq<Seq<char>>>) -> Seq<Triple<Seq<char>>> {
    kept(rows, |row: Seq<Seq<char>>| candidate_of(row))
}

/// The station, depth and resistivity fields of one row, or `None` where the
/// row has fewer than three fields.
pub fn candidate(row: &Vec<String>) -> (r: Option<Triple<String>>)
    ensures
        match r {
            Some(fields) => candidate_of(text_of_row(row@)) == Some(text_of_triple(fields)),
            None => candidate_of(text_of_row(row@)) is None,
        },
{
    if row.len() >= 3 {
        Some(Triple { first: row[0].clone(), second: row[1].clone(), third: row[2].clone() })
    } else {
        None
    }
}

/// The candidates of a table's rows, in the order of the rows; rows with
/// fewer than three fields are passed over.
pub fn candidates(rows: &Vec<Vec<String>>) -> (out: Vec<Triple<String>>)
    ensures
        text_of_triples(out@) == candidates_of(text_of_rows(rows@)),
{
    let ghost texts = text_of_rows(rows@);
    let mut out: Vec<Triple<String>> = Vec::new();
    let mut i: usize = 0;
    while i < rows.len()
        invariant
            texts == text_of_rows(rows@),
            i <= rows.len(),
            text_of_triples(out@) == candidates_of(texts.take(i as int)),
        decreases rows.len() - i,
    {
        proof {
            assert(texts.take(i + 1) == texts.take(i as int).push(text_of_row(rows[i as int]@)));
            kept_of_one_more(
                texts.take(i as int),
                |row: Seq<Seq<char>>| candidate_of(row),
                text_of_row(rows[i as int]@),
            );
        }
        let ghost before = out@;
        match candidate(&rows[i]) {
            Some(fields) => {
                out.push(fields);
                proof {
                    assert(text_of_triples(out@) == text_of_triples(before) + seq![
                        text_of_triple(fields),
                    ]);
                }
            },
            None => {},
        }
        i = i + 1;
    }
    proof {
        assert(texts.take(rows.len() as int) == texts);
    }
    out
}

/// Splits the measurement table and picks the candidates of its rows. Fails
/// only where the table itself cannot be split, with the index of the first
/// record that could not be decoded.
pub fn read_candidates(bytes: &[u8]) -> (r: Result<Vec<Triple<String>>, TableError>)
    ensures
        match r {
            Ok(out) => {
                &&& first_undecoded(csv_records(bytes@, DELIMITER)) is None
                &&& text_of_triples(out@) == candidates_of(decoded(csv_records(bytes@, DELIMITER)))
            },
            Err(e) => first_undecoded(csv_records(bytes@, DELIMITER)) == Some(e.record as int),
        },
{
    match read_rows(bytes, DELIMITER) {
        Ok(rows) => Ok(candidates(&rows)),
        Err(e) => Err(e),
    }
}

/// All three fields of a row parsed.
pub open spec fn complete(parsed: Triple<Option<Binary64>>) -> bool {
    parsed.first is Some && parsed.second is Some && parsed.third is Some
}

/// The first field of a row that did not parse; 3 where all did.
pub open spec fn first_missing(parsed: Triple<Option<Binary64>>) -> int {
    if parsed.first is None {
        0
    } else if parsed.second is None {
        1
    } else if parsed.third is None {
        2
    } else {
        3
    }
}

/// The measurement that a row's parsed fields make.
pub open spec fn measurement_of(parsed: Triple<Option<Binary64>>) -> Measurement {
    Measurement {
        station: parsed.first->0,
        depth: parsed.second->0,
        resistivity: parsed.third->0,
    }
}

/// The measurements of a table whose fields all parsed.
pub open spec fn measurements_of(parsed: Seq<Triple<Option<Binary64>>>) -> Seq<Measurement> {
    parsed.map_values(|row: Triple<Option<Binary64>>| measurement_of(row))
}

/// The index of the first row with a field that did not parse, if there is
/// one.
pub open spec fn first_incomplete(parsed: Seq<Triple<Option<Binary64>>>) -> Option<int> {
    first_where(parsed, |row: Triple<Option<Binary64>>| !complete(row))
}

/// What strict ingestion makes of the parsed candidates: a measurement for
/// every row, or the first row with a field that did not parse and the first
/// such field in it.
pub open spec fn ingests_as(
    parsed: Seq<Triple<Option<Binary64>>>,
    r: Result<Vec<Measurement>, ParseError>,
) -> bool {
    match r {
        Ok(out) => first_incomplete(parsed) is None && out@ == measurements_of(parsed),
        Err(e) => {
            &&& first_incomplete(parsed) == Some(e.row as int)
            &&& e.field == first_missing(parsed[e.row as int])
        },
    }
}

/// Builds the list of measurements from the parsed candidates, `None`
/// standing for a field that did not parse. Ingestion is strict: the first
/// such field, in the order of the rows and of the fields in a row, fails the
/// whole load, and nothing of the table is kept. Otherwise every row gives
/// one measurement, in the order of the rows.
pub fn measurements(parsed: &Vec<Triple<Option<Binary64>>>) -> (r: Result<
    Vec<Measurement>,
    ParseError,
>)
    ensures
        ingests_as(parsed@, r),
{
    let mut out: Vec<Measurement> = Vec::new();
    let mut i: usize = 0;
    while i < parsed.len()
        invariant
            i <= parsed.len(),
            forall|k: int| 0 <= k < i ==> complete(#[trigger] parsed[k]),
            out@ == measurements_of(parsed@.take(i as int)),
        decreases parsed.len() - i,
    {
        let row = &parsed[i];
        let station = match row.first {
            Some(value) => value,
            None => {
                proof {
                    first_where_is_least(
                        parsed@,
                        |row: Triple<Option<Binary64>>| !complete(row),
                    );
                }
                return Err(ParseError { row: i, field: 0 });
            },
        };
        let depth = match row.second {
            Some(value) => value,
            None => {
                proof {
                    first_where_is_least(
                        parsed@,
                        |row: Triple<Option<Binary64>>| !complete(row),
                    );
                }
                return Err(ParseError { row: i, field: 1 });
            },
        };
        let resistivity = match row.third {
            Some(value) => value,
            None => {
                proof {
                    first_where_is_least(
                        parsed@,
                        |row: Triple<Option<Binary64>>| !complete(row),
                    );
                }
                return Err(ParseError { row: i, field: 2 });
            },
        };
        out.push(Measurement { station, depth, resistivity });
        proof {
            assert(out@ == measurements_of(parsed@.take(i + 1)));
        }
        i = i + 1;
    }
    proof {
        assert(parsed@.take(parsed.len() as int) == parsed@);
        first_where_is_least(parsed@, |row: Triple<Option<Binary64>>| !complete(row));
    }
    Ok(out)
}

/// Strict ingestion is repeatable: the parsed candidates settle whether the
/// load succeeds, with which measurements, and with which failure it aborts.
pub proof fn strict_ingestion_is_repeatable(
    parsed: Seq<Triple<Option<Binary64>>>,
    first: Result<Vec<Measurement>, ParseError>,
    second: Result<Vec<Measurement>, ParseError>,
)
    requires
        ingests_as(parsed, first),
        ingests_as(parsed, second),
    ensures
        match (first, second) {
            (Ok(a), Ok(b)) => a@ == b@,
            (Err(a), Err(b)) => a == b,
            _ => false,
        },
{
}

/// The row that strict ingestion reports is the first with a field that did
/// not parse, and it reports none only where every field of every row parsed.
pub proof fn first_incomplete_is_least(parsed: Seq<Triple<Option<Binary64>>>)
    ensures
        match first_incomplete(parsed) {
            Some(k) => {
                &&& 0 <= k < parsed.len()
                &&& !complete(parsed[k])
                &&& forall|i: int| 0 <= i < k ==> complete(#[trigger] parsed[i])
            },
            None => forall|i: int| 0 <= i < parsed.len() ==> complete(#[trigger] parsed[i]),
        },
{
    first_where_is_least(parsed, |row: Triple<Option<Binary64>>| !complete(row));
}

} // verus!
