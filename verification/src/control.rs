//! Loading of control points: known stations with their coordinates.
//!
//! The control-point table is written by hand and is read with tolerance.
//! Empty and blank fields of a row are passed over, the first three others
//! are stripped of everything that is not part of a number, and a row that
//! does not yield three numbers is left out without complaint.

use vstd::prelude::*;
use crate::binary64::Binary64;
use crate::fields::{text_of_triple, text_of_triples, Triple};
use crate::sequence::{kept, kept_of_one_more};
use crate::table::{
    csv_records, decoded, first_undecoded, read_rows, text_of_row, text_of_rows, TableError,
};
use crate::token::{blank, clean_number_string, cleaned, is_blank};

verus! {

/// The field delimiter of the control-point table: the comma.
pub const DELIMITER: u8 = 0x2cu8;

/// A known correspondence between a station and a geographic coordinate.
#[derive(Clone, Copy, Debug, PartialEq, Eq, Structural)]
pub struct ControlPoint {
    pub station: Binary64,
    pub latitude: Binary64,
    pub longitude: Binary64,
}

/// The fields of a row that are not blank, in their order.
pub open spec fn non_blank_fields(row: Seq<Seq<char>>) -> Seq<Seq<char>> {
    row.filter(|field: Seq<char>| !blank(field))
}

/// What a row offers as station, latitude and longitude: its first three
/// fields that are not blank, each cleaned. A row with fewer than three such
/// fields offers nothing.
pub open spec fn candidate_of(row: Seq<Seq<char>>) -> Option<Triple<Seq<char>>> {
    let kept = non_blank_fields(row);
    if kept.len() >= 3 {
        Some(Triple { first: cleaned(kept[0]), second: cleaned(kept[1]), third: cleaned(kept[2]) })
    } else {
        None
    }
}

/// The candidates of the rows that offer one, in the order of the rows.
pub open spec fn candidates_of(rows: Seq<Seq<Seq<char>>>) -> Seq<Triple<Seq<char>>> {
    kept(rows, |row: Seq<Seq<char>>| candidate_of(row))
}

/// The station, latitude and longitude candidates of one row, cleaned and
/// ready to be parsed as numbers, or `None` where the row has fewer than
/// three fields that are not blank.
pub fn candidate(row: &Vec<String>) -> (r: Option<Triple<String>>)
    ensures
        match r {
            Some(fields) => candidate_of(text_of_row(row@)) == Some(text_of_triple(fields)),
            None => candidate_of(text_of_row(row@)) is None,
        },
{
    let ghost texts = text_of_row(row@);
    let mut found: Vec<String> = Vec::new();
    let mut i: usize = 0;
    proof {
        reveal(Seq::filter);
    }
    while i < row.len() && found.len() < 3
        invariant
            texts == text_of_row(row@),
            i <= row.len(),
            found.len() <= 3,
            found.len() == non_blank_fields(texts.take(i as int)).len(),
            forall|k: int|
                0 <= k < found.len() ==> (#[trigger] found[k])@ == cleaned(
                    non_blank_fields(texts.take(i as int))[k],
                ),
        decreases row.len() - i,
    {
        let field: &String = &row[i];
        proof {
            reveal(Seq::filter);
            assert(texts.take(i + 1).drop_last() == texts.take(i as int));
            assert(texts.take(i + 1).last() == field@);
        }
        if !is_blank(field.as_str()) {
            found.push(clean_number_string(field.as_str()));
        }
        i = i + 1;
    }
    if found.len() == 3 {
        proof {
            assert(texts == texts.take(i as int) + texts.skip(i as int));
            Seq::filter_distributes_over_add(
                texts.take(i as int),
                texts.skip(i as int),
                |field: Seq<char>| !blank(field),
            );
        }
        let third = found.pop().unwrap();
        let second = found.pop().unwrap();
        let first = found.pop().unwrap();
        Some(Triple { first, second, third })
    } else {
        proof {
            assert(texts.take(i as int) == texts);
        }
        None
    }
}

/// The candidates of a table's rows, in the order of the rows; rows with
/// fewer than three fields that are not blank are passed over.
pub fn candidates(rows: &Vec<Vec<String>>) -> (out: Vec<Triple<String>>)
    ensures
        text_of_triples(out@) == candidates_of(text_of_rows(rows@)),
{
    let ghost texts = text_of_rows(rows@);
    let mut out: Vec<Triple<String>> = Vec::new();
    let mut i: usize = 0;
    while i < rows.len()
        invariant
            texts == text_of_rows(rows@),
            i <= rows.len(),
            text_of_triples(out@) == candidates_of(texts.take(i as int)),
        decreases rows.len() - i,
    {
        proof {
            assert(texts.take(i + 1) == texts.take(i as int).push(text_of_row(rows[i as int]@)));
            kept_of_one_more(
                texts.take(i as int),
                |row: Seq<Seq<char>>| candidate_of(row),
                text_of_row(rows[i as int]@),
            );
        }
        let ghost before = out@;
        match candidate(&rows[i]) {
            Some(fields) => {
                out.push(fields);
                proof {
                    assert(text_of_triples(out@) == text_of_triples(before) + seq![
                        text_of_triple(fields),
                    ]);
                }
            },
            None => {},
        }
        i = i + 1;
    }
    proof {
        assert(texts.take(rows.len() as int) == texts);
    }
    out
}

/// Splits the control-point table and picks the candidates of its rows. Fails
/// only where the table itself cannot be split, with the index of the first
/// record that could not be decoded.
pub fn read_candidates(bytes: &[u8]) -> (r: Result<Vec<Triple<String>>, TableError>)
    ensures
        match r {
            Ok(out) => {
                &&& first_undecoded(csv_records(bytes@, DELIMITER)) is None
                &&& text_of_triples(out@) == candidates_of(decoded(csv_records(bytes@, DELIMITER)))
            },
            Err(e) => first_undecoded(csv_records(bytes@, DELIMITER)) == Some(e.record as int),
        },
{
    match read_rows(bytes, DELIMITER) {
        Ok(rows) => Ok(candidates(&rows)),
        Err(e) => Err(e),
    }
}

/// The control point that a row's parsed fields make: all three must have
/// parsed.
pub open spec fn control_point_of(parsed: Triple<Option<Binary64>>) -> Option<ControlPoint> {
    if parsed.first is Some && parsed.second is Some && parsed.third is Some {
        Some(
            ControlPoint {
                station: parsed.first->0,
                latitude: parsed.second->0,
                longitude: parsed.third->0,
            },
        )
    } else {
        None
    }
}

/// The control points of the rows whose three fields all parsed, in the
/// order of the rows.
pub open spec fn control_points_of(parsed: Seq<Triple<Option<Binary64>>>) -> Seq<ControlPoint> {
    kept(parsed, |row: Triple<Option<Binary64>>| control_point_of(row))
}

/// Builds the list of control points from the parsed candidates, `None`
/// standing for a field that did not parse. Ingestion is best-effort: a row
/// with such a field is dropped and the rest goes on. The order of the rows
/// is kept; nothing is sorted.
pub fn control_points(parsed: &Vec<Triple<Option<Binary64>>>) -> (out: Vec<ControlPoint>)
    ensures
        out@ == control_points_of(parsed@),
{
    let mut out: Vec<ControlPoint> = Vec::new();
    let mut i: usize = 0;
    while i < parsed.len()
        invariant
            i <= parsed.len(),
            out@ == control_points_of(parsed@.take(i as int)),
        decreases parsed.len() - i,
    {
        proof {
            assert(parsed@.take(i + 1) == parsed@.take(i as int).push(parsed[i as int]));
            kept_of_one_more(
                parsed@.take(i as int),
                |row: Triple<Option<Binary64>>| control_point_of(row),
                parsed[i as int],
            );
        }
        let row = &parsed[i];
        match (row.first, row.second, row.third) {
            (Some(station), Some(latitude), Some(longitude)) => {
                out.push(ControlPoint { station, latitude, longitude });
            },
            _ => {},
        }
        i = i + 1;
    }
    proof {
        assert(parsed@.take(parsed.len() as int) == parsed@);
    }
    out
}

} // verus!
