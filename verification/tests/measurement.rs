use station_geocode::binary64::Binary64;
use station_geocode::fields::Triple;
use station_geocode::measurement::{
    candidate, candidates, measurements, read_candidates, Measurement, ParseError,
};
use station_geocode::table::TableError;

fn row(fields: &[&str]) -> Vec<String> {
    fields.iter().map(|f| f.to_string()).collect()
}

fn text(first: &str, second: &str, third: &str) -> Triple<String> {
    Triple { first: first.to_string(), second: second.to_string(), third: third.to_string() }
}

fn number(field: &str) -> Option<Binary64> {
    field.parse::<f64>().ok().map(|x| Binary64::from_bits(x.to_bits()))
}

fn parse(fields: &Triple<String>) -> Triple<Option<Binary64>> {
    Triple {
        first: number(&fields.first),
        second: number(&fields.second),
        third: number(&fields.third),
    }
}

fn reading(station: f64, depth: f64, resistivity: f64) -> Measurement {
    Measurement {
        station: Binary64::from_bits(station.to_bits()),
        depth: Binary64::from_bits(depth.to_bits()),
        resistivity: Binary64::from_bits(resistivity.to_bits()),
    }
}

#[derive(Debug, PartialEq)]
enum LoadError {
    Table(TableError),
    Parse(ParseError),
}

fn load(bytes: &[u8]) -> Result<Vec<Measurement>, LoadError> {
    let fields = read_candidates(bytes).map_err(LoadError::Table)?;
    let parsed: Vec<Triple<Option<Binary64>>> = fields.iter().map(parse).collect();
    measurements(&parsed).map_err(LoadError::Parse)
}

#[test]
fn measurement_candidate_takes_the_fields_as_they_stand() {
    assert_eq!(candidate(&row(&["50", " 5.0", "1e2"])), Some(text("50", " 5.0", "1e2")));
    assert_eq!(candidate(&row(&["1", "", "x", "4"])), Some(text("1", "", "x")));
}

#[test]
fn measurement_candidate_needs_three_fields() {
    assert_eq!(candidate(&row(&[])), None);
    assert_eq!(candidate(&row(&["1", "2"])), None);
}

#[test]
fn measurement_candidates_keep_the_order_of_the_rows() {
    let rows = vec![row(&["9", "8", "7"]), row(&["6", "5"]), row(&["4", "3", "2", "1"])];
    assert_eq!(candidates(&rows), vec![text("9", "8", "7"), text("4", "3", "2")]);
}

#[test]
fn loads_measurements_in_file_order() {
    let loaded = load(b"50 5.0 100.0\n10 2.5 2.0e15\n").unwrap();
    assert_eq!(loaded, vec![reading(50.0, 5.0, 100.0), reading(10.0, 2.5, 2.0e15)]);
}

#[test]
fn malformed_measurement_row_aborts_the_load() {
    assert_eq!(load(b"12 x 34\n"), Err(LoadError::Parse(ParseError { row: 0, field: 1 })));
}

#[test]
fn malformed_measurement_row_after_good_ones_keeps_nothing() {
    assert_eq!(
        load(b"1 2 3\n4 5 6\n7 8 nine\n10 11 12\n"),
        Err(LoadError::Parse(ParseError { row: 2, field: 2 }))
    );
}

#[test]
fn first_bad_field_of_the_first_bad_row_is_reported() {
    let one = Some(Binary64::from_bits(1.0f64.to_bits()));
    let parsed = vec![
        Triple { first: one, second: one, third: one },
        Triple { first: one, second: None, third: None },
        Triple { first: None, second: one, third: one },
    ];
    assert_eq!(measurements(&parsed), Err(ParseError { row: 1, field: 1 }));
}

#[test]
fn bad_station_is_field_zero() {
    assert_eq!(load(b"1 2 3\n- 5 6\n"), Err(LoadError::Parse(ParseError { row: 1, field: 0 })));
}

#[test]
fn measurement_fields_are_not_cleaned() {
    // The same text would pass as a control point.
    assert_eq!(load(b"12m 5 6\n"), Err(LoadError::Parse(ParseError { row: 0, field: 0 })));
}

#[test]
fn doubled_space_leaves_an_empty_field_that_does_not_parse() {
    assert_eq!(load(b"1  2 3\n"), Err(LoadError::Parse(ParseError { row: 0, field: 1 })));
}

#[test]
fn short_measurement_rows_are_passed_over_without_error() {
    let loaded = load(b"1 2 3\n4 5\n6\n7 8 9\n").unwrap();
    assert_eq!(loaded, vec![reading(1.0, 2.0, 3.0), reading(7.0, 8.0, 9.0)]);
}

#[test]
fn extra_measurement_fields_are_ignored() {
    let loaded = load(b"1 2 3 remark\n").unwrap();
    assert_eq!(loaded, vec![reading(1.0, 2.0, 3.0)]);
}

#[test]
fn measurements_of_nothing() {
    assert_eq!(measurements(&Vec::new()), Ok(Vec::new()));
    assert_eq!(load(b""), Ok(Vec::new()));
}

#[test]
fn unreadable_measurement_table_is_an_error() {
    assert_eq!(load(b"1 2 3\n4 \xff 6\n"), Err(LoadError::Table(TableError { record: 1 })));
}
