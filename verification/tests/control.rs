use station_geocode::binary64::Binary64;
use station_geocode::control::{
    candidate, candidates, control_points, read_candidates, ControlPoint,
};
use station_geocode::fields::Triple;
use station_geocode::table::TableError;

fn row(fields: &[&str]) -> Vec<String> {
    fields.iter().map(|f| f.to_string()).collect()
}

fn text(first: &str, second: &str, third: &str) -> Triple<String> {
    Triple { first: first.to_string(), second: second.to_string(), third: third.to_string() }
}

fn number(field: &str) -> Option<Binary64> {
    field.parse::<f64>().ok().map(|x| Binary64::from_bits(x.to_bits()))
}

fn parse(fields: &Triple<String>) -> Triple<Option<Binary64>> {
    Triple {
        first: number(&fields.first),
        second: number(&fields.second),
        third: number(&fields.third),
    }
}

fn point(station: f64, latitude: f64, longitude: f64) -> ControlPoint {
    ControlPoint {
        station: Binary64::from_bits(station.to_bits()),
        latitude: Binary64::from_bits(latitude.to_bits()),
        longitude: Binary64::from_bits(longitude.to_bits()),
    }
}

fn load(bytes: &[u8]) -> Result<Vec<ControlPoint>, TableError> {
    let fields = read_candidates(bytes)?;
    let parsed: Vec<Triple<Option<Binary64>>> = fields.iter().map(parse).collect();
    Ok(control_points(&parsed))
}

#[test]
fn candidate_takes_the_first_three_fields() {
    assert_eq!(candidate(&row(&["0", "10.0", "20.0"])), Some(text("0", "10.0", "20.0")));
    assert_eq!(candidate(&row(&["1", "2", "3", "4", "5"])), Some(text("1", "2", "3")));
}

#[test]
fn candidate_passes_over_empty_and_blank_fields() {
    assert_eq!(candidate(&row(&["", "7", "  ", "8", "\t", "9", "10"])), Some(text("7", "8", "9")));
}

#[test]
fn candidate_cleans_each_field() {
    assert_eq!(
        candidate(&row(&["K 12", " 31.5 N", "\"121.25\""])),
        Some(text("12", "31.5", "121.25"))
    );
}

#[test]
fn candidate_needs_three_fields_that_are_not_blank() {
    assert_eq!(candidate(&row(&[])), None);
    assert_eq!(candidate(&row(&["1", "2"])), None);
    assert_eq!(candidate(&row(&["1", " ", "2", ""])), None);
}

#[test]
fn candidate_keeps_a_field_that_cleans_to_nothing() {
    // "abc" is not blank, so it counts as the second field; what is left of
    // it does not parse, which the caller finds out.
    assert_eq!(candidate(&row(&["12", "abc", "34.5"])), Some(text("12", "", "34.5")));
}

#[test]
fn candidates_keep_the_order_of_the_rows() {
    let rows = vec![row(&["3", "4", "5"]), row(&["x"]), row(&["1", "2", "3"])];
    assert_eq!(candidates(&rows), vec![text("3", "4", "5"), text("1", "2", "3")]);
}

#[test]
fn control_points_drop_rows_with_a_field_that_did_not_parse() {
    let one = Some(Binary64::from_bits(1.0f64.to_bits()));
    let parsed = vec![
        Triple { first: one, second: one, third: one },
        Triple { first: None, second: one, third: one },
        Triple { first: one, second: None, third: one },
        Triple { first: one, second: one, third: None },
        Triple { first: one, second: one, third: one },
    ];
    assert_eq!(control_points(&parsed), vec![point(1.0, 1.0, 1.0), point(1.0, 1.0, 1.0)]);
}

#[test]
fn control_points_of_nothing() {
    assert_eq!(control_points(&Vec::new()), Vec::new());
}

#[test]
fn loads_a_clean_table() {
    let points = load(b"0,10.0,20.0\n100,11.0,21.0\n").unwrap();
    assert_eq!(points, vec![point(0.0, 10.0, 20.0), point(100.0, 11.0, 21.0)]);
}

#[test]
fn malformed_control_row_is_dropped_and_loading_goes_on() {
    let points = load(b"0,10.0,20.0\n12,abc,34.5\n100,11.0,21.0\n").unwrap();
    assert_eq!(points, vec![point(0.0, 10.0, 20.0), point(100.0, 11.0, 21.0)]);
}

#[test]
fn malformed_control_row_alone_gives_an_empty_list() {
    let points = load(b"12,abc,34.5\n").unwrap();
    assert!(points.is_empty());
}

#[test]
fn two_decimal_points_survive_cleaning_and_fail_later() {
    let fields = read_candidates(b"1.2.3,4,5\n").unwrap();
    assert_eq!(fields, vec![text("1.2.3", "4", "5")]);
    assert!(load(b"1.2.3,4,5\n").unwrap().is_empty());
}

#[test]
fn list_order_is_file_order_not_station_order() {
    let points = load(b"100,11,21\n0,10,20\n50,10.5,20.5\n").unwrap();
    assert_eq!(
        points,
        vec![point(100.0, 11.0, 21.0), point(0.0, 10.0, 20.0), point(50.0, 10.5, 20.5)]
    );
}

#[test]
fn decorated_fields_and_stray_delimiters() {
    let points = load(b"\"K 5\",, 31.5N ,121.5 E,remark\n").unwrap();
    assert_eq!(points, vec![point(5.0, 31.5, 121.5)]);
}

#[test]
fn short_control_rows_are_dropped() {
    let points = load(b"1,2\n\n3\n4,5,6\n").unwrap();
    assert_eq!(points, vec![point(4.0, 5.0, 6.0)]);
}

#[test]
fn unreadable_control_table_is_an_error() {
    assert_eq!(load(b"1,2,3\n\xff,5,6\n"), Err(TableError { record: 1 }));
}
