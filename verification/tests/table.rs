use station_geocode::table::{read_outcomes, read_rows, rows_or_failure, TableError};

fn row(fields: &[&str]) -> Vec<String> {
    fields.iter().map(|f| f.to_string()).collect()
}

#[test]
fn splits_rows_and_fields() {
    let rows = read_rows(b"0,10.0,20.0\n100,11.0,21.0\n", b',').unwrap();
    assert_eq!(rows, vec![row(&["0", "10.0", "20.0"]), row(&["100", "11.0", "21.0"])]);
}

#[test]
fn first_row_is_data_not_a_header() {
    let rows = read_rows(b"a,b\n", b',').unwrap();
    assert_eq!(rows, vec![row(&["a", "b"])]);
}

#[test]
fn rows_may_differ_in_length() {
    let rows = read_rows(b"1,2,3\n4\n5,6,7,8\n", b',').unwrap();
    assert_eq!(rows, vec![row(&["1", "2", "3"]), row(&["4"]), row(&["5", "6", "7", "8"])]);
}

#[test]
fn space_delimited_rows() {
    let rows = read_rows(b"50 5.0 100.0\n60 6.0 2.0e15\n", b' ').unwrap();
    assert_eq!(rows, vec![row(&["50", "5.0", "100.0"]), row(&["60", "6.0", "2.0e15"])]);
}

#[test]
fn two_spaces_hold_an_empty_field() {
    let rows = read_rows(b"1  2\n", b' ').unwrap();
    assert_eq!(rows, vec![row(&["1", "", "2"])]);
}

#[test]
fn quoted_field_keeps_its_delimiter() {
    let rows = read_rows(b"\"1,5\",2\n", b',').unwrap();
    assert_eq!(rows, vec![row(&["1,5", "2"])]);
}

#[test]
fn last_line_needs_no_terminator() {
    let rows = read_rows(b"1,2\r\n3,4", b',').unwrap();
    assert_eq!(rows, vec![row(&["1", "2"]), row(&["3", "4"])]);
}

#[test]
fn empty_input_has_no_rows() {
    let rows = read_rows(b"", b',').unwrap();
    assert!(rows.is_empty());
}

#[test]
fn invalid_utf8_fails_with_the_index_of_the_record() {
    let outcome = read_rows(b"1,2,3\n4,\xff,6\n7,8,9\n", b',');
    assert_eq!(outcome, Err(TableError { record: 1 }));
}

#[test]
fn invalid_utf8_in_the_first_record() {
    let outcome = read_rows(b"\xfe\n", b' ');
    assert_eq!(outcome, Err(TableError { record: 0 }));
}

#[test]
fn outcomes_go_on_after_a_record_that_cannot_be_decoded() {
    let outcomes = read_outcomes(b"1,2,3\n4,\xff,6\n7,8,9\n", b',');
    assert_eq!(outcomes, vec![Some(row(&["1", "2", "3"])), None, Some(row(&["7", "8", "9"]))]);
}

#[test]
fn outcomes_of_an_empty_table() {
    assert!(read_outcomes(b"", b' ').is_empty());
    assert!(read_outcomes(b"\n\n", b' ').is_empty());
}

#[test]
fn rows_of_outcomes_that_were_all_decoded() {
    let outcomes = vec![Some(row(&["a"])), Some(row(&[])), Some(row(&["b", "c"]))];
    assert_eq!(rows_or_failure(outcomes), Ok(vec![row(&["a"]), row(&[]), row(&["b", "c"])]));
    assert_eq!(rows_or_failure(Vec::new()), Ok(Vec::new()));
}

#[test]
fn first_undecoded_outcome_is_the_failure() {
    let outcomes = vec![Some(row(&["a"])), Some(row(&["b"])), None, Some(row(&["c"])), None];
    assert_eq!(rows_or_failure(outcomes), Err(TableError { record: 2 }));
    assert_eq!(rows_or_failure(vec![None]), Err(TableError { record: 0 }));
}

#[test]
fn every_byte_can_be_the_delimiter() {
    for delimiter in 0u8..=255 {
        let outcomes = read_outcomes(b"1,2 3;4\n5\n", delimiter);
        assert!(!outcomes.is_empty(), "{}", delimiter);
        assert!(outcomes.iter().all(|outcome| outcome.is_some()), "{}", delimiter);
    }
}
