use station_geocode::binary64::Binary64;
use station_geocode::control;
use station_geocode::engine::{default_threshold, locate, Located};
use station_geocode::fields::Triple;
use station_geocode::measurement;
use station_geocode::output::{encode, TextRecord};

fn number(field: &str) -> Option<Binary64> {
    field.parse::<f64>().ok().map(|x| Binary64::from_bits(x.to_bits()))
}

fn parse(fields: &Triple<String>) -> Triple<Option<Binary64>> {
    Triple {
        first: number(&fields.first),
        second: number(&fields.second),
        third: number(&fields.third),
    }
}

fn value(x: Binary64) -> f64 {
    f64::from_bits(x.to_bits())
}

fn interpolate(located: &Located) -> TextRecord {
    let s = value(located.measurement.station);
    let (x1, lat1, lon1) = (
        value(located.lower.station),
        value(located.lower.latitude),
        value(located.lower.longitude),
    );
    let (x2, lat2, lon2) = (
        value(located.upper.station),
        value(located.upper.latitude),
        value(located.upper.longitude),
    );
    let lat = lat1 + (s - x1) * (lat2 - lat1) / (x2 - x1);
    let lon = lon1 + (s - x1) * (lon2 - lon1) / (x2 - x1);
    TextRecord {
        latitude: lat.to_string(),
        longitude: lon.to_string(),
        depth: value(located.measurement.depth).to_string(),
        resistivity: value(located.measurement.resistivity).to_string(),
    }
}

/// The whole run on tables held in memory; `None` where a table cannot be
/// split or a measurement field is not a number.
fn run(control_table: &[u8], measurement_table: &[u8]) -> Option<Vec<u8>> {
    let fields = control::read_candidates(control_table).ok()?;
    let parsed: Vec<Triple<Option<Binary64>>> = fields.iter().map(parse).collect();
    let points = control::control_points(&parsed);
    let fields = measurement::read_candidates(measurement_table).ok()?;
    let parsed: Vec<Triple<Option<Binary64>>> = fields.iter().map(parse).collect();
    let readings = measurement::measurements(&parsed).ok()?;
    let located = locate(&points, &readings, default_threshold());
    let records: Vec<TextRecord> = located.iter().map(interpolate).collect();
    encode(&records).ok()
}

#[test]
fn run_on_one_reading_between_two_control_points() {
    let out = run(b"0,10.0,20.0\n100,11.0,21.0\n", b"50 5.0 100.0\n").unwrap();
    assert_eq!(out, b"10.5 20.5 5 100\n".to_vec());
}

#[test]
fn run_drops_overflow_readings_and_readings_off_the_line() {
    let control_table = b"0,10.0,20.0\n12,abc,34.5\n100,11.0,21.0\n300,15.0,19.0\n";
    let measurement_table =
        b"50 5.0 100.0\n60 6.0 2.0e15\n-1 1 1\n200 7 8\n301 1 1\n300 2.5 1.70141e15\n";
    let out = run(control_table, measurement_table).unwrap();
    assert_eq!(out, b"10.5 20.5 5 100\n13 20 7 8\n15 19 2.5 1701410000000000\n".to_vec());
}

#[test]
fn run_aborts_on_a_malformed_measurement_row() {
    assert_eq!(run(b"0,10.0,20.0\n100,11.0,21.0\n", b"12 x 34\n"), None);
    assert_eq!(run(b"0,10.0,20.0\n100,11.0,21.0\n", b"50 5.0 100.0\n12 x 34\n"), None);
}

#[test]
fn run_twice_gives_identical_bytes() {
    let control_table = b"0,10.0,20.0\n100,11.0,21.0\n250,11.5,22.25\n";
    let measurement_table = b"50 5.0 100.0\n33.3 0.1 7e-3\n249.9 12 1e15\n";
    let first = run(control_table, measurement_table).unwrap();
    let second = run(control_table, measurement_table).unwrap();
    assert!(!first.is_empty());
    assert_eq!(first, second);
}

#[test]
fn run_without_control_points_writes_nothing() {
    assert_eq!(run(b"", b"50 5.0 100.0\n").unwrap(), Vec::<u8>::new());
    assert_eq!(run(b"0,10,20\n", b"0 5.0 100.0\n").unwrap(), Vec::<u8>::new());
}
