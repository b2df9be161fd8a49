//! What holds of the engine whatever the tables are.

use vstd::prelude::*;
use crate::binary64::Binary64;
use crate::control::ControlPoint;
use crate::engine::{
    all_located, brackets, first_bracket, first_bracket_is_least, is_first_bracket, located_of,
    passes, stations_rise, Located,
};
use crate::measurement::Measurement;
use crate::sequence::{kept_is_no_longer, kept_of_both, kept_was_picked};

verus! {

/// A valid reading whose station lies in some bracket is located in the
/// first such bracket, in list order: the two control points between which
/// its coordinates are to be interpolated are those of that pair, and its
/// depth and resistivity go through unchanged.
pub proof fn valid_reading_is_located_in_first_bracket(
    points: Seq<ControlPoint>,
    m: Measurement,
    threshold: Binary64,
    i: int,
)
    requires
        passes(m, threshold),
        is_first_bracket(points, i, m.station),
    ensures
        located_of(points, m, threshold) == Some(
            Located { lower: points[i], upper: points[i + 1], measurement: m },
        ),
        points[i].station.at_most(m.station),
        m.station.at_most(points[i + 1].station),
{
    first_bracket_is_least(points, m.station);
}

/// A reading whose resistivity exceeds the threshold gives no record.
pub proof fn reading_above_threshold_is_dropped(
    points: Seq<ControlPoint>,
    m: Measurement,
    threshold: Binary64,
)
    requires
        m.resistivity.above(threshold),
    ensures
        located_of(points, m, threshold) is None,
{
}

/// A reading whose station lies outside every bracket of consecutive control
/// points gives no record. With fewer than two control points there is no
/// bracket, and every reading is dropped.
pub proof fn reading_outside_every_bracket_is_dropped(
    points: Seq<ControlPoint>,
    m: Measurement,
    threshold: Binary64,
)
    requires
        forall|i: int| !brackets(points, i, m.station),
    ensures
        located_of(points, m, threshold) is None,
{
    first_bracket_is_least(points, m.station);
}

/// A list of one reading gives the record of that reading, or nothing.
pub proof fn record_of_a_single_reading(
    points: Seq<ControlPoint>,
    m: Measurement,
    threshold: Binary64,
)
    ensures
        all_located(points, seq![m], threshold) == match located_of(points, m, threshold) {
            Some(record) => seq![record],
            None => Seq::empty(),
        },
{
    assert(seq![m].last() == m);
}

/// The engine works reading by reading: the records of two lists of
/// measurements, one after the other, are the records of the first followed
/// by the records of the second.
pub proof fn records_follow_the_measurements(
    points: Seq<ControlPoint>,
    front: Seq<Measurement>,
    back: Seq<Measurement>,
    threshold: Binary64,
)
    ensures
        all_located(points, front + back, threshold) == all_located(points, front, threshold)
            + all_located(points, back, threshold),
{
    kept_of_both(front, back, |m: Measurement| located_of(points, m, threshold));
}

/// A reading that gives no record leaves no trace in the output: the records
/// are those of the list without it. This holds of a reading above the
/// threshold and of one outside every bracket.
pub proof fn dropped_reading_leaves_no_trace(
    points: Seq<ControlPoint>,
    measurements: Seq<Measurement>,
    threshold: Binary64,
    j: int,
)
    requires
        0 <= j < measurements.len(),
        measurements[j].resistivity.above(threshold) || (forall|i: int|
            !brackets(points, i, measurements[j].station)),
    ensures
        all_located(points, measurements, threshold) == all_located(
            points,
            measurements.remove(j),
            threshold,
        ),
{
    let m = measurements[j];
    let front = measurements.take(j);
    let back = measurements.skip(j + 1);
    first_bracket_is_least(points, m.station);
    assert(located_of(points, m, threshold) is None);
    assert(measurements == (front + seq![m]) + back);
    assert(measurements.remove(j) == front + back);
    records_follow_the_measurements(points, front + seq![m], back, threshold);
    records_follow_the_measurements(points, front, seq![m], threshold);
    records_follow_the_measurements(points, front, back, threshold);
    record_of_a_single_reading(points, m, threshold);
}

/// Every record of the output stems from a measurement of the input that is
/// valid, and holds the first pair of consecutive control points that
/// encloses its station.
pub proof fn every_record_has_its_measurement(
    points: Seq<ControlPoint>,
    measurements: Seq<Measurement>,
    threshold: Binary64,
    k: int,
)
    requires
        0 <= k < all_located(points, measurements, threshold).len(),
    ensures
        ({
            let record = all_located(points, measurements, threshold)[k];
            &&& measurements.contains(record.measurement)
            &&& passes(record.measurement, threshold)
            &&& first_bracket(points, record.measurement.station) is Some
            &&& record.lower == points[first_bracket(points, record.measurement.station)->0]
            &&& record.upper == points[first_bracket(points, record.measurement.station)->0 + 1]
        }),
{
    kept_was_picked(measurements, |m: Measurement| located_of(points, m, threshold), k);
    let i = choose|i: int|
        0 <= i < measurements.len() && located_of(points, #[trigger] measurements[i], threshold)
            == Some(all_located(points, measurements, threshold)[k]);
    assert(measurements.contains(measurements[i]));
    first_bracket_is_least(points, measurements[i].station);
}

/// The output never holds more records than there are measurements.
pub proof fn no_more_records_than_measurements(
    points: Seq<ControlPoint>,
    measurements: Seq<Measurement>,
    threshold: Binary64,
)
    ensures
        all_located(points, measurements, threshold).len() <= measurements.len(),
{
    kept_is_no_longer(measurements, |m: Measurement| located_of(points, m, threshold));
}

/// The engine is repeatable: two runs on the same control points, the same
/// measurements and the same threshold give the same records.
pub proof fn locating_is_repeatable(
    points: Seq<ControlPoint>,
    measurements: Seq<Measurement>,
    threshold: Binary64,
    first: Vec<Located>,
    second: Vec<Located>,
)
    requires
        first@ == all_located(points, measurements, threshold),
        second@ == all_located(points, measurements, threshold),
    ensures
        first@ == second@,
{
}

/// In a rising list, an earlier station is at most a later one.
proof fn rising_stations_are_ordered(points: Seq<ControlPoint>, i: int, j: int)
    requires
        stations_rise(points),
        points.len() >= 2,
        0 <= i <= j < points.len(),
    ensures
        points[i].station.at_most(points[j].station),
    decreases j - i,
{
    if i == j {
        if i + 1 < points.len() {
            assert(points[i].station.at_most(points[i + 1].station));
        } else {
            assert(points[i - 1].station.at_most(points[i].station));
        }
    } else {
        rising_stations_are_ordered(points, i, j - 1);
        assert(points[j - 1].station.at_most(points[j].station));
    }
}

/// On the boundary: with at least two control points whose stations rise, a
/// valid reading taken exactly at the station of a control point is located,
/// and its station is that of one end of its bracket.
pub proof fn reading_at_a_control_point_is_located(
    points: Seq<ControlPoint>,
    m: Measurement,
    threshold: Binary64,
    k: int,
)
    requires
        stations_rise(points),
        points.len() >= 2,
        0 <= k < points.len(),
        m.station.same_number(points[k].station),
        passes(m, threshold),
    ensures
        located_of(points, m, threshold) is Some,
        ({
            let record = located_of(points, m, threshold)->0;
            ||| record.lower.station.same_number(m.station)
            ||| record.upper.station.same_number(m.station)
        }),
{
    let enclosing = if k + 1 < points.len() {
        k
    } else {
        k - 1
    };
    assert(points[enclosing].station.at_most(points[enclosing + 1].station));
    assert(brackets(points, enclosing, m.station));
    first_bracket_is_least(points, m.station);
    let i = first_bracket(points, m.station)->0;
    assert(is_first_bracket(points, i, m.station));
    if k <= i {
        rising_stations_are_ordered(points, k, i);
    } else {
        rising_stations_are_ordered(points, i + 1, k);
    }
}

} // verus!
