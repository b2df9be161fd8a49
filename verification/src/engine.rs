//! The interpolation engine's decisions: which readings are valid, and
//! between which two consecutive control points each of them lies.
//!
//! The control points are taken in the order given. The engine sorts
//! nothing and relies on rising stations without checking them: where
//! brackets overlap, the first one in list order that holds the station
//! wins. Whether the stations do rise is a question for [`first_disorder`].

use vstd::prelude::*;
use crate::binary64::Binary64;
use crate::control::ControlPoint;
use crate::measurement::Measurement;
use crate::sequence::{kept, kept_of_one_more};

verus! {

/// The pattern of 1.70141e15, the resistivity above which a reading is the
/// instrument's mark for "no data".
pub const DEFAULT_THRESHOLD_BITS: u64 = 0x4318_2db1_8aab_5000u64;

/// A valid reading together with the two consecutive control points between
/// whose stations its station lies: all that the interpolation of its
/// coordinates needs.
#[derive(Clone, Copy, Debug, PartialEq, Eq, Structural)]
pub struct Located {
    pub lower: ControlPoint,
    pub upper: ControlPoint,
    pub measurement: Measurement,
}

/// One record of the result: the interpolated coordinates of a reading with
/// the reading's own depth and resistivity.
#[derive(Clone, Copy, Debug, PartialEq, Eq, Structural)]
pub struct InterpolatedRecord {
    pub latitude: Binary64,
    pub longitude: Binary64,
    pub depth: Binary64,
    pub resistivity: Binary64,
}

impl Located {
    /// The two control points stand at the same station, so that the
    /// interpolation divides by zero and its outcome is not finite.
    pub open spec fn degenerate(self) -> bool {
        self.lower.station.same_number(self.upper.station)
    }

    /// Whether the bracket spans no distance at all. Such a reading still
    /// gives a record; its coordinates are not finite.
    pub fn is_degenerate(&self) -> (b: bool)
        ensures
            b == self.degenerate(),
    {
        self.lower.station.same(self.upper.station)
    }

    /// The record of this reading, given the coordinates interpolated for
    /// it: depth and resistivity are the reading's, untouched.
    pub fn record(&self, latitude: Binary64, longitude: Binary64) -> (r: InterpolatedRecord)
        ensures
            r == (InterpolatedRecord {
                latitude,
                longitude,
                depth: self.measurement.depth,
                resistivity: self.measurement.resistivity,
            }),
    {
        InterpolatedRecord {
            latitude,
            longitude,
            depth: self.measurement.depth,
            resistivity: self.measurement.resistivity,
        }
    }
}

/// The reading is valid: its resistivity does not exceed the threshold.
pub open spec fn passes(m: Measurement, threshold: Binary64) -> bool {
    m.resistivity.at_most(threshold)
}

/// Control points `i` and `i + 1` bracket the station: it lies in the closed
/// interval between their stations, taken in this order.
pub open spec fn brackets(points: Seq<ControlPoint>, i: int, station: Binary64) -> bool {
    &&& 0 <= i
    &&& i + 1 < points.len()
    &&& points[i].station.at_most(station)
    &&& station.at_most(points[i + 1].station)
}

/// Pair `i` brackets the station and no earlier pair does.
pub open spec fn is_first_bracket(points: Seq<ControlPoint>, i: int, station: Binary64) -> bool {
    &&& brackets(points, i, station)
    &&& forall|j: int| 0 <= j < i ==> !brackets(points, j, station)
}

/// The first pair from pair `start` on, in list order, that brackets the
/// station, if any does. The case of the last pair is spelled out, so that a
/// short list unfolds within the default fuel.
pub open spec fn first_bracket_from(
    points: Seq<ControlPoint>,
    station: Binary64,
    start: int,
) -> Option<int>
    decreases points.len() - start,
{
    if start < 0 || start + 1 >= points.len() {
        None
    } else if brackets(points, start, station) {
        Some(start)
    } else if start + 2 >= points.len() {
        None
    } else {
        first_bracket_from(points, station, start + 1)
    }
}

/// The first pair of consecutive control points, in list order, that
/// brackets the station, if any does.
pub open spec fn first_bracket(points: Seq<ControlPoint>, station: Binary64) -> Option<int> {
    first_bracket_from(points, station, 0)
}

/// What becomes of one reading: it is located in its first bracket if it is
/// valid and has one, and dropped otherwise.
pub open spec fn located_of(
    points: Seq<ControlPoint>,
    m: Measurement,
    threshold: Binary64,
) -> Option<Located> {
    if passes(m, threshold) {
        match first_bracket(points, m.station) {
            Some(i) => Some(Located { lower: points[i], upper: points[i + 1], measurement: m }),
            None => None,
        }
    } else {
        None
    }
}

/// The located readings of a list of measurements, in the order of the
/// measurements.
pub open spec fn all_located(
    points: Seq<ControlPoint>,
    measurements: Seq<Measurement>,
    threshold: Binary64,
) -> Seq<Located> {
    kept(measurements, |m: Measurement| located_of(points, m, threshold))
}

/// From pair `start` on, `first_bracket_from` finds the least pair that
/// brackets the station, and finds none only where there is none.
proof fn first_bracket_from_is_least(points: Seq<ControlPoint>, station: Binary64, start: int)
    requires
        0 <= start,
    ensures
        match first_bracket_from(points, station, start) {
            Some(i) => {
                &&& start <= i
                &&& brackets(points, i, station)
                &&& forall|j: int| start <= j < i ==> !brackets(points, j, station)
            },
            None => forall|j: int| start <= j ==> !brackets(points, j, station),
        },
    decreases points.len() - start,
{
    if start + 1 < points.len() && !brackets(points, start, station) && start + 2 < points.len() {
        first_bracket_from_is_least(points, station, start + 1);
    }
}

/// `first_bracket` names the one pair that `is_first_bracket` holds of, and
/// is `None` exactly where no pair brackets the station.
pub proof fn first_bracket_is_least(points: Seq<ControlPoint>, station: Binary64)
    ensures
        match first_bracket(points, station) {
            Some(i) => is_first_bracket(points, i, station),
            None => forall|j: int| !brackets(points, j, station),
        },
        forall|i: int|
            is_first_bracket(points, i, station) ==> first_bracket(points, station) == Some(i),
{
    first_bracket_from_is_least(points, station, 0);
    assert forall|i: int| is_first_bracket(points, i, station) implies first_bracket(
        points,
        station,
    ) == Some(i) by {
        match first_bracket(points, station) {
            Some(k) => {
                if k < i {
                    assert(!brackets(points, k, station));
                }
                if i < k {
                    assert(!brackets(points, i, station));
                }
            },
            None => {
                assert(!brackets(points, i, station));
            },
        }
    }
}

/// The stations of the control points rise: each is at or below the next.
pub open spec fn stations_rise(points: Seq<ControlPoint>) -> bool {
    forall|i: int|
        0 <= i && i + 1 < points.len() ==> (#[trigger] points[i]).station.at_most(
            points[i + 1].station,
        )
}

/// Pair `i` is the first whose second station is not at or above its first.
pub open spec fn is_first_disorder(points: Seq<ControlPoint>, i: int) -> bool {
    &&& 0 <= i
    &&& i + 1 < points.len()
    &&& !points[i].station.at_most(points[i + 1].station)
    &&& forall|j: int| 0 <= j < i ==> (#[trigger] points[j]).station.at_most(points[j + 1].station)
}

/// Looks for disorder in the control points, on which the engine relies
/// without checking: the index of the first pair of consecutive control
/// points whose stations fall, or of which one is not a number. `None` means
/// that the stations rise throughout. The list is left as it is.
pub fn first_disorder(points: &Vec<ControlPoint>) -> (r: Option<usize>)
    ensures
        match r {
            Some(i) => is_first_disorder(points@, i as int),
            None => stations_rise(points@),
        },
{
    if points.len() < 2 {
        return None;
    }
    let last: usize = points.len() - 1;
    let mut i: usize = 0;
    while i < last
        invariant
            last + 1 == points.len(),
            i <= last,
            forall|j: int|
                0 <= j < i ==> (#[trigger] points[j]).station.at_most(points[j + 1].station),
        decreases last - i,
    {
        if !points[i].station.le(points[i + 1].station) {
            return Some(i);
        }
        i = i + 1;
    }
    None
}

/// The default resistivity threshold.
pub fn default_threshold() -> (threshold: Binary64)
    ensures
        threshold.bits == DEFAULT_THRESHOLD_BITS,
{
    Binary64 { bits: DEFAULT_THRESHOLD_BITS }
}

/// Scans the consecutive pairs of control points from the first to the last
/// and returns the index of the first pair whose stations enclose `station`,
/// both ends included. `None` where no pair does, as with fewer than two
/// control points or a station that is not a number.
pub fn find_bracket(points: &Vec<ControlPoint>, station: Binary64) -> (r: Option<usize>)
    ensures
        match r {
            Some(i) => is_first_bracket(points@, i as int, station),
            None => forall|j: int| !brackets(points@, j, station),
        },
        match r {
            Some(i) => first_bracket(points@, station) == Some(i as int),
            None => first_bracket(points@, station) is None,
        },
{
    if points.len() < 2 {
        proof {
            first_bracket_is_least(points@, station);
        }
        return None;
    }
    let last: usize = points.len() - 1;
    let mut i: usize = 0;
    while i < last
        invariant
            last + 1 == points.len(),
            i <= last,
            forall|j: int| 0 <= j < i ==> !brackets(points@, j, station),
        decreases last - i,
    {
        if points[i].station.le(station) && station.le(points[i + 1].station) {
            proof {
                assert(is_first_bracket(points@, i as int, station));
                first_bracket_is_least(points@, station);
            }
            return Some(i);
        }
        i = i + 1;
    }
    proof {
        first_bracket_is_least(points@, station);
        if first_bracket(points@, station) is Some {
            assert(brackets(points@, first_bracket(points@, station)->0, station));
        }
    }
    None
}

/// Decides what becomes of one reading. A reading whose resistivity exceeds
/// the threshold, or is not a number, is dropped. So is one whose station
/// no pair of consecutive control points encloses. Any other reading is
/// returned with the first pair that does, its depth and resistivity
/// untouched.
pub fn locate_one(
    points: &Vec<ControlPoint>,
    m: Measurement,
    threshold: Binary64,
) -> (r: Option<Located>)
    ensures
        r == located_of(points@, m, threshold),
{
    if !m.resistivity.le(threshold) {
        return None;
    }
    let found = find_bracket(points, m.station);
    proof {
        first_bracket_is_least(points@, m.station);
        if found is Some {
            assert(found->0 + 1 < points.len());
        }
    }
    match found {
        Some(i) => Some(Located { lower: points[i], upper: points[i + 1], measurement: m }),
        None => None,
    }
}

/// Runs the engine over all measurements, in their order: each valid reading
/// that some pair of consecutive control points encloses gives one located
/// reading, and every other reading gives nothing.
pub fn locate(
    points: &Vec<ControlPoint>,
    measurements: &Vec<Measurement>,
    threshold: Binary64,
) -> (out: Vec<Located>)
    ensures
        out@ == all_located(points@, measurements@, threshold),
{
    let mut out: Vec<Located> = Vec::new();
    let mut k: usize = 0;
    while k < measurements.len()
        invariant
            k <= measurements.len(),
            out@ == all_located(points@, measurements@.take(k as int), threshold),
        decreases measurements.len() - k,
    {
        proof {
            assert(measurements@.take(k + 1) == measurements@.take(k as int).push(
                measurements[k as int],
            ));
            kept_of_one_more(
                measurements@.take(k as int),
                |m: Measurement| located_of(points@, m, threshold),
                measurements[k as int],
            );
        }
        match locate_one(points, measurements[k], threshold) {
            Some(located) => {
                out.push(located);
            },
            None => {},
        }
        k = k + 1;
    }
    proof {
        assert(measurements@.take(measurements.len() as int) == measurements@);
    }
    out
}

} // verus!
