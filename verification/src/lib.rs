//! Geocoding of station-indexed resistivity measurements.
//!
//! A survey records readings against a one-dimensional station axis; mapping
//! tools want latitude and longitude. This crate holds the rules that take a
//! table of control points (station, latitude, longitude) and a table of
//! measurements (station, depth, resistivity) to the rows of the result
//! table: how the two tables are split into fields, which rows are kept,
//! which readings pass the resistivity threshold, and between which two
//! consecutive control points each reading lies.
//!
//! Numbers are carried as IEEE 754 binary64 bit patterns ([`binary64::Binary64`]).
//! Turning text into such a pattern, the interpolation arithmetic itself and
//! turning a pattern back into text are left to the caller, as is all
//! file access.

pub mod binary64;
pub mod control;
pub mod engine;
pub mod fields;
pub mod laws;
pub mod measurement;
pub mod output;
pub mod sequence;
pub mod table;
pub mod token;
