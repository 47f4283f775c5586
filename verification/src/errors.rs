//! Error values shared by the flow calculators.

use vstd::prelude::*;

verus! {

/// A numeric field of an external table could not be read as a count.
#[derive(Clone, Copy, Debug, PartialEq, Eq, Structural)]
pub struct ParseError;

/// The passenger counts are inconsistent: at some station more passengers
/// would alight than are present. Carries the counts for diagnosis.
#[derive(Clone, Copy, Debug, PartialEq, Eq, Structural)]
pub struct DataError {
    /// Passengers present just before the offending alighting step.
    pub present: u64,
    /// Passengers that the data says alight there.
    pub alighting: i64,
}

/// Composing the density weights exceeded the machine word.
#[derive(Clone, Copy, Debug, PartialEq, Eq, Structural)]
pub struct OverflowError;

/// What can go wrong reading one line's link-load table.
#[derive(Clone, Copy, Debug, PartialEq, Eq, Structural)]
pub enum LinkLoadError {
    /// No group of the table names the requested line.
    MissingLine,
    /// A station row is too short or holds a malformed numeric field.
    Parse(ParseError),
    /// The counts are inconsistent at some station.
    Data(DataError),
}

} // verus!
