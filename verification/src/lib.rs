//! Passenger-flow composition for a line of transit stations.
//!
//! The library models where passengers stand along a platform (positions on
//! a 0..100 scale, held in integer thousandths), turns stair locations into
//! mixture-distribution parameters, converts origin-destination and link-load
//! passenger counts into exact boarding proportions, composes per-station
//! boarding densities into net-occupancy weights by a linear recurrence, and
//! propagates a finite sampled population from station to station with exact
//! count bookkeeping.

pub mod errors;
pub mod ratio;
pub mod sums;
pub mod mixture;
pub mod compose;
pub mod population;
pub mod od;
pub mod linkload;
