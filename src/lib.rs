//! A per-tick resource-flow engine: stockpiles joined by production and
//! conversion links, advanced once per step under capacity limits.
//!
//! Quantities are fixed-point integers: amounts and capacities in
//! millionths of a unit, rates in thousandths of a unit per second, elapsed
//! time in milliseconds and stack multipliers in thousandths. A rate times
//! an elapsed time is then an amount, with no rounding.
pub mod model;
pub mod production;
pub mod caps;
pub mod conversion;
pub mod step;
pub mod laws;
pub mod report;
pub mod topology;
