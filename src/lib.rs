//! Energy accounting engine: learns idle power baselines for a CPU and a GPU,
//! integrates the power above them into a joule ledger, and serves snapshots
//! and debits of that ledger.
//!
//! Units are integers throughout: power in milliwatts, time in milliseconds,
//! energy in microjoules (one milliwatt for one millisecond), CPU utilization
//! in hundredths of a percent, and the smoothing weight in parts per million.

pub mod config;
pub mod power;
pub mod baseline;
pub mod ledger;
pub mod sample;
pub mod engine;
