//! Time-windowed traffic counting: a rotating buffer of per-second bins of
//! per-address counts, aggregated into snapshots and ranked into reports.

pub mod config;
pub mod driver;
pub mod order;
pub mod rank;
pub mod snapshot;
pub mod tally;
pub mod window;
