//! Monte Carlo estimation of π: work partitioning, exact quarter-circle
//! classification, batch sampling, shared progress counters and the
//! aggregation of a run.
pub mod counters;
pub mod estimate;
pub mod input;
pub mod partition;
pub mod run;
pub mod sample;
pub mod source;
