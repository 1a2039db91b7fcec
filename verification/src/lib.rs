//! A discrete-time simulator for classic preemptive real-time scheduling
//! policies (rate-monotonic, earliest-deadline-first, least-slack-time).
//!
//! The library models periodic task sets, runs a tick-by-tick simulation
//! over one hyperperiod, and records which job runs at each instant, which
//! jobs arrive, and which miss their deadlines.

pub mod engine;
pub mod scheduler;
pub mod structs;
pub mod utils;
