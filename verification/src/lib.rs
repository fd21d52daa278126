//! A verified core for a TCP connect-latency probe ("TCP ping").
//!
//! The library holds the logic of the tool: address-family filtering and
//! target selection, classification of a single timed connection attempt
//! against its timeout budget, the probe-loop state machine, and the running
//! statistics aggregator (loss, extrema, average, median, jitter, sample
//! standard deviation). All durations are carried as whole nanoseconds.
//!
//! The unverified shell around the library performs the actual I/O: argument
//! parsing, DNS lookup, opening TCP connections, sleeping between probes,
//! signal handling, and terminal output.

pub mod cli;
pub mod network;
pub mod probe;
pub mod stats;
