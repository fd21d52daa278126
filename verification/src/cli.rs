//! The run's configuration, as plain values.
//!
//! The unverified shell parses the command line (including the rule that the
//! two family flags exclude one another) and fills this struct; the library
//! only reads it.

use vstd::prelude::*;

verus! {

/// The configuration of one run.
pub struct Args {
    /// Target host name or IP address literal.
    pub host: String,
    /// Target port.
    pub port: u16,
    /// How many probes to send; 0 means unbounded.
    pub count: u32,
    /// Timeout budget of one probe, in milliseconds.
    pub timeout: u64,
    /// Pause between probes, in milliseconds.
    pub interval: u64,
    /// Keep only IPv4 addresses.
    pub ipv4: bool,
    /// Keep only IPv6 addresses.
    pub ipv6: bool,
    /// Verbose per-probe and summary output.
    pub verbose: bool,
    /// Colorized output.
    pub color: bool,
}

impl Default for Args {
    /// The defaults of an empty command line: port 80, unbounded count, one
    /// second of timeout and of interval, automatic family preference, terse
    /// plain output — and no host yet.
    fn default() -> (r: Args)
        ensures
            r.host@.len() == 0,
            r.port == 80,
            r.count == 0,
            r.timeout == 1000,
            r.interval == 1000,
            !r.ipv4,
            !r.ipv6,
            !r.verbose,
            !r.color,
    {
        Args {
            host: String::new(),
            port: 80,
            count: 0,
            timeout: 1000,
            interval: 1000,
            ipv4: false,
            ipv6: false,
            verbose: false,
            color: false,
        }
    }
}

} // verus!
