//! Tests of the configuration defaults.

use tcping::cli::Args;

#[test]
fn defaults_match_an_empty_command_line() {
    let a = Args::default();
    assert_eq!(a.host, "");
    assert_eq!(a.port, 80);
    assert_eq!(a.count, 0);
    assert_eq!(a.timeout, 1000);
    assert_eq!(a.interval, 1000);
    assert!(!a.ipv4);
    assert!(!a.ipv6);
    assert!(!a.verbose);
    assert!(!a.color);
}
