//! Tests of address-family filtering and target resolution.

use tcping::network::filter_ip_addresses;
use tcping::network::resolve_host;
use tcping::network::IpAddress;
use tcping::network::ResolveError;

const V4_A: IpAddress = IpAddress::V4(0xC0A80001);
const V4_B: IpAddress = IpAddress::V4(0x7F000001);
const V6_A: IpAddress = IpAddress::V6(0x20010DB8_0000_0000_0000_0000_0000_0001);
const V6_B: IpAddress = IpAddress::V6(1);

#[test]
fn ipv4_only_keeps_only_ipv4() {
    let mixed = vec![V6_A, V4_A, V6_B, V4_B];
    assert_eq!(filter_ip_addresses(mixed, true, false), vec![V4_A, V4_B]);
}

#[test]
fn ipv6_only_keeps_only_ipv6() {
    let mixed = vec![V6_A, V4_A, V6_B, V4_B];
    assert_eq!(filter_ip_addresses(mixed, false, true), vec![V6_A, V6_B]);
}

#[test]
fn auto_prefers_ipv4_and_never_mixes() {
    let mixed = vec![V6_A, V4_A, V6_B, V4_B];
    let kept = filter_ip_addresses(mixed, false, false);
    assert_eq!(kept, vec![V4_A, V4_B]);
    assert!(kept.iter().all(|ip| ip.is_ipv4()));
}

#[test]
fn auto_falls_back_to_ipv6() {
    let only_v6 = vec![V6_A, V6_B];
    let kept = filter_ip_addresses(only_v6, false, false);
    assert_eq!(kept, vec![V6_A, V6_B]);
    assert!(kept.iter().all(|ip| ip.is_ipv6()));
}

#[test]
fn filtering_preserves_order() {
    let mixed = vec![V4_B, V6_A, V4_A];
    assert_eq!(filter_ip_addresses(mixed, true, false), vec![V4_B, V4_A]);
}

#[test]
fn resolve_uses_lookup_result_first() {
    let r = resolve_host(Some(vec![V6_A, V4_A]), None, false, false);
    assert_eq!(r, Ok(vec![V4_A]));
}

#[test]
fn resolve_falls_back_to_literal_when_lookup_fails() {
    let r = resolve_host(None, Some(V4_A), false, false);
    assert_eq!(r, Ok(vec![V4_A]));
}

#[test]
fn resolve_falls_back_to_literal_when_lookup_is_empty() {
    let r = resolve_host(Some(vec![]), Some(V6_A), false, false);
    assert_eq!(r, Ok(vec![V6_A]));
}

#[test]
fn resolve_fails_when_nothing_resolves() {
    let r = resolve_host(None, None, false, false);
    assert_eq!(r, Err(ResolveError::ResolutionFailure));
}

#[test]
fn ipv6_literal_with_ipv4_only_is_a_family_error() {
    let r = resolve_host(None, Some(V6_A), true, false);
    assert_eq!(r, Err(ResolveError::NoAddressForFamily));
}

#[test]
fn lookup_without_requested_family_is_a_family_error() {
    let r = resolve_host(Some(vec![V4_A, V4_B]), None, false, true);
    assert_eq!(r, Err(ResolveError::NoAddressForFamily));
}
