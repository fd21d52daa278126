//! Address-family filtering and target selection.
//!
//! An IP address is modelled as its numeric value: 32 bits for IPv4, 128 bits
//! for IPv6. The unverified shell converts between this form and the
//! operating system's address types, performs the actual name lookup and
//! literal parsing, and hands the outcomes of both here, where the candidate
//! selection, the family filtering and the error decisions live.

use vstd::prelude::*;

verus! {

/// An IP address as a plain numeric value.
#[derive(Clone, Copy, Debug, PartialEq, Eq, Structural)]
pub enum IpAddress {
    /// An IPv4 address: four octets, big-endian.
    V4(u32),
    /// An IPv6 address: sixteen octets, big-endian.
    V6(u128),
}

impl IpAddress {
    /// Whether this is an IPv4 address.
    pub fn is_ipv4(&self) -> (r: bool)
        ensures
            r == self is V4,
    {
        match self {
            IpAddress::V4(_) => true,
            IpAddress::V6(_) => false,
        }
    }

    /// Whether this is an IPv6 address.
    pub fn is_ipv6(&self) -> (r: bool)
        ensures
            r == self is V6,
    {
        match self {
            IpAddress::V4(_) => false,
            IpAddress::V6(_) => true,
        }
    }
}

/// Why no usable target address could be produced.
#[derive(Clone, Copy, Debug, PartialEq, Eq, Structural)]
pub enum ResolveError {
    /// The host neither resolved to any address nor parsed as a literal one.
    ResolutionFailure,
    /// Addresses were found, but none of the requested family.
    NoAddressForFamily,
}

/// Whether the sequence holds at least one IPv4 address.
pub open spec fn has_v4(s: Seq<IpAddress>) -> bool {
    exists|i: int| 0 <= i < s.len() && s[i] is V4
}

/// The subsequence of one address family, in the original order: the IPv4
/// members when `want_v4`, the IPv6 members otherwise.
pub open spec fn filter_family(s: Seq<IpAddress>, want_v4: bool) -> Seq<IpAddress>
    decreases s.len(),
{
    if s.len() == 0 {
        Seq::empty()
    } else {
        let rest = filter_family(s.drop_last(), want_v4);
        let keep = if want_v4 {
            s.last() is V4
        } else {
            s.last() is V6
        };
        if keep {
            rest.push(s.last())
        } else {
            rest
        }
    }
}

/// The family kept by the preference flags on the candidate list `s`:
/// IPv4 under `ipv4`-only, IPv6 under `ipv6`-only, and under the automatic
/// preference IPv4 whenever any IPv4 candidate exists, else IPv6.
pub open spec fn keeps_v4(s: Seq<IpAddress>, ipv4: bool, ipv6: bool) -> bool {
    if ipv4 && !ipv6 {
        true
    } else if ipv6 && !ipv4 {
        false
    } else {
        has_v4(s)
    }
}

/// The candidate list after family filtering.
pub open spec fn filter_spec(s: Seq<IpAddress>, ipv4: bool, ipv6: bool) -> Seq<IpAddress> {
    filter_family(s, keeps_v4(s, ipv4, ipv6))
}

/// Every member of a family subsequence belongs to that family.
pub proof fn lemma_filter_family_members(s: Seq<IpAddress>, want_v4: bool)
    ensures
        forall|i: int|
            0 <= i < filter_family(s, want_v4).len() ==> (#[trigger] filter_family(s, want_v4)[i]
                is V4) == want_v4,
    decreases s.len(),
{
    if s.len() > 0 {
        lemma_filter_family_members(s.drop_last(), want_v4);
    }
}

/// A family subsequence keeps every member of its family: it is empty only
/// when the family has no member.
pub proof fn lemma_filter_family_complete(s: Seq<IpAddress>, want_v4: bool, i: int)
    requires
        0 <= i < s.len(),
        (s[i] is V4) == want_v4,
    ensures
        filter_family(s, want_v4).len() > 0,
    decreases s.len(),
{
    if i < s.len() - 1 {
        lemma_filter_family_complete(s.drop_last(), want_v4, i);
    }
}

/// Family filtering never mixes: under the automatic preference the result is
/// all-IPv4 (and non-empty) whenever any IPv4 candidate exists, else
/// all-IPv6.
pub proof fn lemma_auto_filter_never_mixes(s: Seq<IpAddress>)
    ensures
        has_v4(s) ==> filter_spec(s, false, false).len() > 0,
        has_v4(s) ==> forall|i: int|
            0 <= i < filter_spec(s, false, false).len() ==> #[trigger] filter_spec(
                s,
                false,
                false,
            )[i] is V4,
        !has_v4(s) ==> forall|i: int|
            0 <= i < filter_spec(s, false, false).len() ==> #[trigger] filter_spec(
                s,
                false,
                false,
            )[i] is V6,
{
    if has_v4(s) {
        let w = choose|i: int| 0 <= i < s.len() && s[i] is V4;
        lemma_filter_family_complete(s, true, w);
        lemma_filter_family_members(s, true);
    } else {
        lemma_filter_family_members(s, false);
        assert forall|i: int|
            0 <= i < filter_spec(s, false, false).len() implies #[trigger] filter_spec(
            s,
            false,
            false,
        )[i] is V6 by {
            assert((filter_spec(s, false, false)[i] is V4) == false);
        }
    }
}

/// The sequence view of an optional address vector.
pub open spec fn opt_addrs_view(o: Option<Vec<IpAddress>>) -> Option<Seq<IpAddress>> {
    match o {
        Some(v) => Some(v@),
        None => None,
    }
}

/// The candidate list the resolver works from: the looked-up addresses when
/// the lookup succeeded with at least one, else the literal address when the
/// host string parsed as one, else nothing.
pub open spec fn candidates_spec(
    lookup: Option<Seq<IpAddress>>,
    literal: Option<IpAddress>,
) -> Option<Seq<IpAddress>> {
    if lookup is Some && lookup->0.len() > 0 {
        Some(lookup->0)
    } else if literal is Some {
        Some(seq![literal->0])
    } else {
        None
    }
}

/// The resolver's decision: `ResolutionFailure` when there is no candidate at
/// all, `NoAddressForFamily` when filtering empties the candidate list, and
/// otherwise the filtered list, whose first element becomes the run's target.
pub open spec fn resolve_spec(
    lookup: Option<Seq<IpAddress>>,
    literal: Option<IpAddress>,
    ipv4: bool,
    ipv6: bool,
) -> Result<Seq<IpAddress>, ResolveError> {
    match candidates_spec(lookup, literal) {
        None => Err(ResolveError::ResolutionFailure),
        Some(c) => {
            let f = filter_spec(c, ipv4, ipv6);
            if f.len() == 0 {
                Err(ResolveError::NoAddressForFamily)
            } else {
                Ok(f)
            }
        },
    }
}

/// Turns the outcomes of a name lookup (`lookup`) and of parsing the host
/// string as a literal address (`literal`) into the run's non-empty target
/// list, or the error that ends the run before any probe: the lookup result
/// is preferred when it is non-empty, the literal is the fallback, and the
/// family preference is applied to whichever was chosen.
pub fn resolve_host(
    lookup: Option<Vec<IpAddress>>,
    literal: Option<IpAddress>,
    ipv4: bool,
    ipv6: bool,
) -> (r: Result<Vec<IpAddress>, ResolveError>)
    ensures
        match r {
            Ok(v) => resolve_spec(opt_addrs_view(lookup), literal, ipv4, ipv6) == Ok::<
                Seq<IpAddress>,
                ResolveError,
            >(v@) && v@.len() > 0,
            Err(e) => resolve_spec(opt_addrs_view(lookup), literal, ipv4, ipv6) == Err::<
                Seq<IpAddress>,
                ResolveError,
            >(e),
        },
{
    let candidates: Vec<IpAddress> = match lookup {
        Some(ips) => {
            if ips.len() > 0 {
                ips
            } else {
                match literal {
                    Some(ip) => {
                        let mut one: Vec<IpAddress> = Vec::new();
                        one.push(ip);
                        proof {
                            assert(one@ =~= seq![ip]);
                        }
                        one
                    },
                    None => {
                        return Err(ResolveError::ResolutionFailure);
                    },
                }
            }
        },
        None => {
            match literal {
                Some(ip) => {
                    let mut one: Vec<IpAddress> = Vec::new();
                    one.push(ip);
                    proof {
                        assert(one@ =~= seq![ip]);
                    }
                    one
                },
                None => {
                    return Err(ResolveError::ResolutionFailure);
                },
            }
        },
    };
    let filtered = filter_ip_addresses(candidates, ipv4, ipv6);
    if filtered.len() == 0 {
        Err(ResolveError::NoAddressForFamily)
    } else {
        Ok(filtered)
    }
}

/// Whether the vector holds at least one IPv4 address.
fn contains_v4(addrs: &Vec<IpAddress>) -> (r: bool)
    ensures
        r == has_v4(addrs@),
{
    let mut i: usize = 0;
    while i < addrs.len()
        invariant
            i <= addrs@.len(),
            forall|k: int| 0 <= k < i ==> !(addrs@[k] is V4),
        decreases addrs@.len() - i,
    {
        if addrs[i].is_ipv4() {
            return true;
        }
        i = i + 1;
    }
    false
}

/// Applies the address-family preference to a candidate list: `ipv4`-only
/// keeps the IPv4 members, `ipv6`-only the IPv6 members, and the automatic
/// preference (neither or both flags) keeps the IPv4 members whenever any
/// exists, else the IPv6 members — never a mix. Order is preserved.
pub fn filter_ip_addresses(addrs: Vec<IpAddress>, ipv4: bool, ipv6: bool) -> (r: Vec<IpAddress>)
    ensures
        r@ == filter_spec(addrs@, ipv4, ipv6),
{
    let want_v4: bool = if ipv4 && !ipv6 {
        true
    } else if ipv6 && !ipv4 {
        false
    } else {
        contains_v4(&addrs)
    };
    let mut out: Vec<IpAddress> = Vec::new();
    let mut i: usize = 0;
    proof {
        assert(addrs@.take(0) =~= Seq::<IpAddress>::empty());
    }
    while i < addrs.len()
        invariant
            i <= addrs@.len(),
            out@ == filter_family(addrs@.take(i as int), want_v4),
        decreases addrs@.len() - i,
    {
        let keep = if want_v4 {
            addrs[i].is_ipv4()
        } else {
            addrs[i].is_ipv6()
        };
        if keep {
            out.push(addrs[i]);
        }
        proof {
            assert(addrs@.take(i + 1 as int).drop_last() =~= addrs@.take(i as int));
            assert(addrs@.take(i + 1 as int).last() == addrs@[i as int]);
        }
        i = i + 1;
    }
    proof {
        assert(addrs@.take(addrs@.len() as int) =~= addrs@);
    }
    out
}

} // verus!
