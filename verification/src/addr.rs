//! CIDR addresses as plain values.
//!
//! The library holds an IPv4 or IPv6 network as its numeric address and
//! prefix length, with the family's prefix bound as the type's invariant.
//! Turning CIDR text into these values is the work of the `ipnetwork` crate,
//! behind the two trusted parsers at the bottom; everything else about
//! addresses is verified.

use vstd::prelude::*;

verus! {

/// An IPv4 network: address as one 32-bit value, prefix length at most 32.
#[derive(Debug, Clone, Copy, PartialEq, Eq, Structural)]
pub struct Ipv4Cidr {
    pub addr: u32,
    pub prefix: u8,
}

/// An IPv6 network: address as one 128-bit value, prefix length at most 128.
#[derive(Debug, Clone, Copy, PartialEq, Eq, Structural)]
pub struct Ipv6Cidr {
    pub addr: u128,
    pub prefix: u8,
}

/// A network of either family.
#[derive(Debug, Clone, Copy, PartialEq, Eq, Structural)]
pub enum IpCidr {
    V4(Ipv4Cidr),
    V6(Ipv6Cidr),
}

impl Ipv4Cidr {
    /// The prefix length fits the family.
    pub open spec fn wf(self) -> bool {
        self.prefix <= 32
    }
}

impl Ipv6Cidr {
    /// The prefix length fits the family.
    pub open spec fn wf(self) -> bool {
        self.prefix <= 128
    }
}

impl IpCidr {
    /// The prefix length fits the family.
    pub open spec fn wf(self) -> bool {
        match self {
            IpCidr::V4(c) => c.wf(),
            IpCidr::V6(c) => c.wf(),
        }
    }

    /// The prefix length of the network.
    pub fn prefix(&self) -> (p: u8)
        ensures
            p == self.spec_prefix(),
    {
        match self {
            IpCidr::V4(c) => c.prefix,
            IpCidr::V6(c) => c.prefix,
        }
    }

    /// The prefix length as a mathematical value.
    pub open spec fn spec_prefix(self) -> u8 {
        match self {
            IpCidr::V4(c) => c.prefix,
            IpCidr::V6(c) => c.prefix,
        }
    }
}

/// What IPv4 CIDR text parses to: the numeric address and the prefix length,
/// or `None` when the text is not a valid IPv4 network. A function of the
/// text alone.
pub uninterp spec fn ipv4_cidr_of(s: Seq<char>) -> Option<(u32, u8)>;

/// What IPv6 CIDR text parses to, or `None` when invalid. A function of the
/// text alone.
pub uninterp spec fn ipv6_cidr_of(s: Seq<char>) -> Option<(u128, u8)>;

/// Relies on ipnetwork::Ipv4Network::from_str: parses CIDR text on the text
/// alone, and a parsed network always carries a prefix of at most 32.
#[verifier::external_body]
pub(crate) fn parse_ipv4_cidr(s: &String) -> (r: Option<Ipv4Cidr>)
    ensures
        match r {
            Some(c) => ipv4_cidr_of(s@) == Some((c.addr, c.prefix)) && c.prefix <= 32,
            None => ipv4_cidr_of(s@) is None,
        },
{
    match s.parse::<ipnetwork::Ipv4Network>() {
        Ok(n) => Some(Ipv4Cidr { addr: u32::from(n.ip()), prefix: n.prefix() }),
        Err(_) => None,
    }
}

/// Relies on ipnetwork::Ipv6Network::from_str: parses CIDR text on the text
/// alone, and a parsed network always carries a prefix of at most 128.
#[verifier::external_body]
pub(crate) fn parse_ipv6_cidr(s: &String) -> (r: Option<Ipv6Cidr>)
    ensures
        match r {
            Some(c) => ipv6_cidr_of(s@) == Some((c.addr, c.prefix)) && c.prefix <= 128,
            None => ipv6_cidr_of(s@) is None,
        },
{
    match s.parse::<ipnetwork::Ipv6Network>() {
        Ok(n) => Some(Ipv6Cidr { addr: u128::from(n.ip()), prefix: n.prefix() }),
        Err(_) => None,
    }
}

} // verus!
