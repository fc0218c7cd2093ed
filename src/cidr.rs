use vstd::prelude::*;

use ipnetwork::{IpNetwork, Ipv4Network, Ipv6Network};
use std::str::FromStr;

use crate::grammar::chars_of;

verus! {

/// An address prefix: an IPv4 or IPv6 address together with a prefix length.
/// Equality is structural: family, address and prefix length.
#[allow(inconsistent_fields)]
#[derive(Clone, Copy, Debug, PartialEq, Eq, Hash, Structural)]
pub enum Cidr {
    V4 { addr: u32, prefix: u8 },
    V6 { addr: u128, prefix: u8 },
}

impl Cidr {
    /// The prefix length fits the address family.
    pub open spec fn valid(self) -> bool {
        match self {
            Cidr::V4 { prefix, .. } => prefix <= 32,
            Cidr::V6 { prefix, .. } => prefix <= 128,
        }
    }

    /// Reads a prefix in the standard textual notation (`10.0.0.0/24`,
    /// `2001:db8::/32`, or an address alone for a single host).
    pub fn parse(s: &str) -> (r: Option<Cidr>)
        ensures
            r == cidr_parsed(s@),
            r matches Some(c) ==> c.valid(),
    {
        let chars = chars_of(s);
        parse_cidr(&chars)
    }

    /// The standard textual notation of a valid prefix.
    pub fn to_text(&self) -> (r: String)
        requires
            self.valid(),
        ensures
            r@ == cidr_text(*self),
            cidr_parsed(r@) == Some(*self),
    {
        render_cidr(self)
    }
}

/// The characters that the textual form of a prefix is made of: decimal and
/// lower-case hexadecimal digits, `.`, `:` and `/`.
pub open spec fn cidr_char(ch: char) -> bool {
    ('0' <= ch && ch <= '9') || ('a' <= ch && ch <= 'f') || ch == '.' || ch == ':' || ch == '/'
}

/// What `IpNetwork::from_str` makes of a text, as a value of this library.
pub uninterp spec fn cidr_parsed(s: Seq<char>) -> Option<Cidr>;

/// The standard textual form of a prefix, as `IpNetwork`'s `Display` writes it.
pub uninterp spec fn cidr_text(c: Cidr) -> Seq<char>;

/// The notation of `c` is made of prefix characters only, is not empty, and
/// reads back as `c`.
pub open spec fn well_rendered(c: Cidr) -> bool {
    &&& cidr_text(c).len() > 0
    &&& forall|i: int| 0 <= i < cidr_text(c).len() ==> cidr_char(#[trigger] cidr_text(c)[i])
    &&& cidr_parsed(cidr_text(c)) == Some(c)
}

/// Relies on `IpNetwork::from_str` (ipnetwork 0.20): it tries IPv4, then
/// IPv6, and builds the network with `new`, which refuses a prefix longer
/// than the family's address.
#[verifier::external_body]
pub(crate) fn parse_cidr(s: &Vec<char>) -> (r: Option<Cidr>)
    ensures
        r == cidr_parsed(s@),
        r matches Some(c) ==> c.valid(),
{
    let text: String = s.iter().collect();
    match IpNetwork::from_str(&text) {
        Ok(IpNetwork::V4(n)) => Some(Cidr::V4 { addr: u32::from(n.ip()), prefix: n.prefix() }),
        Ok(IpNetwork::V6(n)) => Some(Cidr::V6 { addr: u128::from(n.ip()), prefix: n.prefix() }),
        Err(_) => None,
    }
}

/// Relies on `Display for IpNetwork` (ipnetwork 0.20), which writes
/// `"{ip}/{prefix}"` with std's `Display` of the address, and on
/// `IpNetwork::from_str` reading that text back to the same network: the
/// address parses back with std's `FromStr`, the prefix as a decimal number.
#[verifier::external_body]
pub(crate) fn render_cidr(c: &Cidr) -> (r: String)
    requires
        c.valid(),
    ensures
        r@ == cidr_text(*c),
        r@.len() > 0,
        forall|i: int| 0 <= i < r@.len() ==> cidr_char(#[trigger] r@[i]),
        cidr_parsed(r@) == Some(*c),
{
    let net = match *c {
        Cidr::V4 { addr, prefix } => IpNetwork::V4(Ipv4Network::new(addr.into(), prefix).unwrap()),
        Cidr::V6 { addr, prefix } => IpNetwork::V6(Ipv6Network::new(addr.into(), prefix).unwrap()),
    };
    net.to_string()
}

} // verus!
