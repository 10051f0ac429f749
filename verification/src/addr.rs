//! Internet addresses.

use vstd::prelude::*;

verus! {

/// An address of either version, by its octets in network order.
#[derive(Clone, Copy, Debug, PartialEq, Eq)]
pub enum IpAddr {
    /// A version 4 address.
    V4([u8; 4]),
    /// A version 6 address.
    V6([u8; 16]),
}

/// The version of an address and its octets.
#[verifier::ext_equal]
pub enum IpAddrView {
    V4(Seq<u8>),
    V6(Seq<u8>),
}

impl IpAddrView {
    /// The octets, in network order.
    pub open spec fn octets(self) -> Seq<u8> {
        match self {
            IpAddrView::V4(octets) => octets,
            IpAddrView::V6(octets) => octets,
        }
    }

    /// There are as many octets as an address of this version has.
    pub open spec fn well_formed(self) -> bool {
        match self {
            IpAddrView::V4(octets) => octets.len() == 4,
            IpAddrView::V6(octets) => octets.len() == 16,
        }
    }
}

impl View for IpAddr {
    type V = IpAddrView;

    open spec fn view(&self) -> IpAddrView {
        match self {
            IpAddr::V4(octets) => IpAddrView::V4(octets@),
            IpAddr::V6(octets) => IpAddrView::V6(octets@),
        }
    }
}

/// The address, by its octets.
pub open spec fn address_view(ip: Option<IpAddr>) -> Option<IpAddrView> {
    match ip {
        Some(ip) => Some(ip@),
        None => None,
    }
}

/// The address that a text stands for, if it does for one.
pub uninterp spec fn address_named(text: Seq<char>) -> Option<IpAddrView>;

/// `str::parse` for `core::net::IpAddr`: the address that the text stands for, and none where the
/// text cannot be parsed as one. Nothing is said of the address but that it is a function of the
/// text.
#[verifier::external_body]
pub(crate) fn parse_address(text: &str) -> (ip: Option<IpAddr>)
    ensures
        address_view(ip) == address_named(text@),
{
    match text.parse::<core::net::IpAddr>() {
        Ok(core::net::IpAddr::V4(ip)) => Some(IpAddr::V4(ip.octets())),
        Ok(core::net::IpAddr::V6(ip)) => Some(IpAddr::V6(ip.octets())),
        Err(_) => None,
    }
}

/// Whether two runs of bytes are equal.
pub fn same_bytes(a: &[u8], b: &[u8]) -> (same: bool)
    ensures
        same == (a@ == b@),
{
    if a.len() != b.len() {
        return false;
    }
    for i in 0..a.len()
        invariant
            a@.len() == b@.len(),
            forall|j: int| 0 <= j < i ==> a@[j] == b@[j],
    {
        if a[i] != b[i] {
            return false;
        }
    }
    assert(a@ =~= b@);
    true
}

impl IpAddr {
    /// Whether two addresses are equal: of the same version and with the same octets.
    pub fn same_as(&self, other: &IpAddr) -> (same: bool)
        ensures
            same == (self@ == other@),
    {
        match (self, other) {
            (IpAddr::V4(a), IpAddr::V4(b)) => same_bytes(a, b),
            (IpAddr::V6(a), IpAddr::V6(b)) => same_bytes(a, b),
            _ => false,
        }
    }
}

} // verus!
