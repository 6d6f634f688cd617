//! IP addresses.

use crate::bytes::{be_bytes, be_nat, read_be, to_be};
use vstd::prelude::*;

verus! {

/// An address, as the number that its octets spell.
#[derive(Debug, Clone, Copy, PartialEq, Eq, Structural, Hash)]
pub enum IpAddr {
    V4(u32),
    V6(u128),
}

impl IpAddr {
    /// The address's octets.
    pub open spec fn octets_of(self) -> Seq<u8> {
        match self {
            IpAddr::V4(v) => be_bytes(v as nat, 4),
            IpAddr::V6(v) => be_bytes(v as nat, 16),
        }
    }

    /// The address's octets, most significant first.
    pub fn octets(&self) -> (o: Vec<u8>)
        ensures
            o@ == self.octets_of(),
            o@.len() == (if self is V4 {
                4nat
            } else {
                16nat
            }),
    {
        proof {
            crate::bytes::lemma_be_bytes_len(self->V4_0 as nat, 4);
            crate::bytes::lemma_be_bytes_len(self->V6_0 as nat, 16);
        }
        match self {
            IpAddr::V4(v) => to_be(*v as u128, 4),
            IpAddr::V6(v) => to_be(*v, 16),
        }
    }

    /// Whether this is an IPv4 address.
    pub fn is_ipv4(&self) -> (r: bool)
        ensures
            r == (self is V4),
    {
        matches!(self, IpAddr::V4(_))
    }

    /// An IPv4 address from four octets.
    pub open spec fn v4_of(s: Seq<u8>) -> IpAddr {
        IpAddr::V4(be_nat(s) as u32)
    }

    /// An IPv6 address from sixteen octets.
    pub open spec fn v6_of(s: Seq<u8>) -> IpAddr {
        IpAddr::V6(be_nat(s) as u128)
    }

    /// An IPv4 address from four octets.
    pub fn from_v4(b: &[u8]) -> (a: IpAddr)
        requires
            b@.len() == 4,
        ensures
            a == IpAddr::v4_of(b@),
            a.octets_of() == b@,
    {
        proof {
            crate::bytes::lemma_pow256_values();
            crate::bytes::law_be_bytes_of_nat(b@);
        }
        IpAddr::V4(read_be(b) as u32)
    }

    /// An IPv6 address from sixteen octets.
    pub fn from_v6(b: &[u8]) -> (a: IpAddr)
        requires
            b@.len() == 16,
        ensures
            a == IpAddr::v6_of(b@),
            a.octets_of() == b@,
    {
        proof {
            crate::bytes::lemma_pow256_values();
            crate::bytes::law_be_bytes_of_nat(b@);
        }
        IpAddr::V6(read_be(b))
    }
}

impl crate::assoc::Key for IpAddr {
    type Id = IpAddr;

    open spec fn id(&self) -> IpAddr {
        *self
    }

    fn same(&self, other: &Self) -> (r: bool) {
        *self == *other
    }
}

impl IpAddr {
    /// Whether an address means the host itself.
    pub open spec fn loops_back(self) -> bool {
        match self {
            IpAddr::V4(v) => 0x7f00_0000 <= v < 0x8000_0000,
            IpAddr::V6(v) => v == 1,
        }
    }

    /// Whether an address is all zeros.
    pub open spec fn is_zero(self) -> bool {
        match self {
            IpAddr::V4(v) => v == 0,
            IpAddr::V6(v) => v == 0,
        }
    }

    /// Whether an address means the host itself: 127.0.0.0/8 or ::1.
    pub fn is_loopback(&self) -> (r: bool)
        ensures
            r == self.loops_back(),
    {
        match self {
            IpAddr::V4(v) => *v / 0x100_0000 == 127,
            IpAddr::V6(v) => *v == 1,
        }
    }

    /// Whether an address is all zeros.
    pub fn is_unspecified(&self) -> (r: bool)
        ensures
            r == self.is_zero(),
    {
        match self {
            IpAddr::V4(v) => *v == 0,
            IpAddr::V6(v) => *v == 0,
        }
    }

    /// An address with an IPv4 address in IPv6 form (::ffff:a.b.c.d) as that IPv4
    /// address.
    pub open spec fn unmapped(self) -> IpAddr {
        match self {
            IpAddr::V6(v) if v as nat / 0x1_0000_0000 == 0xffff => IpAddr::V4(
                (v as nat % 0x1_0000_0000) as u32,
            ),
            other => other,
        }
    }

    /// An IPv4 address in IPv6 form as the IPv4 address; any other as it is.
    pub fn normalize(&self) -> (r: IpAddr)
        ensures
            r == self.unmapped(),
    {
        match self {
            IpAddr::V6(v) => if *v / 0x1_0000_0000 == 0xffff {
                IpAddr::V4((*v % 0x1_0000_0000) as u32)
            } else {
                *self
            },
            IpAddr::V4(_) => *self,
        }
    }
}

/// The octets of an address give the address back.
pub proof fn law_octets_identify_the_address(a: IpAddr)
    ensures
        match a {
            IpAddr::V4(_) => IpAddr::v4_of(a.octets_of()) == a && a.octets_of().len() == 4,
            IpAddr::V6(_) => IpAddr::v6_of(a.octets_of()) == a && a.octets_of().len() == 16,
        },
{
    crate::bytes::lemma_pow256_values();
    match a {
        IpAddr::V4(v) => {
            crate::bytes::law_be_round_trip(v as nat, 4);
            crate::bytes::lemma_be_bytes_len(v as nat, 4);
        },
        IpAddr::V6(v) => {
            crate::bytes::law_be_round_trip(v as nat, 16);
            crate::bytes::lemma_be_bytes_len(v as nat, 16);
        },
    }
}

/// An IPv4 address stays as it is. So does one of IPv6, unless it is written for an
/// IPv4 address: then it is that address.
pub proof fn law_written_for_v4(v: u32, w: u128)
    ensures
        IpAddr::V4(v).unmapped() == IpAddr::V4(v),
        IpAddr::V6((0xffff_0000_0000 + v) as u128).unmapped() == IpAddr::V4(v),
        !(0xffff_0000_0000 <= w <= 0xffff_ffff_ffff) ==> IpAddr::V6(w).unmapped()
            == IpAddr::V6(w),
{
    assert((0xffff_0000_0000 + v) as u128 as nat / 0x1_0000_0000 == 0xffff);
    assert((0xffff_0000_0000 + v) as u128 as nat % 0x1_0000_0000 == v);
}

/// The IPv4 addresses that begin with 127 loop back, and `::1`; no other does. The
/// address that is all zeros is the unspecified one of its family.
pub proof fn law_what_loops_back(a: u8, b: u8, c: u8, d: u8, w: u128)
    ensures
        ({
            let v = (a * 0x100_0000 + b * 0x1_0000 + c * 0x100 + d) as u32;
            &&& IpAddr::V4(v).loops_back() == (a == 127)
            &&& IpAddr::V4(v).is_zero() == (a == 0 && b == 0 && c == 0 && d == 0)
        }),
        IpAddr::V6(w).loops_back() == (w == 1),
        IpAddr::V6(w).is_zero() == (w == 0),
{
}

} // verus!
