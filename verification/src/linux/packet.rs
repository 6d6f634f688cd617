//! The endpoints of an IP packet.

use crate::bytes::{be_nat, be_u16_at};
use crate::ip::IpAddr;
use crate::linux::ct::{protocol_of, IPPROTO_TCP, IPPROTO_UDP};
use crate::model::Protocol;
use vstd::prelude::*;

verus! {

/// Who a packet goes from and to.
#[derive(Debug, Clone, Copy, PartialEq, Eq, Structural)]
pub struct PacketTuple {
    pub source: IpAddr,
    pub destination: IpAddr,
    pub source_port: u16,
    pub destination_port: u16,
    pub protocol: Protocol,
}

/// Whether a protocol has ports that matter here.
pub open spec fn has_ports(proto: u8) -> bool {
    protocol_of(proto) is Some
}

fn is_l4(proto: u8) -> (r: bool)
    ensures
        r == has_ports(proto),
{
    proto == IPPROTO_TCP || proto == IPPROTO_UDP
}

fn protocol(value: u8) -> (r: Protocol)
    requires
        has_ports(value),
    ensures
        Some(r) == protocol_of(value),
{
    if value == IPPROTO_TCP {
        Protocol::Tcp
    } else {
        Protocol::Udp
    }
}

/// The sixteen-bit number at `at`, most significant byte first.
pub open spec fn be16(s: Seq<u8>, at: int) -> nat {
    be_nat(crate::bytes::at(s, at, 2))
}

/// The transport protocol of an IPv6 packet and where its header starts, past the
/// extension headers. A fragment that is not the first has none.
pub open spec fn transport_from(pkt: Seq<u8>, next: u8, offset: nat) -> Option<(u8, nat)>
    decreases
            (if offset <= pkt.len() {
                pkt.len() - offset
            } else {
                0
            }),
{
    let len = pkt.len();
    let at = offset as int;
    if has_ports(next) {
        Some((next, offset))
    } else {
        let advance = if next == 0 || next == 43 || next == 60 {
            if offset + 2 <= len {
                Some((pkt[at + 1] as nat + 1) * 8)
            } else {
                None
            }
        } else if next == 44 {
            if offset + 8 <= len && be16(pkt, at + 2) < 8 {
                Some(8nat)
            } else {
                None
            }
        } else if next == 51 {
            if offset + 2 <= len {
                Some((pkt[at + 1] as nat + 2) * 4)
            } else {
                None
            }
        } else {
            None
        };
        match advance {
            Some(n) if offset + n <= len => transport_from(pkt, pkt[at], offset + n),
            _ => None,
        }
    }
}

/// The endpoints of a packet, where it carries them: the first fragment of a TCP
/// or UDP packet of either family.
pub open spec fn tuple_of(pkt: Seq<u8>) -> Option<PacketTuple> {
    if pkt.len() >= 20 && pkt[0] / 16 == 4 {
        let header = pkt[0] as int % 16 * 4;
        if header >= 20 && be16(pkt, 6) % 0x2000 == 0 && has_ports(pkt[9]) && pkt.len() >= header
            + 4 {
            Some(
                PacketTuple {
                    source: IpAddr::v4_of(pkt.subrange(12, 16)),
                    destination: IpAddr::v4_of(pkt.subrange(16, 20)),
                    source_port: be16(pkt, header) as u16,
                    destination_port: be16(pkt, header + 2) as u16,
                    protocol: protocol_of(pkt[9])->0,
                },
            )
        } else {
            None
        }
    } else if pkt.len() >= 40 && pkt[0] / 16 == 6 {
        match transport_from(pkt, pkt[6], 40) {
            Some((proto, at)) if at + 4 <= pkt.len() => Some(
                PacketTuple {
                    source: IpAddr::v6_of(pkt.subrange(8, 24)),
                    destination: IpAddr::v6_of(pkt.subrange(24, 40)),
                    source_port: be16(pkt, at as int) as u16,
                    destination_port: be16(pkt, at as int + 2) as u16,
                    protocol: protocol_of(proto)->0,
                },
            ),
            _ => None,
        }
    } else {
        None
    }
}

/// Walks the extension headers of an IPv6 packet.
fn ipv6_transport(pkt: &[u8], first: u8, start: usize) -> (r: Option<(u8, usize)>)
    requires
        start <= pkt@.len(),
    ensures
        match r {
            Some((proto, at)) => transport_from(pkt@, first, start as nat) == Some(
                (proto, at as nat),
            ) && at <= pkt@.len() && has_ports(proto),
            None => transport_from(pkt@, first, start as nat) is None,
        },
{
    let mut next: u8 = first;
    let mut offset: usize = start;
    assert(pkt.len() as nat == pkt@.len());
    loop
        invariant
            pkt.len() as nat == pkt@.len(),
            offset <= pkt@.len(),
            transport_from(pkt@, first, start as nat) == transport_from(
                pkt@,
                next,
                offset as nat,
            ),
        decreases pkt@.len() - offset,
    {
        if is_l4(next) {
            return Some((next, offset));
        }
        let room: usize = pkt.len() - offset;
        let advance: usize = if next == 0 || next == 43 || next == 60 {
            if room < 2 {
                return None;
            }
            (pkt[offset + 1] as usize + 1) * 8
        } else if next == 44 {
            if room < 8 || be_u16_at(pkt, offset + 2) >= 8 {
                return None;
            }
            8
        } else if next == 51 {
            if room < 2 {
                return None;
            }
            (pkt[offset + 1] as usize + 2) * 4
        } else {
            return None;
        };
        if advance > room {
            return None;
        }
        next = pkt[offset];
        offset += advance;
    }
}

/// Reads the endpoints of a packet.
pub fn parse_tuple(pkt: &[u8]) -> (r: Option<PacketTuple>)
    ensures
        r == tuple_of(pkt@),
{
    if pkt.len() == 0 {
        return None;
    }
    let version: u8 = pkt[0] / 16;
    if version == 4 {
        if pkt.len() < 20 {
            return None;
        }
        let header: usize = (pkt[0] % 16) as usize * 4;
        if header < 20 || be_u16_at(pkt, 6) % 0x2000 != 0 {
            return None;
        }
        if !is_l4(pkt[9]) || pkt.len() < header + 4 {
            return None;
        }
        Some(
            PacketTuple {
                source: IpAddr::from_v4(vstd::slice::slice_subrange(pkt, 12, 16)),
                destination: IpAddr::from_v4(vstd::slice::slice_subrange(pkt, 16, 20)),
                source_port: be_u16_at(pkt, header),
                destination_port: be_u16_at(pkt, header + 2),
                protocol: protocol(pkt[9]),
            },
        )
    } else if version == 6 {
        if pkt.len() < 40 {
            return None;
        }
        let (proto, at) = match ipv6_transport(pkt, pkt[6], 40) {
            Some(t) => t,
            None => {
                return None;
            },
        };
        if pkt.len() - at < 4 {
            return None;
        }
        Some(
            PacketTuple {
                source: IpAddr::from_v6(vstd::slice::slice_subrange(pkt, 8, 24)),
                destination: IpAddr::from_v6(vstd::slice::slice_subrange(pkt, 24, 40)),
                source_port: be_u16_at(pkt, at),
                destination_port: be_u16_at(pkt, at + 2),
                protocol: protocol(proto),
            },
        )
    } else {
        None
    }
}

/// An IPv4 packet that carries the start of a TCP segment or a UDP datagram names
/// the octets of its two addresses, and the two ports behind its header.
pub proof fn law_v4_packets_name_their_ends(pkt: Seq<u8>, words: nat)
    requires
        5 <= words <= 15,
        pkt.len() >= 4 * words + 4,
        pkt[0] == 0x40 + words,
        pkt[6] % 32 == 0,
        pkt[7] == 0,
        pkt[9] == 6 || pkt[9] == 17,
    ensures
        ({
            let at = 4 * words as int;
            tuple_of(pkt) == Some(
                PacketTuple {
                    source: IpAddr::V4(
                        (pkt[12] * 0x100_0000 + pkt[13] * 0x1_0000 + pkt[14] * 0x100
                            + pkt[15]) as u32,
                    ),
                    destination: IpAddr::V4(
                        (pkt[16] * 0x100_0000 + pkt[17] * 0x1_0000 + pkt[18] * 0x100
                            + pkt[19]) as u32,
                    ),
                    source_port: (pkt[at] * 0x100 + pkt[at + 1]) as u16,
                    destination_port: (pkt[at + 2] * 0x100 + pkt[at + 3]) as u16,
                    protocol: if pkt[9] == 6 {
                        Protocol::Tcp
                    } else {
                        Protocol::Udp
                    },
                },
            )
        }),
{
    let at = 4 * words as int;
    lemma_be16(pkt, 6);
    lemma_be16(pkt, at);
    lemma_be16(pkt, at + 2);
    lemma_be32(pkt, 12);
    lemma_be32(pkt, 16);
}

proof fn lemma_be16(s: Seq<u8>, at: int)
    requires
        0 <= at,
        at + 2 <= s.len(),
    ensures
        be16(s, at) == s[at] * 256 + s[at + 1],
{
    let t = crate::bytes::at(s, at, 2);
    reveal_with_fuel(be_nat, 3);
    assert(t.drop_last().last() == s[at]);
}

proof fn lemma_be32(s: Seq<u8>, at: int)
    requires
        0 <= at,
        at + 4 <= s.len(),
    ensures
        be_nat(s.subrange(at, at + 4)) == s[at] * 0x100_0000 + s[at + 1] * 0x1_0000 + s[at + 2]
            * 0x100 + s[at + 3],
{
    let t = s.subrange(at, at + 4);
    reveal_with_fuel(be_nat, 5);
    assert(t.drop_last().last() == s[at + 2]);
    assert(t.drop_last().drop_last().last() == s[at + 1]);
    assert(t.drop_last().drop_last().drop_last().last() == s[at]);
}

/// The later fragments of an IPv4 packet, and packets of other protocols, name no
/// ports.
pub proof fn law_fragments_name_no_ports(pkt: Seq<u8>)
    requires
        pkt.len() >= 20,
        pkt[0] / 16 == 4,
        pkt[6] % 32 != 0 || pkt[7] != 0 || !(pkt[9] == 6 || pkt[9] == 17),
    ensures
        tuple_of(pkt) is None,
{
    lemma_be16(pkt, 6);
}

/// An IPv6 packet whose header is followed by a TCP or UDP header names the ports
/// behind its forty octets, and the sixteen octets of each address.
pub proof fn law_v6_packets_name_their_ends(pkt: Seq<u8>)
    requires
        pkt.len() >= 44,
        pkt[0] / 16 == 6,
        pkt[6] == 6 || pkt[6] == 17,
    ensures
        tuple_of(pkt) is Some,
        tuple_of(pkt)->0.source.octets_of() == pkt.subrange(8, 24),
        tuple_of(pkt)->0.destination.octets_of() == pkt.subrange(24, 40),
        tuple_of(pkt)->0.source is V6,
        tuple_of(pkt)->0.destination is V6,
        tuple_of(pkt)->0.source_port == pkt[40] * 0x100 + pkt[41],
        tuple_of(pkt)->0.destination_port == pkt[42] * 0x100 + pkt[43],
        tuple_of(pkt)->0.protocol == (if pkt[6] == 6 {
            Protocol::Tcp
        } else {
            Protocol::Udp
        }),
{
    lemma_be16(pkt, 40);
    lemma_be16(pkt, 42);
    crate::bytes::law_be_bytes_of_nat(pkt.subrange(8, 24));
    crate::bytes::law_be_bytes_of_nat(pkt.subrange(24, 40));
    crate::bytes::lemma_be_nat_bound(pkt.subrange(8, 24));
    crate::bytes::lemma_be_nat_bound(pkt.subrange(24, 40));
    crate::bytes::lemma_pow256_values();
}

/// An extension header changes nothing of what a packet names: a packet with one
/// put in behind the IPv6 header names what it named without.
pub proof fn law_extension_headers_are_stepped_over(
    header: Seq<u8>,
    kind: u8,
    extension: Seq<u8>,
    rest: Seq<u8>,
)
    requires
        header.len() == 40,
        header[0] / 16 == 6,
        extension.len() >= 2,
        extension[0] == header[6],
        match kind {
            0 | 43 | 60 => extension.len() == 8 * (extension[1] + 1),
            44 => extension.len() == 8 && extension[2] == 0 && extension[3] < 8,
            51 => extension.len() == 4 * (extension[1] + 2),
            _ => false,
        },
    ensures
        tuple_of(header.update(6, kind) + extension + rest) == tuple_of(header + rest),
{
    let short = header + rest;
    let long = header.update(6, kind) + extension + rest;
    let n = extension.len();
    if kind == 44 {
        lemma_be16(long, 42);
        assert(long[42] == extension[2] && long[43] == extension[3]);
    }
    assert(long[40] == extension[0] && long[41] == extension[1]);
    assert(transport_from(long, kind, 40) == transport_from(long, header[6], 40 + n));
    lemma_transport_shift(short, long, n, header[6], 40);
    assert(long.subrange(8, 24) =~= short.subrange(8, 24));
    assert(long.subrange(24, 40) =~= short.subrange(24, 40));
    match transport_from(short, header[6], 40) {
        Some((proto, at)) => {
            lemma_transport_at(short, header[6], 40);
            if at + 4 <= short.len() {
                lemma_be16(short, at as int);
                lemma_be16(short, at as int + 2);
                lemma_be16(long, at as int + n);
                lemma_be16(long, at as int + n + 2);
            }
        },
        None => {},
    }
}

proof fn lemma_transport_at(s: Seq<u8>, next: u8, at: nat)
    requires
        40 <= at <= s.len(),
    ensures
        transport_from(s, next, at) matches Some((_, k)) ==> 40 <= k <= s.len(),
    decreases s.len() - at,
{
    if !has_ports(next) {
        if next == 0 || next == 43 || next == 60 {
            if at + 2 <= s.len() && at + (s[at as int + 1] + 1) * 8 <= s.len() {
                lemma_transport_at(s, s[at as int], (at + (s[at as int + 1] + 1) * 8) as nat);
            }
        } else if next == 44 {
            if at + 8 <= s.len() {
                lemma_transport_at(s, s[at as int], at + 8);
            }
        } else if next == 51 {
            if at + 2 <= s.len() && at + (s[at as int + 1] + 2) * 4 <= s.len() {
                lemma_transport_at(s, s[at as int], (at + (s[at as int + 1] + 2) * 4) as nat);
            }
        }
    }
}

proof fn lemma_transport_shift(s: Seq<u8>, t: Seq<u8>, n: nat, next: u8, at: nat)
    requires
        40 <= at <= s.len(),
        t.len() == s.len() + n,
        forall|i: int| 40 <= i < s.len() ==> #[trigger] s[i] == t[i + n],
    ensures
        transport_from(t, next, at + n) == (match transport_from(s, next, at) {
            Some((proto, k)) => Some((proto, k + n)),
            None => None,
        }),
    decreases s.len() - at,
{
    let i = at as int;
    if !has_ports(next) {
        if next == 0 || next == 43 || next == 60 {
            if at + 2 <= s.len() {
                assert(s[i] == t[i + n] && s[i + 1] == t[i + 1 + n]);
                if at + (s[i + 1] + 1) * 8 <= s.len() {
                    lemma_transport_shift(s, t, n, s[i], (at + (s[i + 1] + 1) * 8) as nat);
                }
            }
        } else if next == 44 {
            if at + 8 <= s.len() {
                lemma_be16(s, i + 2);
                lemma_be16(t, i + 2 + n);
                assert(s[i] == t[i + n]);
                assert(s[i + 2] == t[i + 2 + n] && s[i + 3] == t[i + 3 + n]);
                lemma_transport_shift(s, t, n, s[i], at + 8);
            }
        } else if next == 51 {
            if at + 2 <= s.len() {
                assert(s[i] == t[i + n] && s[i + 1] == t[i + 1 + n]);
                if at + (s[i + 1] + 2) * 4 <= s.len() {
                    lemma_transport_shift(s, t, n, s[i], (at + (s[i + 1] + 2) * 4) as nat);
                }
            }
        }
    }
}

} // verus!
