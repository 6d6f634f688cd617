//! Socket diagnostics: listing sockets with their counters, and closing one.

use crate::bytes::{
    append, be_bytes, be_nat, be_u16_at, le_bytes, le_nat, le_u32_at, le_u64_at, push_le, to_be,
};
use crate::ip::IpAddr;
use crate::linux::ct::{header_bytes, push_header, AF_INET, ENOENT, IPPROTO_TCP, IPPROTO_UDP};
use crate::linux::netlink::{
    attr_views, attrs_of, for_each_attr, Attr, AttrView, DumpEnd, NLM_F_ACK, NLM_F_DUMP,
    NLM_F_REQUEST,
};
use crate::model::Protocol;
use vstd::prelude::*;

verus! {

/// The netlink family of socket diagnostics.
pub const NETLINK_INET_DIAG: i32 = 4;

pub const SOCK_DIAG_BY_FAMILY: u16 = 20;

pub const SOCK_DESTROY: u16 = 21;

/// The attribute that carries TCP's counters.
pub const INET_DIAG_INFO: u16 = 2;

/// The bit that asks for that attribute.
pub const EXT_INFO_BIT: u8 = 2;

pub const TCP_ESTABLISHED: u32 = 1;

pub const TCP_SYN_SENT: u32 = 2;

pub const TCP_SYN_RECV: u32 = 3;

pub const TCP_CLOSE: u32 = 7;

pub const TCP_LISTEN: u32 = 10;

pub const TCP_NEW_SYN_RECV: u32 = 12;

/// Every state.
pub const STATES_ALL: u32 = 0xffff_ffff;

/// The bit of the listening state.
pub const LISTEN_BIT: u32 = 0x400;

/// The bit of the established state.
pub const ESTABLISHED_BIT: u32 = 2;

pub const EOPNOTSUPP: i32 = 95;

/// Where TCP's counters lie in the attribute.
pub const TCPI_BYTES_ACKED: usize = 120;

pub const TCPI_BYTES_RECEIVED: usize = 128;

/// One socket.
#[derive(Debug, Clone, Copy, PartialEq, Eq)]
pub struct SockInfo {
    pub protocol: Protocol,
    pub state: u8,
    pub local: (IpAddr, u16),
    pub remote: (IpAddr, u16),
    pub uid: u32,
    pub inode: u32,
    /// The same for as long as the socket lives.
    pub cookie: u64,
    /// Bytes sent and received, for TCP.
    pub bytes: Option<(u64, u64)>,
}

impl SockInfo {
    /// Whether this is a TCP socket.
    pub fn is_tcp(&self) -> (r: bool)
        ensures
            r == (self.protocol == Protocol::Tcp),
    {
        matches!(self.protocol, Protocol::Tcp)
    }
}

impl SockInfo {
    /// Whether this is a TCP socket that waits for connections.
    pub open spec fn listens(self) -> bool {
        self.protocol == Protocol::Tcp && self.state == TCP_LISTEN
    }

    /// Whether this is a TCP socket that waits for connections.
    pub fn is_listener(&self) -> (r: bool)
        ensures
            r == self.listens(),
    {
        self.is_tcp() && self.state as u32 == TCP_LISTEN
    }
}

/// Every state but listening.
pub fn tcp_states() -> (s: u32)
    ensures
        s == STATES_ALL - LISTEN_BIT,
{
    STATES_ALL - LISTEN_BIT
}

/// The states without the listening one have its bit clear and every other set.
pub proof fn law_activity_leaves_listeners_out(i: u32)
    requires
        i < 32,
    ensures
        ((STATES_ALL - LISTEN_BIT) as u32 >> i) & 1 == (if i == TCP_LISTEN {
            0u32
        } else {
            1u32
        }),
        LISTEN_BIT == 1u32 << TCP_LISTEN,
        ESTABLISHED_BIT == 1u32 << TCP_ESTABLISHED,
{
    assert((0xffff_fbffu32 >> i) & 1 == (if i == 10 {
        0u32
    } else {
        1u32
    })) by (bit_vector)
        requires
            i < 32,
    ;
    assert(0x400u32 == 1u32 << 10u32) by (bit_vector);
    assert(2u32 == 1u32 << 1u32) by (bit_vector);
}

/// What one dump asks for.
#[derive(Debug, Clone, Copy, PartialEq, Eq, Structural)]
pub struct DumpRequest {
    pub family: u8,
    pub protocol: Protocol,
    pub ipproto: u8,
    pub states: u32,
}

/// The dumps that list every TCP socket in the given states and every UDP
/// socket, of both families.
pub fn dump_requests(tcp_state_mask: u32) -> (r: Vec<DumpRequest>)
    ensures
        r@ == seq![
            DumpRequest {
                family: AF_INET,
                protocol: Protocol::Tcp,
                ipproto: IPPROTO_TCP,
                states: tcp_state_mask,
            },
            DumpRequest {
                family: crate::linux::ct::AF_INET6,
                protocol: Protocol::Tcp,
                ipproto: IPPROTO_TCP,
                states: tcp_state_mask,
            },
            DumpRequest {
                family: AF_INET,
                protocol: Protocol::Udp,
                ipproto: IPPROTO_UDP,
                states: STATES_ALL,
            },
            DumpRequest {
                family: crate::linux::ct::AF_INET6,
                protocol: Protocol::Udp,
                ipproto: IPPROTO_UDP,
                states: STATES_ALL,
            },
        ],
{
    let v6: u8 = crate::linux::ct::AF_INET6;
    vec![
        DumpRequest {
            family: AF_INET,
            protocol: Protocol::Tcp,
            ipproto: IPPROTO_TCP,
            states: tcp_state_mask,
        },
        DumpRequest {
            family: v6,
            protocol: Protocol::Tcp,
            ipproto: IPPROTO_TCP,
            states: tcp_state_mask,
        },
        DumpRequest {
            family: AF_INET,
            protocol: Protocol::Udp,
            ipproto: IPPROTO_UDP,
            states: STATES_ALL,
        },
        DumpRequest {
            family: v6,
            protocol: Protocol::Udp,
            ipproto: IPPROTO_UDP,
            states: STATES_ALL,
        },
    ]
}

/// `n` zero bytes.
pub open spec fn zeros(n: nat) -> Seq<u8> {
    Seq::new(n, |i: int| 0u8)
}

fn push_zeros(buf: &mut Vec<u8>, n: usize)
    ensures
        final(buf)@ == old(buf)@ + zeros(n as nat),
{
    let mut i: usize = 0;
    assert(buf@ =~= old(buf)@ + zeros(0));
    while i < n
        invariant
            i <= n,
            buf@ == old(buf)@ + zeros(i as nat),
        decreases n - i,
    {
        buf.push(0);
        i += 1;
        assert(buf@ =~= old(buf)@ + zeros(i as nat));
    }
}

/// The request for every socket of a family, a protocol and some states.
pub fn build_request(family: u8, ipproto: u8, states: u32) -> (buf: Vec<u8>)
    ensures
        buf@ == header_bytes(72, SOCK_DIAG_BY_FAMILY as nat, (NLM_F_REQUEST + NLM_F_DUMP) as nat)
            + seq![family, ipproto, EXT_INFO_BIT, 0] + le_bytes(states as nat, 4) + zeros(48),
{
    let mut buf: Vec<u8> = Vec::new();
    push_header(&mut buf, 72, SOCK_DIAG_BY_FAMILY, NLM_F_REQUEST + NLM_F_DUMP);
    let ghost header = buf@;
    buf.push(family);
    buf.push(ipproto);
    buf.push(EXT_INFO_BIT);
    buf.push(0);
    assert(buf@ =~= header + seq![family, ipproto, EXT_INFO_BIT, 0]);
    push_le(&mut buf, states as u128, 4);
    push_zeros(&mut buf, 48);
    assert(header =~= Seq::empty() + header);
    buf
}

/// The counters in TCP's attribute: bytes acknowledged and received.
pub open spec fn counters_of(info: Seq<u8>) -> Option<(u64, u64)> {
    if info.len() < TCPI_BYTES_RECEIVED + 8 {
        None
    } else {
        Some(
            (
                le_nat(crate::bytes::at(info, TCPI_BYTES_ACKED as int, 8)) as u64,
                le_nat(crate::bytes::at(info, TCPI_BYTES_RECEIVED as int, 8)) as u64,
            ),
        )
    }
}

/// The counters in TCP's attribute. An old kernel's may be too short for them.
pub fn tcp_info_bytes(info: &[u8]) -> (r: Option<(u64, u64)>)
    ensures
        r == counters_of(info@),
{
    if info.len() < TCPI_BYTES_RECEIVED + 8 {
        return None;
    }
    Some((le_u64_at(info, TCPI_BYTES_ACKED), le_u64_at(info, TCPI_BYTES_RECEIVED)))
}

/// The counters that the last attribute with counters gives.
pub open spec fn last_counters(attrs: Seq<AttrView>) -> Option<(u64, u64)>
    decreases attrs.len(),
{
    if attrs.len() == 0 {
        None
    } else if attrs.last().ty == INET_DIAG_INFO {
        counters_of(attrs.last().value)
    } else {
        last_counters(attrs.drop_last())
    }
}

/// An address of a family in sixteen bytes.
pub open spec fn addr_of(family: u8, raw: Seq<u8>) -> IpAddr {
    if family == AF_INET {
        IpAddr::v4_of(raw.take(4))
    } else {
        IpAddr::v6_of(raw)
    }
}

/// The socket that a message describes: the identity in its first seventy-two
/// bytes, and the counters in the attributes after them.
pub open spec fn socket_of(family: u8, protocol: Protocol, p: Seq<u8>) -> Option<SockInfo> {
    if p.len() < 72 {
        None
    } else {
        Some(
            SockInfo {
                protocol,
                state: p[1],
                local: (
                    addr_of(family, p.subrange(8, 24)),
                    be_nat(crate::bytes::at(p, 4, 2)) as u16,
                ),
                remote: (
                    addr_of(family, p.subrange(24, 40)),
                    be_nat(crate::bytes::at(p, 6, 2)) as u16,
                ),
                uid: le_nat(crate::bytes::at(p, 64, 4)) as u32,
                inode: le_nat(crate::bytes::at(p, 68, 4)) as u32,
                cookie: le_nat(crate::bytes::at(p, 44, 8)) as u64,
                bytes: last_counters(attrs_of(p.skip(72))),
            },
        )
    }
}

fn read_addr(family: u8, raw: &[u8]) -> (a: IpAddr)
    requires
        raw@.len() == 16,
    ensures
        a == addr_of(family, raw@),
{
    if family == AF_INET {
        let four = vstd::slice::slice_subrange(raw, 0, 4);
        assert(four@ =~= raw@.take(4));
        IpAddr::from_v4(four)
    } else {
        IpAddr::from_v6(raw)
    }
}

/// Reads one socket.
pub fn parse_msg(family: u8, protocol: Protocol, payload: &[u8]) -> (r: Option<SockInfo>)
    ensures
        r == socket_of(family, protocol, payload@),
{
    if payload.len() < 72 {
        return None;
    }
    let src = read_addr(family, vstd::slice::slice_subrange(payload, 8, 24));
    let dst = read_addr(family, vstd::slice::slice_subrange(payload, 24, 40));
    let rest = vstd::slice::slice_subrange(payload, 72, payload.len());
    assert(rest@ =~= payload@.skip(72));
    let attrs = for_each_attr(rest);
    let ghost all = attrs_of(rest@);
    let mut bytes: Option<(u64, u64)> = None;
    let mut i: usize = 0;
    while i < attrs.len()
        invariant
            i <= attrs@.len(),
            all == attr_views(attrs@),
            bytes == last_counters(all.take(i as int)),
        decreases attrs@.len() - i,
    {
        assert(all.take(i + 1).drop_last() =~= all.take(i as int));
        assert(all.take(i + 1).last() == attrs@[i as int]@);
        if attrs[i].ty == INET_DIAG_INFO {
            bytes = tcp_info_bytes(attrs[i].value.as_slice());
        }
        i += 1;
    }
    assert(all.take(i as int) =~= all);
    Some(
        SockInfo {
            protocol,
            state: payload[1],
            local: (src, be_u16_at(payload, 4)),
            remote: (dst, be_u16_at(payload, 6)),
            uid: le_u32_at(payload, 64),
            inode: le_u32_at(payload, 68),
            cookie: le_u64_at(payload, 44),
            bytes,
        },
    )
}

/// The sockets in a dump's messages.
pub open spec fn sockets_of(family: u8, protocol: Protocol, messages: Seq<AttrView>) -> Seq<
    SockInfo,
> {
    messages.filter_map(
        |m: AttrView|
            if m.ty == SOCK_DIAG_BY_FAMILY {
                socket_of(family, protocol, m.value)
            } else {
                None
            },
    )
}

/// Adds the sockets in a dump's messages.
pub fn parse_dump(family: u8, protocol: Protocol, messages: &Vec<Attr>, out: &mut Vec<SockInfo>)
    ensures
        final(out)@ == old(out)@ + sockets_of(family, protocol, attr_views(messages@)),
{
    let ghost all = attr_views(messages@);
    let ghost f = |m: AttrView|
        if m.ty == SOCK_DIAG_BY_FAMILY {
            socket_of(family, protocol, m.value)
        } else {
            None
        };
    let mut i: usize = 0;
    assert(all.take(0).filter_map(f) =~= Seq::empty());
    assert(out@ =~= old(out)@ + Seq::<SockInfo>::empty());
    while i < messages.len()
        invariant
            i <= messages@.len(),
            all == attr_views(messages@),
            f == (|m: AttrView|
                if m.ty == SOCK_DIAG_BY_FAMILY {
                    socket_of(family, protocol, m.value)
                } else {
                    None
                }),
            out@ == old(out)@ + all.take(i as int).filter_map(f),
        decreases messages@.len() - i,
    {
        let ghost was = out@;
        proof {
            all.lemma_filter_map_take_succ(f, i as int);
            assert(all[i as int] == messages@[i as int]@);
        }
        if messages[i].ty == SOCK_DIAG_BY_FAMILY {
            if let Some(s) = parse_msg(family, protocol, messages[i].value.as_slice()) {
                out.push(s);
            }
        }
        assert(out@ =~= old(out)@ + all.take(i + 1).filter_map(f));
        i += 1;
    }
    assert(all.take(i as int) =~= all);
}

/// Whether a TCP socket in a state has a peer: it neither listens nor is being
/// opened nor is closed.
pub open spec fn has_peer(state: u8) -> bool {
    &&& state != TCP_LISTEN
    &&& state != TCP_SYN_SENT
    &&& state != TCP_SYN_RECV
    &&& state != TCP_NEW_SYN_RECV
    &&& state != TCP_CLOSE
}

/// Whether a TCP socket has a peer.
pub fn is_established(state: u8) -> (r: bool)
    ensures
        r == has_peer(state),
{
    let s: u32 = state as u32;
    s != TCP_LISTEN && s != TCP_SYN_SENT && s != TCP_SYN_RECV && s != TCP_NEW_SYN_RECV && s
        != TCP_CLOSE
}

/// An address in sixteen bytes, filled up with zeros.
pub open spec fn addr_field(a: IpAddr) -> Seq<u8> {
    match a {
        IpAddr::V4(_) => a.octets_of() + zeros(12),
        IpAddr::V6(_) => a.octets_of(),
    }
}

fn push_addr(buf: &mut Vec<u8>, a: IpAddr)
    ensures
        final(buf)@ == old(buf)@ + addr_field(a),
{
    let o = a.octets();
    append(buf, o.as_slice());
    if a.is_ipv4() {
        push_zeros(buf, 12);
        assert(buf@ =~= old(buf)@ + addr_field(a));
    }
}

/// The request that closes the established socket between two endpoints.
pub fn build_destroy(
    family: u8,
    ipproto: u8,
    local: (IpAddr, u16),
    remote: (IpAddr, u16),
) -> (buf: Vec<u8>)
    ensures
        buf@ == header_bytes(72, SOCK_DESTROY as nat, (NLM_F_REQUEST + NLM_F_ACK) as nat) + seq![
            family,
            ipproto,
            0,
            0,
        ] + le_bytes(ESTABLISHED_BIT as nat, 4) + be_bytes(local.1 as nat, 2) + be_bytes(
            remote.1 as nat,
            2,
        ) + addr_field(local.0) + addr_field(remote.0) + zeros(12),
{
    let mut buf: Vec<u8> = Vec::new();
    push_header(&mut buf, 72, SOCK_DESTROY, NLM_F_REQUEST + NLM_F_ACK);
    let ghost header = buf@;
    assert(header =~= header_bytes(72, SOCK_DESTROY as nat, (NLM_F_REQUEST + NLM_F_ACK) as nat));
    buf.push(family);
    buf.push(ipproto);
    buf.push(0);
    buf.push(0);
    assert(buf@ =~= header + seq![family, ipproto, 0, 0]);
    push_le(&mut buf, ESTABLISHED_BIT as u128, 4);
    let sport = to_be(local.1 as u128, 2);
    let dport = to_be(remote.1 as u128, 2);
    append(&mut buf, sport.as_slice());
    append(&mut buf, dport.as_slice());
    push_addr(&mut buf, local.0);
    push_addr(&mut buf, remote.0);
    push_zeros(&mut buf, 12);
    buf
}

/// What came of closing a socket.
#[derive(Debug, Clone, Copy, PartialEq, Eq, Structural)]
pub enum Destroyed {
    /// It is closed, or was already.
    Closed,
    /// The kernel cannot close sockets.
    Unsupported,
    Failed(i32),
}

/// What the kernel's answer to closing a socket means.
pub fn destroy_outcome(end: DumpEnd) -> (r: Destroyed)
    ensures
        r == (match end {
            DumpEnd::Failed(e) => if e == EOPNOTSUPP {
                Destroyed::Unsupported
            } else if e == ENOENT {
                Destroyed::Closed
            } else {
                Destroyed::Failed(e)
            },
            _ => Destroyed::Closed,
        }),
{
    match end {
        DumpEnd::Failed(e) => if e == EOPNOTSUPP {
            Destroyed::Unsupported
        } else if e == ENOENT {
            Destroyed::Closed
        } else {
            Destroyed::Failed(e)
        },
        _ => Destroyed::Closed,
    }
}

pub(crate) proof fn lemma_addr_field(a: IpAddr)
    ensures
        addr_field(a).len() == 16,
        addr_of(
            if a is V4 {
                2
            } else {
                10
            },
            addr_field(a),
        ) == a,
{
    crate::ip::law_octets_identify_the_address(a);
    if a is V4 {
        assert(addr_field(a).take(4) =~= a.octets_of());
    }
}

/// The message of a socket reads back: its state, its two ends, its owner's
/// account, its inode and its cookie stand where they were written, and its
/// counters are those of its attributes.
pub proof fn law_socket_messages_read_back(s: SockInfo, timers: Seq<u8>, queues: Seq<u8>, device: Seq<u8>, attrs: Seq<u8>)
    requires
        s.local.0 is V4 == s.remote.0 is V4,
        timers.len() == 2,
        device.len() == 4,
        queues.len() == 12,
        s.bytes == last_counters(attrs_of(attrs)),
    ensures
        ({
            let family: u8 = if s.local.0 is V4 {
                2
            } else {
                10
            };
            let p = seq![family, s.state] + timers + be_bytes(s.local.1 as nat, 2) + be_bytes(
                s.remote.1 as nat,
                2,
            ) + addr_field(s.local.0) + addr_field(s.remote.0) + device + le_bytes(
                s.cookie as nat,
                8,
            ) + queues + le_bytes(s.uid as nat, 4) + le_bytes(s.inode as nat, 4) + attrs;
            socket_of(family, s.protocol, p) == Some(s)
        }),
{
    let family: u8 = if s.local.0 is V4 {
        2
    } else {
        10
    };
    let (lp, rp) = (be_bytes(s.local.1 as nat, 2), be_bytes(s.remote.1 as nat, 2));
    let (l, r) = (addr_field(s.local.0), addr_field(s.remote.0));
    let (cookie, uid) = (le_bytes(s.cookie as nat, 8), le_bytes(s.uid as nat, 4));
    let inode = le_bytes(s.inode as nat, 4);
    let head = seq![family, s.state] + timers;
    let p = seq![family, s.state] + timers + lp + rp + l + r + device + cookie + queues + uid
        + inode + attrs;
    lemma_addr_field(s.local.0);
    lemma_addr_field(s.remote.0);
    crate::bytes::lemma_pow256_values();
    crate::bytes::lemma_be_bytes_len(s.local.1 as nat, 2);
    crate::bytes::lemma_be_bytes_len(s.remote.1 as nat, 2);
    crate::bytes::lemma_le_bytes_len(s.cookie as nat, 8);
    crate::bytes::lemma_le_bytes_len(s.uid as nat, 4);
    crate::bytes::lemma_le_bytes_len(s.inode as nat, 4);
    crate::bytes::law_be_round_trip(s.local.1 as nat, 2);
    crate::bytes::law_be_round_trip(s.remote.1 as nat, 2);
    crate::bytes::law_le_round_trip(s.cookie as nat, 8);
    crate::bytes::law_le_round_trip(s.uid as nat, 4);
    crate::bytes::law_le_round_trip(s.inode as nat, 4);
    assert(crate::bytes::at(p, 4, 2) =~= lp);
    assert(crate::bytes::at(p, 6, 2) =~= rp);
    assert(p.subrange(8, 24) =~= l);
    assert(p.subrange(24, 40) =~= r);
    assert(crate::bytes::at(p, 44, 8) =~= cookie);
    assert(crate::bytes::at(p, 64, 4) =~= uid);
    assert(crate::bytes::at(p, 68, 4) =~= inode);
    assert(p.skip(72) =~= attrs);
    assert(p[1] == s.state);
}

/// The counters of a socket are the bytes acknowledged and the bytes received, which
/// stand behind the first 120 bytes of its information. Information that ends before
/// them has none.
pub proof fn law_counters_read_back(before: Seq<u8>, acked: u64, received: u64, after: Seq<u8>)
    requires
        before.len() == 120,
    ensures
        counters_of(
            before + le_bytes(acked as nat, 8) + le_bytes(received as nat, 8) + after,
        ) == Some((acked, received)),
        forall|cut: Seq<u8>| cut.len() < 136 ==> #[trigger] counters_of(cut) is None,
{
    let (a, r) = (le_bytes(acked as nat, 8), le_bytes(received as nat, 8));
    let info = before + a + r + after;
    crate::bytes::lemma_pow256_values();
    crate::bytes::lemma_le_bytes_len(acked as nat, 8);
    crate::bytes::lemma_le_bytes_len(received as nat, 8);
    crate::bytes::law_le_round_trip(acked as nat, 8);
    crate::bytes::law_le_round_trip(received as nat, 8);
    assert(crate::bytes::at(info, 120, 8) =~= a);
    assert(crate::bytes::at(info, 128, 8) =~= r);
}

/// Of several informations the last counts, and attributes of other types do not.
pub proof fn law_the_last_information_counts(attrs: Seq<AttrView>, a: AttrView)
    ensures
        a.ty == 2 ==> last_counters(attrs.push(a)) == counters_of(a.value),
        a.ty != 2 ==> last_counters(attrs.push(a)) == last_counters(attrs),
        last_counters(Seq::empty()) is None,
{
    assert(attrs.push(a).drop_last() =~= attrs);
}

/// A socket has no peer while it listens or is closed, or before a connection is
/// made; in every other state it has one.
pub proof fn law_connecting_sockets_have_no_peer(state: u8)
    ensures
        has_peer(state) == !(state == 10 || state == 2 || state == 3 || state == 12 || state == 7),
{
}

/// Every message of a socket in an answer becomes one socket, in order; messages of
/// other types become none.
pub proof fn law_every_socket_message_counts(
    family: u8,
    protocol: Protocol,
    messages: Seq<AttrView>,
    m: AttrView,
)
    ensures
        sockets_of(family, protocol, messages.push(m)) == (if m.ty == 20 && socket_of(
            family,
            protocol,
            m.value,
        ) is Some {
            sockets_of(family, protocol, messages).push(socket_of(family, protocol, m.value)->0)
        } else {
            sockets_of(family, protocol, messages)
        }),
        m.value.len() < 72 <==> socket_of(family, protocol, m.value) is None,
{
    reveal(Seq::filter_map);
    assert(messages.push(m).drop_last() =~= messages);
}

} // verus!
