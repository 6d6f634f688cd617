//! Connection-tracking messages: dumping flows with their byte counters and
//! deleting one flow by its tuple.

use crate::bytes::{append, be_bytes, be_nat, be_u16_at, be_u64_at, le_bytes, le_nat, push_le, to_be};
use crate::ip::IpAddr;
use crate::linux::netlink::{
    attr_views, attrs_of, encoded, for_each_attr, push_attr, Attr, AttrView, NLM_F_ACK, NLM_F_DUMP,
    NLM_F_REQUEST,
};
use crate::model::Protocol;
use vstd::prelude::*;

verus! {

/// The netlink family that carries connection tracking.
pub const NETLINK_NETFILTER: i32 = 12;

pub const NFNL_SUBSYS_CTNETLINK: u16 = 1;

pub const IPCTNL_MSG_CT_GET: u16 = 1;

pub const IPCTNL_MSG_CT_DELETE: u16 = 2;

pub const CTA_TUPLE_ORIG: u16 = 1;

pub const CTA_COUNTERS_ORIG: u16 = 9;

pub const CTA_COUNTERS_REPLY: u16 = 10;

pub const CTA_TUPLE_IP: u16 = 1;

pub const CTA_TUPLE_PROTO: u16 = 2;

pub const CTA_IP_V4_SRC: u16 = 1;

pub const CTA_IP_V4_DST: u16 = 2;

pub const CTA_IP_V6_SRC: u16 = 3;

pub const CTA_IP_V6_DST: u16 = 4;

pub const CTA_PROTO_NUM: u16 = 1;

pub const CTA_PROTO_SRC_PORT: u16 = 2;

pub const CTA_PROTO_DST_PORT: u16 = 3;

pub const CTA_COUNTERS_BYTES: u16 = 2;

/// Set on the type of an attribute that holds attributes.
pub const NLA_F_NESTED: u16 = 0x8000;

pub const AF_UNSPEC: u8 = 0;

pub const AF_INET: u8 = 2;

pub const AF_INET6: u8 = 10;

pub const IPPROTO_TCP: u8 = 6;

pub const IPPROTO_UDP: u8 = 17;

pub const ENOENT: i32 = 2;

/// An attribute's type without the nesting flag.
pub open spec fn plain_ty(ty: nat) -> nat {
    ty % 0x8000
}

/// A connection-tracking message type: the subsystem and the message.
pub open spec fn ct_type(msg: nat) -> nat {
    NFNL_SUBSYS_CTNETLINK as nat * 256 + msg
}

/// The message type of a connection-tracking request.
fn ct_msg_type(msg: u16) -> (ty: u16)
    requires
        msg < 256,
    ensures
        ty == ct_type(msg as nat),
{
    NFNL_SUBSYS_CTNETLINK * 256 + msg
}

/// One tracked flow: the tuple of its original direction, and the bytes that
/// its initiator sent and received.
#[derive(Debug, Clone, Copy, PartialEq, Eq, Structural)]
pub struct Flow {
    pub protocol: Protocol,
    pub orig_src: IpAddr,
    pub orig_dst: IpAddr,
    pub sport: u16,
    pub dport: u16,
    pub orig_bytes: u64,
    pub reply_bytes: u64,
}

/// What has been read of a flow so far.
#[derive(Debug, Clone, Copy, PartialEq, Eq, Structural)]
pub struct Partial {
    pub proto: Option<Protocol>,
    pub src: Option<IpAddr>,
    pub dst: Option<IpAddr>,
    pub sport: u16,
    pub dport: u16,
    pub orig_bytes: u64,
    pub reply_bytes: u64,
}

/// Nothing read yet.
pub open spec fn nothing() -> Partial {
    Partial {
        proto: None,
        src: None,
        dst: None,
        sport: 0,
        dport: 0,
        orig_bytes: 0,
        reply_bytes: 0,
    }
}

/// The protocol that an IP protocol number stands for.
pub open spec fn protocol_of(n: u8) -> Option<Protocol> {
    if n == IPPROTO_TCP {
        Some(Protocol::Tcp)
    } else if n == IPPROTO_UDP {
        Some(Protocol::Udp)
    } else {
        None
    }
}

/// `p` after one address attribute.
pub open spec fn ip_step(p: Partial, a: AttrView) -> Partial {
    let ty = plain_ty(a.ty);
    if ty == CTA_IP_V4_SRC && a.value.len() == 4 {
        Partial { src: Some(IpAddr::v4_of(a.value)), ..p }
    } else if ty == CTA_IP_V4_DST && a.value.len() == 4 {
        Partial { dst: Some(IpAddr::v4_of(a.value)), ..p }
    } else if ty == CTA_IP_V6_SRC && a.value.len() == 16 {
        Partial { src: Some(IpAddr::v6_of(a.value)), ..p }
    } else if ty == CTA_IP_V6_DST && a.value.len() == 16 {
        Partial { dst: Some(IpAddr::v6_of(a.value)), ..p }
    } else {
        p
    }
}

/// `p` after one transport attribute.
pub open spec fn proto_step(p: Partial, a: AttrView) -> Partial {
    let ty = plain_ty(a.ty);
    if ty == CTA_PROTO_NUM && a.value.len() > 0 {
        Partial { proto: protocol_of(a.value[0]), ..p }
    } else if ty == CTA_PROTO_SRC_PORT && a.value.len() == 2 {
        Partial { sport: be_nat(a.value) as u16, ..p }
    } else if ty == CTA_PROTO_DST_PORT && a.value.len() == 2 {
        Partial { dport: be_nat(a.value) as u16, ..p }
    } else {
        p
    }
}

/// `p` after one attribute of a tuple.
pub open spec fn tuple_step(p: Partial, a: AttrView) -> Partial {
    let ty = plain_ty(a.ty);
    if ty == CTA_TUPLE_IP {
        attrs_of(a.value).fold_left(p, |p: Partial, a: AttrView| ip_step(p, a))
    } else if ty == CTA_TUPLE_PROTO {
        attrs_of(a.value).fold_left(p, |p: Partial, a: AttrView| proto_step(p, a))
    } else {
        p
    }
}

/// The byte counter in a counter attribute's value: the last one given, or zero.
pub open spec fn bytes_counted(data: Seq<u8>) -> u64 {
    attrs_of(data).fold_left(
        0u64,
        |n: u64, a: AttrView|
            if plain_ty(a.ty) == CTA_COUNTERS_BYTES && a.value.len() == 8 {
                be_nat(a.value) as u64
            } else {
                n
            },
    )
}

/// `p` after one attribute of a flow.
pub open spec fn flow_step(p: Partial, a: AttrView) -> Partial {
    let ty = plain_ty(a.ty);
    if ty == CTA_TUPLE_ORIG {
        attrs_of(a.value).fold_left(p, |p: Partial, a: AttrView| tuple_step(p, a))
    } else if ty == CTA_COUNTERS_ORIG {
        Partial { orig_bytes: bytes_counted(a.value), ..p }
    } else if ty == CTA_COUNTERS_REPLY {
        Partial { reply_bytes: bytes_counted(a.value), ..p }
    } else {
        p
    }
}

/// The flow that a payload describes: one whose protocol and both addresses are
/// given. Of an attribute given twice, the later counts.
pub open spec fn flow_of(attrs: Seq<u8>) -> Option<Flow> {
    let p = attrs_of(attrs).fold_left(nothing(), |p: Partial, a: AttrView| flow_step(p, a));
    if p.proto is Some && p.src is Some && p.dst is Some {
        Some(
            Flow {
                protocol: p.proto->0,
                orig_src: p.src->0,
                orig_dst: p.dst->0,
                sport: p.sport,
                dport: p.dport,
                orig_bytes: p.orig_bytes,
                reply_bytes: p.reply_bytes,
            },
        )
    } else {
        None
    }
}

proof fn lemma_fold_next<A, B>(s: Seq<A>, i: int, b: B, f: spec_fn(B, A) -> B)
    requires
        0 <= i < s.len(),
    ensures
        s.take(i + 1).fold_left(b, f) == f(s.take(i).fold_left(b, f), s[i]),
{
    assert(s.take(i + 1).drop_last() =~= s.take(i));
}

/// The protocol that a number names.
fn protocol(n: u8) -> (p: Option<Protocol>)
    ensures
        p == protocol_of(n),
{
    if n == IPPROTO_TCP {
        Some(Protocol::Tcp)
    } else if n == IPPROTO_UDP {
        Some(Protocol::Udp)
    } else {
        None
    }
}

fn parse_ip(data: &[u8], p: &mut Partial)
    ensures
        *final(p) == attrs_of(data@).fold_left(
            *old(p),
            |p: Partial, a: AttrView| ip_step(p, a),
        ),
{
    let attrs = for_each_attr(data);
    let ghost all = attrs_of(data@);
    let ghost f = |p: Partial, a: AttrView| ip_step(p, a);
    let mut i: usize = 0;
    while i < attrs.len()
        invariant
            i <= attrs@.len(),
            all == attr_views(attrs@),
            f == (|p: Partial, a: AttrView| ip_step(p, a)),
            *p == all.take(i as int).fold_left(*old(p), f),
        decreases attrs@.len() - i,
    {
        proof {
            lemma_fold_next(all, i as int, *old(p), f);
            assert(all[i as int] == attrs@[i as int]@);
        }
        let ty: u16 = attrs[i].ty % 0x8000;
        let value = attrs[i].value.as_slice();
        if ty == CTA_IP_V4_SRC && value.len() == 4 {
            p.src = Some(IpAddr::from_v4(value));
        } else if ty == CTA_IP_V4_DST && value.len() == 4 {
            p.dst = Some(IpAddr::from_v4(value));
        } else if ty == CTA_IP_V6_SRC && value.len() == 16 {
            p.src = Some(IpAddr::from_v6(value));
        } else if ty == CTA_IP_V6_DST && value.len() == 16 {
            p.dst = Some(IpAddr::from_v6(value));
        }
        i += 1;
    }
    assert(all.take(i as int) =~= all);
}

fn parse_proto(data: &[u8], p: &mut Partial)
    ensures
        *final(p) == attrs_of(data@).fold_left(
            *old(p),
            |p: Partial, a: AttrView| proto_step(p, a),
        ),
{
    let attrs = for_each_attr(data);
    let ghost all = attrs_of(data@);
    let ghost f = |p: Partial, a: AttrView| proto_step(p, a);
    let mut i: usize = 0;
    while i < attrs.len()
        invariant
            i <= attrs@.len(),
            all == attr_views(attrs@),
            f == (|p: Partial, a: AttrView| proto_step(p, a)),
            *p == all.take(i as int).fold_left(*old(p), f),
        decreases attrs@.len() - i,
    {
        proof {
            lemma_fold_next(all, i as int, *old(p), f);
            assert(all[i as int] == attrs@[i as int]@);
        }
        let ty: u16 = attrs[i].ty % 0x8000;
        let value = attrs[i].value.as_slice();
        assert(value@.len() == 2 ==> crate::bytes::at(value@, 0, 2) =~= value@);
        if ty == CTA_PROTO_NUM && value.len() > 0 {
            p.proto = protocol(value[0]);
        } else if ty == CTA_PROTO_SRC_PORT && value.len() == 2 {
            p.sport = be_u16_at(value, 0);
        } else if ty == CTA_PROTO_DST_PORT && value.len() == 2 {
            p.dport = be_u16_at(value, 0);
        }
        i += 1;
    }
    assert(all.take(i as int) =~= all);
}

fn parse_tuple(data: &[u8], p: &mut Partial)
    ensures
        *final(p) == attrs_of(data@).fold_left(
            *old(p),
            |p: Partial, a: AttrView| tuple_step(p, a),
        ),
{
    let attrs = for_each_attr(data);
    let ghost all = attrs_of(data@);
    let ghost f = |p: Partial, a: AttrView| tuple_step(p, a);
    let mut i: usize = 0;
    while i < attrs.len()
        invariant
            i <= attrs@.len(),
            all == attr_views(attrs@),
            f == (|p: Partial, a: AttrView| tuple_step(p, a)),
            *p == all.take(i as int).fold_left(*old(p), f),
        decreases attrs@.len() - i,
    {
        proof {
            lemma_fold_next(all, i as int, *old(p), f);
            assert(all[i as int] == attrs@[i as int]@);
        }
        let ty: u16 = attrs[i].ty % 0x8000;
        if ty == CTA_TUPLE_IP {
            parse_ip(attrs[i].value.as_slice(), p);
        } else if ty == CTA_TUPLE_PROTO {
            parse_proto(attrs[i].value.as_slice(), p);
        }
        i += 1;
    }
    assert(all.take(i as int) =~= all);
}

fn counter_bytes(data: &[u8]) -> (n: u64)
    ensures
        n == bytes_counted(data@),
{
    let attrs = for_each_attr(data);
    let ghost all = attrs_of(data@);
    let ghost f = |n: u64, a: AttrView|
        if plain_ty(a.ty) == CTA_COUNTERS_BYTES && a.value.len() == 8 {
            be_nat(a.value) as u64
        } else {
            n
        };
    let mut n: u64 = 0;
    let mut i: usize = 0;
    while i < attrs.len()
        invariant
            i <= attrs@.len(),
            all == attr_views(attrs@),
            f == (|n: u64, a: AttrView|
                if plain_ty(a.ty) == CTA_COUNTERS_BYTES && a.value.len() == 8 {
                    be_nat(a.value) as u64
                } else {
                    n
                }),
            n == all.take(i as int).fold_left(0u64, f),
        decreases attrs@.len() - i,
    {
        proof {
            lemma_fold_next(all, i as int, 0u64, f);
            assert(all[i as int] == attrs@[i as int]@);
        }
        let value = attrs[i].value.as_slice();
        if attrs[i].ty % 0x8000 == CTA_COUNTERS_BYTES && value.len() == 8 {
            assert(crate::bytes::at(value@, 0, 8) =~= value@);
            n = be_u64_at(value, 0);
        }
        i += 1;
    }
    assert(all.take(i as int) =~= all);
    n
}

/// Reads one flow from the attributes of a dump message.
pub fn parse_flow(data: &[u8]) -> (flow: Option<Flow>)
    ensures
        flow == flow_of(data@),
{
    let attrs = for_each_attr(data);
    let ghost all = attrs_of(data@);
    let ghost f = |p: Partial, a: AttrView| flow_step(p, a);
    let mut p = Partial {
        proto: None,
        src: None,
        dst: None,
        sport: 0,
        dport: 0,
        orig_bytes: 0,
        reply_bytes: 0,
    };
    let mut i: usize = 0;
    while i < attrs.len()
        invariant
            i <= attrs@.len(),
            all == attr_views(attrs@),
            f == (|p: Partial, a: AttrView| flow_step(p, a)),
            p == all.take(i as int).fold_left(nothing(), f),
        decreases attrs@.len() - i,
    {
        proof {
            lemma_fold_next(all, i as int, nothing(), f);
            assert(all[i as int] == attrs@[i as int]@);
        }
        let ty: u16 = attrs[i].ty % 0x8000;
        let value = attrs[i].value.as_slice();
        if ty == CTA_TUPLE_ORIG {
            parse_tuple(value, &mut p);
        } else if ty == CTA_COUNTERS_ORIG {
            p.orig_bytes = counter_bytes(value);
        } else if ty == CTA_COUNTERS_REPLY {
            p.reply_bytes = counter_bytes(value);
        }
        i += 1;
    }
    assert(all.take(i as int) =~= all);
    match (p.proto, p.src, p.dst) {
        (Some(protocol), Some(orig_src), Some(orig_dst)) => Some(
            Flow {
                protocol,
                orig_src,
                orig_dst,
                sport: p.sport,
                dport: p.dport,
                orig_bytes: p.orig_bytes,
                reply_bytes: p.reply_bytes,
            },
        ),
        _ => None,
    }
}

/// The flows in a dump's messages: each payload, without its four-byte family
/// header, that describes one.
pub open spec fn flows_of(messages: Seq<AttrView>) -> Seq<Flow> {
    messages.filter_map(
        |m: AttrView|
            if m.value.len() > 4 {
                flow_of(m.value.skip(4))
            } else {
                None
            },
    )
}

/// Reads every flow of a dump.
pub fn parse_dump(messages: &Vec<Attr>) -> (flows: Vec<Flow>)
    ensures
        flows@ == flows_of(attr_views(messages@)),
{
    let mut out: Vec<Flow> = Vec::new();
    let ghost all = attr_views(messages@);
    let ghost f = |m: AttrView|
        if m.value.len() > 4 {
            flow_of(m.value.skip(4))
        } else {
            None
        };
    let mut i: usize = 0;
    while i < messages.len()
        invariant
            i <= messages@.len(),
            all == attr_views(messages@),
            f == (|m: AttrView|
                if m.value.len() > 4 {
                    flow_of(m.value.skip(4))
                } else {
                    None
                }),
            out@ == all.take(i as int).filter_map(f),
        decreases messages@.len() - i,
    {
        proof {
            all.lemma_filter_map_take_succ(f, i as int);
            assert(all[i as int] == messages@[i as int]@);
        }
        let value = messages[i].value.as_slice();
        if value.len() > 4 {
            let rest = vstd::slice::slice_subrange(value, 4, value.len());
            assert(rest@ =~= value@.skip(4));
            if let Some(flow) = parse_flow(rest) {
                out.push(flow);
            }
        }
        assert(out@ =~= all.take(i + 1).filter_map(f));
        i += 1;
    }
    assert(all.take(i as int) =~= all);
    out
}

/// A message header: total length, type, flags, and zero for the sequence number
/// and the sender.
pub open spec fn header_bytes(total: nat, ty: nat, flags: nat) -> Seq<u8> {
    le_bytes(total, 4) + le_bytes(ty, 2) + le_bytes(flags, 2) + le_bytes(0, 8)
}

/// Appends a message header.
pub fn push_header(buf: &mut Vec<u8>, total: usize, ty: u16, flags: u16)
    ensures
        final(buf)@ == old(buf)@ + header_bytes(total as nat, ty as nat, flags as nat),
{
    push_le(buf, total as u128, 4);
    push_le(buf, ty as u128, 2);
    push_le(buf, flags as u128, 2);
    push_le(buf, 0, 8);
    assert(buf@ =~= old(buf)@ + header_bytes(total as nat, ty as nat, flags as nat));
}

/// The request for every flow of every family.
pub fn build_dump() -> (buf: Vec<u8>)
    ensures
        buf@ == header_bytes(
            20,
            ct_type(IPCTNL_MSG_CT_GET as nat),
            (NLM_F_REQUEST + NLM_F_DUMP) as nat,
        ) + seq![AF_UNSPEC, 0, 0, 0],
{
    let mut buf: Vec<u8> = Vec::new();
    push_header(&mut buf, 20, ct_msg_type(IPCTNL_MSG_CT_GET), NLM_F_REQUEST + NLM_F_DUMP);
    let ghost header = buf@;
    buf.push(AF_UNSPEC);
    buf.push(0);
    buf.push(0);
    buf.push(0);
    assert(buf@ =~= header + seq![AF_UNSPEC, 0, 0, 0]);
    buf
}

/// The address attributes of a tuple. Addresses of two families have none.
pub open spec fn ip_attrs(local: IpAddr, remote: IpAddr) -> Seq<AttrView> {
    match (local, remote) {
        (IpAddr::V4(_), IpAddr::V4(_)) => seq![
            AttrView { ty: CTA_IP_V4_SRC as nat, value: local.octets_of() },
            AttrView { ty: CTA_IP_V4_DST as nat, value: remote.octets_of() },
        ],
        (IpAddr::V6(_), IpAddr::V6(_)) => seq![
            AttrView { ty: CTA_IP_V6_SRC as nat, value: local.octets_of() },
            AttrView { ty: CTA_IP_V6_DST as nat, value: remote.octets_of() },
        ],
        _ => Seq::empty(),
    }
}

/// The transport attributes of a tuple.
pub open spec fn proto_attrs(sport: u16, dport: u16, ipproto: u8) -> Seq<AttrView> {
    seq![
        AttrView { ty: CTA_PROTO_NUM as nat, value: seq![ipproto] },
        AttrView { ty: CTA_PROTO_SRC_PORT as nat, value: be_bytes(sport as nat, 2) },
        AttrView { ty: CTA_PROTO_DST_PORT as nat, value: be_bytes(dport as nat, 2) },
    ]
}

/// The attributes that identify a flow by its original tuple.
pub open spec fn tuple_attrs(
    local: (IpAddr, u16),
    remote: (IpAddr, u16),
    ipproto: u8,
) -> Seq<AttrView> {
    let tuple = seq![
        AttrView {
            ty: (CTA_TUPLE_IP + NLA_F_NESTED) as nat,
            value: encoded(ip_attrs(local.0, remote.0)),
        },
        AttrView {
            ty: (CTA_TUPLE_PROTO + NLA_F_NESTED) as nat,
            value: encoded(proto_attrs(local.1, remote.1, ipproto)),
        },
    ];
    seq![AttrView { ty: (CTA_TUPLE_ORIG + NLA_F_NESTED) as nat, value: encoded(tuple) }]
}

/// The family header of a request about `local`'s family.
pub open spec fn family_header(local: IpAddr) -> Seq<u8> {
    seq![
        if local is V4 {
            AF_INET
        } else {
            AF_INET6
        },
        0,
        0,
        0,
    ]
}

/// Appends one attribute to attributes that are already written.
fn push_one(buf: &mut Vec<u8>, Ghost(attrs): Ghost<Seq<AttrView>>, ty: u16, payload: &[u8])
    requires
        old(buf)@ == encoded(attrs),
    ensures
        final(buf)@ == encoded(attrs.push(AttrView { ty: ty as nat, value: payload@ })),
{
    proof {
        crate::linux::netlink::lemma_push_encodes(
            attrs,
            AttrView { ty: ty as nat, value: payload@ },
        );
    }
    push_attr(buf, ty, payload);
}

proof fn lemma_ip_len(local: IpAddr, remote: IpAddr)
    ensures
        encoded(ip_attrs(local, remote)).len() <= 40,
{
    crate::ip::law_octets_identify_the_address(local);
    crate::ip::law_octets_identify_the_address(remote);
    let attrs = ip_attrs(local, remote);
    if attrs.len() > 0 {
        let none = Seq::<AttrView>::empty();
        crate::linux::netlink::lemma_push_encodes(none, attrs[0]);
        crate::linux::netlink::lemma_push_encodes(none.push(attrs[0]), attrs[1]);
        assert(attrs =~= none.push(attrs[0]).push(attrs[1]));
    }
}

proof fn lemma_proto_len(sport: u16, dport: u16, ipproto: u8)
    ensures
        encoded(proto_attrs(sport, dport, ipproto)).len() == 24,
{
    crate::bytes::lemma_be_bytes_len(sport as nat, 2);
    crate::bytes::lemma_be_bytes_len(dport as nat, 2);
    let attrs = proto_attrs(sport, dport, ipproto);
    let none = Seq::<AttrView>::empty();
    let one = none.push(attrs[0]);
    let two = one.push(attrs[1]);
    crate::linux::netlink::lemma_push_encodes(none, attrs[0]);
    crate::linux::netlink::lemma_push_encodes(one, attrs[1]);
    crate::linux::netlink::lemma_push_encodes(two, attrs[2]);
    assert(attrs =~= two.push(attrs[2]));
}

/// The two attributes of a tuple.
spec fn tuple_pair(local: (IpAddr, u16), remote: (IpAddr, u16), ipproto: u8) -> Seq<AttrView> {
    seq![
        AttrView {
            ty: (CTA_TUPLE_IP + NLA_F_NESTED) as nat,
            value: encoded(ip_attrs(local.0, remote.0)),
        },
        AttrView {
            ty: (CTA_TUPLE_PROTO + NLA_F_NESTED) as nat,
            value: encoded(proto_attrs(local.1, remote.1, ipproto)),
        },
    ]
}

proof fn lemma_tuple_len(local: (IpAddr, u16), remote: (IpAddr, u16), ipproto: u8)
    ensures
        encoded(tuple_pair(local, remote, ipproto)).len() <= 76,
        encoded(tuple_attrs(local, remote, ipproto)).len() <= 80,
{
    lemma_ip_len(local.0, remote.0);
    lemma_proto_len(local.1, remote.1, ipproto);
    let pair = tuple_pair(local, remote, ipproto);
    let none = Seq::<AttrView>::empty();
    crate::linux::netlink::lemma_push_encodes(none, pair[0]);
    crate::linux::netlink::lemma_push_encodes(none.push(pair[0]), pair[1]);
    assert(pair =~= none.push(pair[0]).push(pair[1]));
    let whole = tuple_attrs(local, remote, ipproto);
    crate::linux::netlink::lemma_push_encodes(none, whole[0]);
    assert(whole =~= none.push(whole[0]));
}

proof fn lemma_fold_short<A, B>(s: Seq<A>, b: B, f: spec_fn(B, A) -> B)
    requires
        1 <= s.len() <= 3,
    ensures
        s.len() == 1 ==> s.fold_left(b, f) == f(b, s[0]),
        s.len() == 2 ==> s.fold_left(b, f) == f(f(b, s[0]), s[1]),
        s.len() == 3 ==> s.fold_left(b, f) == f(f(f(b, s[0]), s[1]), s[2]),
{
    lemma_fold_next(s, 0, b, f);
    assert(s.take(0).fold_left(b, f) == b);
    if s.len() >= 2 {
        lemma_fold_next(s, 1, b, f);
    }
    if s.len() == 3 {
        lemma_fold_next(s, 2, b, f);
    }
    assert(s.take(s.len() as int) =~= s);
}

proof fn lemma_ip_read(local: IpAddr, remote: IpAddr, p: Partial)
    requires
        local is V4 == remote is V4,
    ensures
        attrs_of(encoded(ip_attrs(local, remote))).fold_left(
            p,
            |p: Partial, a: AttrView| ip_step(p, a),
        ) == (Partial { src: Some(local), dst: Some(remote), ..p }),
{
    let ips = ip_attrs(local, remote);
    crate::ip::law_octets_identify_the_address(local);
    crate::ip::law_octets_identify_the_address(remote);
    crate::linux::netlink::law_attrs_round_trip(ips);
    lemma_fold_short(ips, p, |p: Partial, a: AttrView| ip_step(p, a));
}

proof fn lemma_proto_read(sport: u16, dport: u16, ipproto: u8, p: Partial)
    ensures
        attrs_of(encoded(proto_attrs(sport, dport, ipproto))).fold_left(
            p,
            |p: Partial, a: AttrView| proto_step(p, a),
        ) == (Partial { proto: protocol_of(ipproto), sport, dport, ..p }),
{
    let protos = proto_attrs(sport, dport, ipproto);
    crate::bytes::lemma_be_bytes_len(sport as nat, 2);
    crate::bytes::lemma_be_bytes_len(dport as nat, 2);
    crate::bytes::lemma_pow256_values();
    crate::bytes::law_be_round_trip(sport as nat, 2);
    crate::bytes::law_be_round_trip(dport as nat, 2);
    crate::linux::netlink::law_attrs_round_trip(protos);
    lemma_fold_short(protos, p, |p: Partial, a: AttrView| proto_step(p, a));
}

proof fn lemma_pair_read(local: (IpAddr, u16), remote: (IpAddr, u16), ipproto: u8)
    requires
        local.0 is V4 == remote.0 is V4,
    ensures
        attrs_of(encoded(tuple_pair(local, remote, ipproto))).fold_left(
            nothing(),
            |p: Partial, a: AttrView| tuple_step(p, a),
        ) == (Partial {
            proto: protocol_of(ipproto),
            src: Some(local.0),
            dst: Some(remote.0),
            sport: local.1,
            dport: remote.1,
            ..nothing()
        }),
{
    let pair = tuple_pair(local, remote, ipproto);
    let p1 = Partial { src: Some(local.0), dst: Some(remote.0), ..nothing() };
    lemma_ip_len(local.0, remote.0);
    lemma_proto_len(local.1, remote.1, ipproto);
    crate::linux::netlink::law_attrs_round_trip(pair);
    lemma_ip_read(local.0, remote.0, nothing());
    lemma_proto_read(local.1, remote.1, ipproto, p1);
    lemma_fold_short(pair, nothing(), |p: Partial, a: AttrView| tuple_step(p, a));
    assert(tuple_step(nothing(), pair[0]) == p1);
}

/// A delete request names the flow it is for: the attributes after its headers
/// read as the flow from `local` to `remote`, with no bytes counted.
pub proof fn law_delete_names_its_flow(local: (IpAddr, u16), remote: (IpAddr, u16), ipproto: u8)
    requires
        local.0 is V4 == remote.0 is V4,
        protocol_of(ipproto) is Some,
    ensures
        flow_of(encoded(tuple_attrs(local, remote, ipproto))) == Some(
            Flow {
                protocol: protocol_of(ipproto)->0,
                orig_src: local.0,
                orig_dst: remote.0,
                sport: local.1,
                dport: remote.1,
                orig_bytes: 0,
                reply_bytes: 0,
            },
        ),
{
    let whole = tuple_attrs(local, remote, ipproto);
    lemma_tuple_len(local, remote, ipproto);
    assert(whole[0].value == encoded(tuple_pair(local, remote, ipproto)));
    crate::linux::netlink::law_attrs_round_trip(whole);
    lemma_pair_read(local, remote, ipproto);
    lemma_fold_short(whole, nothing(), |p: Partial, a: AttrView| flow_step(p, a));
}

/// The request that deletes the flow from `local` to `remote`.
pub fn build_delete(local: (IpAddr, u16), remote: (IpAddr, u16), ipproto: u8) -> (buf: Vec<u8>)
    ensures
        ({
            let body = family_header(local.0) + encoded(tuple_attrs(local, remote, ipproto));
            buf@ == header_bytes(
                16 + body.len(),
                ct_type(IPCTNL_MSG_CT_DELETE as nat),
                (NLM_F_REQUEST + NLM_F_ACK) as nat,
            ) + body
        }),
{
    let mut ip: Vec<u8> = Vec::new();
    let ghost none = Seq::<AttrView>::empty();
    let src = local.0.octets();
    let dst = remote.0.octets();
    match (local.0, remote.0) {
        (IpAddr::V4(_), IpAddr::V4(_)) => {
            push_one(&mut ip, Ghost(none), CTA_IP_V4_SRC, src.as_slice());
            let ghost one = none.push(AttrView { ty: CTA_IP_V4_SRC as nat, value: src@ });
            push_one(&mut ip, Ghost(one), CTA_IP_V4_DST, dst.as_slice());
            assert(one.push(AttrView { ty: CTA_IP_V4_DST as nat, value: dst@ }) =~= ip_attrs(
                local.0,
                remote.0,
            ));
        },
        (IpAddr::V6(_), IpAddr::V6(_)) => {
            push_one(&mut ip, Ghost(none), CTA_IP_V6_SRC, src.as_slice());
            let ghost one = none.push(AttrView { ty: CTA_IP_V6_SRC as nat, value: src@ });
            push_one(&mut ip, Ghost(one), CTA_IP_V6_DST, dst.as_slice());
            assert(one.push(AttrView { ty: CTA_IP_V6_DST as nat, value: dst@ }) =~= ip_attrs(
                local.0,
                remote.0,
            ));
        },
        _ => {},
    }
    assert(ip@ == encoded(ip_attrs(local.0, remote.0)));

    let mut proto: Vec<u8> = Vec::new();
    let num: Vec<u8> = vec![ipproto];
    let sport = to_be(local.1 as u128, 2);
    let dport = to_be(remote.1 as u128, 2);
    let ghost p1 = none.push(AttrView { ty: CTA_PROTO_NUM as nat, value: num@ });
    let ghost p2 = p1.push(AttrView { ty: CTA_PROTO_SRC_PORT as nat, value: sport@ });
    push_one(&mut proto, Ghost(none), CTA_PROTO_NUM, num.as_slice());
    push_one(&mut proto, Ghost(p1), CTA_PROTO_SRC_PORT, sport.as_slice());
    push_one(&mut proto, Ghost(p2), CTA_PROTO_DST_PORT, dport.as_slice());
    assert(num@ =~= seq![ipproto]);
    assert(p2.push(AttrView { ty: CTA_PROTO_DST_PORT as nat, value: dport@ }) =~= proto_attrs(
        local.1,
        remote.1,
        ipproto,
    ));

    let mut tuple: Vec<u8> = Vec::new();
    let ghost t1 = none.push(
        AttrView { ty: (CTA_TUPLE_IP + NLA_F_NESTED) as nat, value: ip@ },
    );
    let ghost t2 = t1.push(
        AttrView { ty: (CTA_TUPLE_PROTO + NLA_F_NESTED) as nat, value: proto@ },
    );
    push_one(&mut tuple, Ghost(none), CTA_TUPLE_IP + NLA_F_NESTED, ip.as_slice());
    push_one(&mut tuple, Ghost(t1), CTA_TUPLE_PROTO + NLA_F_NESTED, proto.as_slice());

    let mut orig: Vec<u8> = Vec::new();
    push_one(&mut orig, Ghost(none), CTA_TUPLE_ORIG + NLA_F_NESTED, tuple.as_slice());
    proof {
        let whole = none.push(
            AttrView { ty: (CTA_TUPLE_ORIG + NLA_F_NESTED) as nat, value: tuple@ },
        );
        assert(t2 =~= seq![t2[0], t2[1]]);
        assert(whole =~= tuple_attrs(local, remote, ipproto));
    }

    let mut body: Vec<u8> = vec![
        if local.0.is_ipv4() {
            AF_INET
        } else {
            AF_INET6
        },
        0,
        0,
        0,
    ];
    assert(body@ =~= family_header(local.0));
    append(&mut body, orig.as_slice());
    proof {
        lemma_tuple_len(local, remote, ipproto);
    }
    let mut buf: Vec<u8> = Vec::new();
    push_header(
        &mut buf,
        16 + body.len(),
        ct_msg_type(IPCTNL_MSG_CT_DELETE),
        NLM_F_REQUEST + NLM_F_ACK,
    );
    append(&mut buf, body.as_slice());
    buf
}

/// The attributes of the two counters of a flow.
pub open spec fn counter_attrs(orig: u64, reply: u64) -> Seq<AttrView> {
    seq![
        AttrView {
            ty: 0x8009,
            value: encoded(seq![AttrView { ty: 2, value: be_bytes(orig as nat, 8) }]),
        },
        AttrView {
            ty: 0x800a,
            value: encoded(seq![AttrView { ty: 2, value: be_bytes(reply as nat, 8) }]),
        },
    ]
}

/// A tracked flow reads back: its protocol, its two ends, and the bytes that were
/// counted each way.
pub proof fn law_tracked_flows_read_back(
    local: (IpAddr, u16),
    remote: (IpAddr, u16),
    ipproto: u8,
    orig: u64,
    reply: u64,
)
    requires
        local.0 is V4 == remote.0 is V4,
        ipproto == 6 || ipproto == 17,
    ensures
        flow_of(encoded(tuple_attrs(local, remote, ipproto) + counter_attrs(orig, reply))) == Some(
            Flow {
                protocol: if ipproto == 6 {
                    Protocol::Tcp
                } else {
                    Protocol::Udp
                },
                orig_src: local.0,
                orig_dst: remote.0,
                sport: local.1,
                dport: remote.1,
                orig_bytes: orig,
                reply_bytes: reply,
            },
        ),
{
    let whole = tuple_attrs(local, remote, ipproto);
    let counters = counter_attrs(orig, reply);
    let all = whole + counters;
    lemma_tuple_len(local, remote, ipproto);
    assert(whole[0].value == encoded(tuple_pair(local, remote, ipproto)));
    lemma_counter(orig);
    lemma_counter(reply);
    crate::linux::netlink::law_attrs_round_trip(all);
    lemma_pair_read(local, remote, ipproto);
    lemma_fold_short(all, nothing(), |p: Partial, a: AttrView| flow_step(p, a));
    assert(all[0] == whole[0] && all[1] == counters[0] && all[2] == counters[1]);
}

proof fn lemma_counter(n: u64)
    ensures
        ({
            let data = encoded(seq![AttrView { ty: 2, value: be_bytes(n as nat, 8) }]);
            data.len() == 12 && bytes_counted(data) == n
        }),
{
    let a = AttrView { ty: 2, value: be_bytes(n as nat, 8) };
    let one = seq![a];
    let none = Seq::<AttrView>::empty();
    crate::bytes::lemma_pow256_values();
    crate::bytes::lemma_be_bytes_len(n as nat, 8);
    crate::bytes::law_be_round_trip(n as nat, 8);
    crate::linux::netlink::lemma_push_encodes(none, a);
    assert(none.push(a) =~= one);
    crate::linux::netlink::law_attrs_round_trip(one);
    lemma_fold_short(
        one,
        0u64,
        |n: u64, a: AttrView|
            if plain_ty(a.ty) == CTA_COUNTERS_BYTES && a.value.len() == 8 {
                be_nat(a.value) as u64
            } else {
                n
            },
    );
}

/// A flow's attributes are numbered as the kernel numbers them.
pub proof fn law_attributes_are_numbered(local: (IpAddr, u16), remote: (IpAddr, u16), ipproto: u8)
    requires
        local.0 is V4 == remote.0 is V4,
    ensures
        ({
            let (src, dst): (nat, nat) = if local.0 is V4 {
                (1, 2)
            } else {
                (3, 4)
            };
            let ips = seq![
                AttrView { ty: src, value: local.0.octets_of() },
                AttrView { ty: dst, value: remote.0.octets_of() },
            ];
            let ports = seq![
                AttrView { ty: 1, value: seq![ipproto] },
                AttrView { ty: 2, value: be_bytes(local.1 as nat, 2) },
                AttrView { ty: 3, value: be_bytes(remote.1 as nat, 2) },
            ];
            let pair = seq![
                AttrView { ty: 0x8001, value: encoded(ips) },
                AttrView { ty: 0x8002, value: encoded(ports) },
            ];
            tuple_attrs(local, remote, ipproto) == seq![
                AttrView { ty: 0x8001, value: encoded(pair) },
            ]
        }),
{
}

/// Every message of an answer that tells of a flow becomes one flow, in order.
pub proof fn law_every_flow_message_counts(messages: Seq<AttrView>, head: Seq<u8>, attrs: Seq<u8>, ty: nat)
    requires
        head.len() == 4,
        attrs.len() > 0,
    ensures
        flows_of(messages.push(AttrView { ty, value: head + attrs })) == (match flow_of(attrs) {
            Some(f) => flows_of(messages).push(f),
            None => flows_of(messages),
        }),
{
    let m = AttrView { ty, value: head + attrs };
    reveal(Seq::filter_map);
    assert(messages.push(m).drop_last() =~= messages);
    assert((head + attrs).skip(4) =~= attrs);
}

/// A message's header holds its length, its type and its flags, in the order of the
/// machine's bytes, and eight zeros. Messages about flows have types from 256 on.
pub proof fn law_headers_are_laid_out(total: u32, ty: u16, flags: u16)
    ensures
        ({
            let h = header_bytes(total as nat, ty as nat, flags as nat);
            &&& h.len() == 16
            &&& le_nat(h.subrange(0, 4)) == total
            &&& le_nat(h.subrange(4, 6)) == ty
            &&& le_nat(h.subrange(6, 8)) == flags
            &&& le_nat(h.subrange(8, 16)) == 0
        }),
        ct_type(1) == 0x101,
        ct_type(2) == 0x102,
        forall|v: u32| #[trigger] family_header(IpAddr::V4(v)) == seq![2u8, 0, 0, 0],
        forall|v: u128| #[trigger] family_header(IpAddr::V6(v)) == seq![10u8, 0, 0, 0],
{
    let (a, b) = (le_bytes(total as nat, 4), le_bytes(ty as nat, 2));
    let (c, d) = (le_bytes(flags as nat, 2), le_bytes(0, 8));
    let h = header_bytes(total as nat, ty as nat, flags as nat);
    crate::bytes::lemma_pow256_values();
    crate::bytes::lemma_le_bytes_len(total as nat, 4);
    crate::bytes::lemma_le_bytes_len(ty as nat, 2);
    crate::bytes::lemma_le_bytes_len(flags as nat, 2);
    crate::bytes::lemma_le_bytes_len(0, 8);
    crate::bytes::law_le_round_trip(total as nat, 4);
    crate::bytes::law_le_round_trip(ty as nat, 2);
    crate::bytes::law_le_round_trip(flags as nat, 2);
    crate::bytes::law_le_round_trip(0, 8);
    assert(h.subrange(0, 4) =~= a);
    assert(h.subrange(4, 6) =~= b);
    assert(h.subrange(6, 8) =~= c);
    assert(h.subrange(8, 16) =~= d);
}

} // verus!
