//! DNS responses: the packets that carry them, and the addresses that they give.

use crate::bytes::{be_nat, be_u16_at};
use crate::dns::{learned, DnsMap};
use crate::ip::IpAddr;
use crate::linux::ct::IPPROTO_UDP;
use crate::text::{lossy_text, utf8_lossy};
use vstd::prelude::*;

verus! {

/// How many steps a name may take, jumps included.
pub const MAX_NAME_STEPS: usize = 129;

/// The port that responses come from.
pub const DNS_PORT: u16 = 53;

/// A name, where it could be read, and where the record goes on behind it.
pub ghost struct NameView {
    pub text: Option<Seq<char>>,
    pub end: nat,
}

/// Labels with dots between them.
pub open spec fn dotted(labels: Seq<Seq<char>>) -> Seq<char>
    decreases labels.len(),
{
    if labels.len() == 0 {
        Seq::empty()
    } else if labels.len() == 1 {
        labels[0]
    } else {
        dotted(labels.drop_last()) + seq!['.'] + labels.last()
    }
}

/// The larger of two positions.
pub open spec fn later(a: nat, b: nat) -> nat {
    if a > b {
        a
    } else {
        b
    }
}

/// The name from `off` on, after `labels`. A length of 0 ends it; one of 192 or
/// more is a jump; any other starts a label. `end` is where the record goes on,
/// which the first jump decides.
pub open spec fn name_from(
    msg: Seq<u8>,
    off: nat,
    jumped: bool,
    end: nat,
    labels: Seq<Seq<char>>,
    left: nat,
) -> NameView
    decreases left,
{
    if off >= msg.len() || left == 0 {
        NameView { text: None, end: later(end, off) }
    } else {
        let n = msg[off as int] as nat;
        if n == 0 {
            NameView {
                text: if labels.len() == 0 {
                    None
                } else {
                    Some(dotted(labels))
                },
                end: if jumped {
                    end
                } else {
                    off + 1
                },
            }
        } else if n >= 0xc0 {
            if off + 1 >= msg.len() {
                NameView { text: None, end: later(end, off) }
            } else {
                name_from(
                    msg,
                    (n - 0xc0) as nat * 256 + msg[off as int + 1] as nat,
                    true,
                    if jumped {
                        end
                    } else {
                        off + 2
                    },
                    labels,
                    (left - 1) as nat,
                )
            }
        } else if off + 1 + n > msg.len() {
            NameView { text: None, end: later(end, off + 1) }
        } else {
            name_from(
                msg,
                off + 1 + n,
                jumped,
                end,
                labels.push(utf8_lossy(msg.subrange(off as int + 1, (off + 1 + n) as int))),
                (left - 1) as nat,
            )
        }
    }
}

/// The name at `off`.
pub open spec fn name_at(msg: Seq<u8>, off: nat) -> NameView {
    name_from(msg, off, false, off, Seq::empty(), MAX_NAME_STEPS as nat)
}

/// Reads the name at `start`, following jumps, and where the record goes on.
pub fn read_name(msg: &[u8], start: usize) -> (r: (Option<String>, usize))
    requires
        msg@.len() <= isize::MAX,
    ensures
        crate::text::text_view(r.0) == name_at(msg@, start as nat).text,
        r.1 == name_at(msg@, start as nat).end,
        r.1 <= later(start as nat, later(msg@.len(), 0x4000)),
{
    let mut off: usize = start;
    let mut end: usize = off;
    let mut jumped: bool = false;
    let mut left: usize = MAX_NAME_STEPS;
    let mut name = String::new();
    let mut some: bool = false;
    let ghost mut labels = Seq::<Seq<char>>::empty();
    let ghost limit = later(start as nat, later(msg@.len(), 0x4000));
    loop
        invariant
            msg@.len() <= isize::MAX,
            limit == later(start as nat, later(msg@.len(), 0x4000)),
            off <= limit,
            end <= limit,
            name@ == dotted(labels),
            some == (labels.len() > 0),
            name_at(msg@, start as nat) == name_from(
                msg@,
                off as nat,
                jumped,
                end as nat,
                labels,
                left as nat,
            ),
        decreases left,
    {
        if off >= msg.len() || left == 0 {
            return (None, if end > off {
                end
            } else {
                off
            });
        }
        let n: usize = msg[off] as usize;
        if n == 0 {
            if !jumped {
                end = off + 1;
            }
            return (if some {
                Some(name)
            } else {
                None
            }, end);
        }
        if n >= 0xc0 {
            if off + 1 >= msg.len() {
                return (None, if end > off {
                    end
                } else {
                    off
                });
            }
            if !jumped {
                end = off + 2;
            }
            off = (n - 0xc0) * 256 + msg[off + 1] as usize;
            jumped = true;
        } else {
            if off + 1 + n > msg.len() {
                return (None, if end > off + 1 {
                    end
                } else {
                    off + 1
                });
            }
            let label = lossy_text(vstd::slice::slice_subrange(msg, off + 1, off + 1 + n));
            let ghost next = labels.push(label@);
            assert(next.drop_last() =~= labels);
            if some {
                name.push('.');
                assert(name@ =~= dotted(labels) + seq!['.']);
            }
            let ghost front = name@;
            name.push_str(label.as_str());
            proof {
                if !some {
                    assert(next[0] == label@);
                    assert(name@ =~= label@);
                }
                labels = next;
            }
            some = true;
            off = off + 1 + n;
        }
        left -= 1;
    }
}

/// Where the records go on behind `n` questions, where they fit the message.
pub open spec fn after_questions(msg: Seq<u8>, off: nat, n: nat) -> Option<nat>
    decreases n,
{
    if n == 0 {
        Some(off)
    } else {
        let next = name_at(msg, off).end + 4;
        if next > msg.len() {
            None
        } else {
            after_questions(msg, next, (n - 1) as nat)
        }
    }
}

/// The address that a record gives: four bytes of type 1, or sixteen of type 28.
pub open spec fn record_address(rtype: nat, data: Seq<u8>) -> Option<IpAddr> {
    if rtype == 1 && data.len() == 4 {
        Some(IpAddr::v4_of(data))
    } else if rtype == 28 && data.len() == 16 {
        Some(IpAddr::v6_of(data))
    } else {
        None
    }
}

/// The addresses that `n` records from `off` on give, up to the first one that
/// does not fit the message.
pub open spec fn answers_from(msg: Seq<u8>, off: nat, n: nat) -> Seq<IpAddr>
    decreases n,
{
    let at = name_at(msg, off).end as int;
    if n == 0 || at + 10 > msg.len() {
        Seq::empty()
    } else {
        let rtype = be_nat(crate::bytes::at(msg, at, 2));
        let len = be_nat(crate::bytes::at(msg, at + 8, 2)) as int;
        if at + 10 + len > msg.len() {
            Seq::empty()
        } else {
            let rest = answers_from(msg, (at + 10 + len) as nat, (n - 1) as nat);
            match record_address(rtype, msg.subrange(at + 10, at + 10 + len)) {
                Some(a) => seq![a] + rest,
                None => rest,
            }
        }
    }
}

/// The name that a message answers about and the addresses that it gives.
pub open spec fn response_of(msg: Seq<u8>) -> Option<(Seq<char>, Seq<IpAddr>)> {
    if msg.len() < 12 {
        None
    } else {
        let questions = be_nat(crate::bytes::at(msg, 4, 2));
        let answers = be_nat(crate::bytes::at(msg, 6, 2));
        let first = name_at(msg, 12);
        let more = if questions > 1 {
            (questions - 1) as nat
        } else {
            0
        };
        match (first.text, after_questions(msg, first.end + 4, more)) {
            (Some(name), Some(off)) => Some((name, answers_from(msg, off, answers))),
            _ => None,
        }
    }
}

fn read_answers(msg: &[u8], from: usize, n: usize) -> (out: Vec<IpAddr>)
    requires
        msg@.len() <= isize::MAX,
    ensures
        out@ == answers_from(msg@, from as nat, n as nat),
{
    let mut out: Vec<IpAddr> = Vec::new();
    let mut off: usize = from;
    let mut left: usize = n;
    let ghost whole = answers_from(msg@, from as nat, n as nat);
    assert(out@ + whole =~= whole);
    while left > 0
        invariant
            msg@.len() <= isize::MAX,
            whole == answers_from(msg@, from as nat, n as nat),
            out@ + answers_from(msg@, off as nat, left as nat) == whole,
        decreases left,
    {
        let ghost here = answers_from(msg@, off as nat, left as nat);
        let (_, at) = read_name(msg, off);
        assert(out@ + Seq::<IpAddr>::empty() =~= out@);
        if at > msg.len() || msg.len() - at < 10 {
            assert(here =~= Seq::empty());
            return out;
        }
        let rtype: u16 = be_u16_at(msg, at);
        let len: usize = be_u16_at(msg, at + 8) as usize;
        if msg.len() - at - 10 < len {
            assert(here =~= Seq::empty());
            return out;
        }
        let data = vstd::slice::slice_subrange(msg, at + 10, at + 10 + len);
        let ghost rest = answers_from(msg@, (at + 10 + len) as nat, (left - 1) as nat);
        let ghost was = out@;
        if rtype == 1 && len == 4 {
            out.push(IpAddr::from_v4(data));
            assert(was + (seq![out@.last()] + rest) =~= out@ + rest);
        } else if rtype == 28 && len == 16 {
            out.push(IpAddr::from_v6(data));
            assert(was + (seq![out@.last()] + rest) =~= out@ + rest);
        }
        off = at + 10 + len;
        left -= 1;
    }
    assert(out@ + Seq::<IpAddr>::empty() =~= out@);
    out
}

/// Reads a DNS response: the name that it answers about and its addresses.
pub fn read_response(msg: &[u8]) -> (r: Option<(String, Vec<IpAddr>)>)
    requires
        msg@.len() <= isize::MAX,
    ensures
        match r {
            Some((name, addrs)) => response_of(msg@) == Some((name@, addrs@)),
            None => response_of(msg@) is None,
        },
{
    if msg.len() < 12 {
        return None;
    }
    let questions: usize = be_u16_at(msg, 4) as usize;
    let answers: usize = be_u16_at(msg, 6) as usize;
    let (name, end) = read_name(msg, 12);
    let name = match name {
        Some(n) => n,
        None => {
            return None;
        },
    };
    let mut off: usize = end + 4;
    let mut left: usize = if questions > 1 {
        questions - 1
    } else {
        0
    };
    let ghost first = after_questions(msg@, off as nat, left as nat);
    while left > 0
        invariant
            msg@.len() <= isize::MAX,
            off <= later(msg@.len(), 0x4000) + 4,
            first == after_questions(msg@, off as nat, left as nat),
            response_of(msg@) is None || first is Some,
            first is None ==> response_of(msg@) is None,
        decreases left,
    {
        let (_, next) = read_name(msg, off);
        if next + 4 > msg.len() {
            return None;
        }
        off = next + 4;
        left -= 1;
    }
    let addrs = read_answers(msg, off, answers);
    Some((name, addrs))
}

/// Names after the addresses of a response.
pub open spec fn all_learned(
    names: Seq<(IpAddr, Seq<char>)>,
    host: Seq<char>,
    addrs: Seq<IpAddr>,
) -> Seq<(IpAddr, Seq<char>)>
    decreases addrs.len(),
{
    if addrs.len() == 0 {
        names
    } else {
        learned(all_learned(names, host, addrs.drop_last()), host, addrs.last())
    }
}

/// Names after a message.
pub open spec fn after_message(names: Seq<(IpAddr, Seq<char>)>, msg: Seq<u8>) -> Seq<
    (IpAddr, Seq<char>),
> {
    match response_of(msg) {
        Some((host, addrs)) => all_learned(names, host, addrs),
        None => names,
    }
}

/// Learns the addresses of a response under the name that was asked for.
pub fn parse_dns_message(msg: &[u8], map: &mut DnsMap)
    requires
        msg@.len() <= isize::MAX,
        old(map).wf(),
    ensures
        final(map).wf(),
        final(map).names() == after_message(old(map).names(), msg@),
{
    if let Some((name, addrs)) = read_response(msg) {
        let ghost start = map.names();
        let mut i: usize = 0;
        assert(addrs@.take(0) =~= Seq::empty());
        while i < addrs.len()
            invariant
                i <= addrs@.len(),
                map.wf(),
                map.names() == all_learned(start, name@, addrs@.take(i as int)),
            decreases addrs@.len() - i,
        {
            assert(addrs@.take(i + 1).drop_last() =~= addrs@.take(i as int));
            map.record(name.as_str(), addrs[i]);
            i += 1;
        }
        assert(addrs@.take(i as int) =~= addrs@);
    }
}

/// The message in a UDP packet from the DNS port.
pub open spec fn message_of(pkt: Seq<u8>) -> Option<Seq<u8>> {
    let start = if pkt.len() >= 20 && pkt[0] / 16 == 4 {
        let header = (pkt[0] % 16) as int * 4;
        if pkt[9] == IPPROTO_UDP && pkt.len() >= header + 8 {
            Some(header)
        } else {
            None
        }
    } else if pkt.len() >= 48 && pkt[0] / 16 == 6 && pkt[6] == IPPROTO_UDP {
        Some(40int)
    } else {
        None
    };
    match start {
        Some(s) if be_nat(crate::bytes::at(pkt, s, 2)) == DNS_PORT => Some(pkt.skip(s + 8)),
        _ => None,
    }
}

/// Learns from an IP packet, where it carries a DNS response.
pub fn parse_dns_packet(pkt: &[u8], map: &mut DnsMap)
    requires
        pkt@.len() <= isize::MAX,
        old(map).wf(),
    ensures
        final(map).wf(),
        final(map).names() == (match message_of(pkt@) {
            Some(msg) => after_message(old(map).names(), msg),
            None => old(map).names(),
        }),
{
    if pkt.len() == 0 {
        return;
    }
    let version: u8 = pkt[0] / 16;
    let start: usize = if version == 4 && pkt.len() >= 20 {
        let header: usize = (pkt[0] % 16) as usize * 4;
        if pkt[9] != IPPROTO_UDP || pkt.len() < header + 8 {
            return;
        }
        header
    } else if version == 6 && pkt.len() >= 48 {
        if pkt[6] != IPPROTO_UDP {
            return;
        }
        40
    } else {
        return;
    };
    if be_u16_at(pkt, start) != DNS_PORT {
        return;
    }
    let msg = vstd::slice::slice_subrange(pkt, start + 8, pkt.len());
    assert(msg@ =~= pkt@.skip(start as int + 8));
    parse_dns_message(msg, map);
}

/// One instruction of a packet filter.
#[derive(Debug, Clone, Copy, PartialEq, Eq, Structural)]
pub struct FilterOp {
    pub code: u16,
    pub jt: u8,
    pub jf: u8,
    pub k: u32,
}

/// Where the packet's protocol is found.
pub const PROTOCOL_OFFSET: u32 = 0xffff_f000;

/// Where the network header starts.
pub const NET_OFFSET: u32 = 0xfff0_0000;

pub const LOAD_HALF: u16 = 0x28;

pub const LOAD_BYTE: u16 = 0x30;

/// Loads a half word at an offset from the header's length.
pub const LOAD_HALF_INDEXED: u16 = 0x48;

/// Loads the length of an IPv4 header.
pub const LOAD_HEADER_LEN: u16 = 0xb1;

pub const JUMP_EQUAL: u16 = 0x15;

pub const JUMP_SET: u16 = 0x45;

pub const RETURN: u16 = 0x06;

/// How much of a packet is accepted.
pub const ACCEPTED: u32 = 0x4_0000;

/// The filter that lets only UDP packets from the DNS port through.
pub open spec fn dns_filter() -> Seq<FilterOp> {
    seq![
        FilterOp { code: LOAD_HALF, jt: 0, jf: 0, k: PROTOCOL_OFFSET },
        FilterOp { code: JUMP_EQUAL, jt: 1, jf: 0, k: 0x0800 },
        FilterOp { code: JUMP_EQUAL, jt: 7, jf: 12, k: 0x86dd },
        FilterOp { code: LOAD_BYTE, jt: 0, jf: 0, k: 0xfff0_0009 },
        FilterOp { code: JUMP_EQUAL, jt: 0, jf: 10, k: 17 },
        FilterOp { code: LOAD_HALF, jt: 0, jf: 0, k: 0xfff0_0006 },
        FilterOp { code: JUMP_SET, jt: 8, jf: 0, k: 0x1fff },
        FilterOp { code: LOAD_HEADER_LEN, jt: 0, jf: 0, k: NET_OFFSET },
        FilterOp { code: LOAD_HALF_INDEXED, jt: 0, jf: 0, k: NET_OFFSET },
        FilterOp { code: JUMP_EQUAL, jt: 4, jf: 5, k: 53 },
        FilterOp { code: LOAD_BYTE, jt: 0, jf: 0, k: 0xfff0_0006 },
        FilterOp { code: JUMP_EQUAL, jt: 0, jf: 3, k: 17 },
        FilterOp { code: LOAD_HALF, jt: 0, jf: 0, k: 0xfff0_0028 },
        FilterOp { code: JUMP_EQUAL, jt: 0, jf: 1, k: 53 },
        FilterOp { code: RETURN, jt: 0, jf: 0, k: ACCEPTED },
        FilterOp { code: RETURN, jt: 0, jf: 0, k: 0 },
    ]
}

fn op(code: u16, jt: u8, jf: u8, k: u32) -> (o: FilterOp)
    ensures
        o == (FilterOp { code, jt, jf, k }),
{
    FilterOp { code, jt, jf, k }
}

/// The filter that lets only UDP packets from the DNS port through.
pub fn build_dns_filter() -> (prog: Vec<FilterOp>)
    ensures
        prog@ == dns_filter(),
{
    let prog: Vec<FilterOp> = vec![
        op(LOAD_HALF, 0, 0, PROTOCOL_OFFSET),
        op(JUMP_EQUAL, 1, 0, 0x0800),
        op(JUMP_EQUAL, 7, 12, 0x86dd),
        op(LOAD_BYTE, 0, 0, 0xfff0_0009),
        op(JUMP_EQUAL, 0, 10, 17),
        op(LOAD_HALF, 0, 0, 0xfff0_0006),
        op(JUMP_SET, 8, 0, 0x1fff),
        op(LOAD_HEADER_LEN, 0, 0, NET_OFFSET),
        op(LOAD_HALF_INDEXED, 0, 0, NET_OFFSET),
        op(JUMP_EQUAL, 4, 5, 53),
        op(LOAD_BYTE, 0, 0, 0xfff0_0006),
        op(JUMP_EQUAL, 0, 3, 17),
        op(LOAD_HALF, 0, 0, 0xfff0_0028),
        op(JUMP_EQUAL, 0, 1, 53),
        op(RETURN, 0, 0, ACCEPTED),
        op(RETURN, 0, 0, 0),
    ];
    assert(prog@ =~= dns_filter());
    prog
}

/// The `n` bytes of a packet at a filter's offset, as a number. The packet is its
/// protocol and what starts at its network header.
pub open spec fn filter_load(protocol: u16, net: Seq<u8>, k: nat, n: int) -> Option<nat> {
    let i = k - NET_OFFSET;
    if k == PROTOCOL_OFFSET {
        Some(protocol as nat)
    } else if 0 <= i && i + n <= net.len() {
        Some(be_nat(crate::bytes::at(net, i, n)))
    } else {
        None
    }
}

/// How much of a packet the filter lets through from its `pc`th instruction on,
/// with `a` loaded and a header of length `x`. A load outside the packet lets
/// nothing through.
pub open spec fn filter_run(
    prog: Seq<FilterOp>,
    protocol: u16,
    net: Seq<u8>,
    pc: nat,
    a: u32,
    x: nat,
) -> nat
    decreases
            (if pc < prog.len() {
                prog.len() - pc
            } else {
                0
            }),
{
    if pc >= prog.len() {
        0
    } else {
        let o = prog[pc as int];
        if o.code == RETURN {
            o.k as nat
        } else if o.code == JUMP_EQUAL {
            filter_run(
                prog,
                protocol,
                net,
                pc + 1 + (if a == o.k {
                    o.jt as nat
                } else {
                    o.jf as nat
                }),
                a,
                x,
            )
        } else if o.code == JUMP_SET {
            filter_run(
                prog,
                protocol,
                net,
                pc + 1 + (if a & o.k != 0 {
                    o.jt as nat
                } else {
                    o.jf as nat
                }),
                a,
                x,
            )
        } else {
            let n = if o.code == LOAD_BYTE || o.code == LOAD_HEADER_LEN {
                1int
            } else {
                2int
            };
            let k = if o.code == LOAD_HALF_INDEXED {
                o.k as nat + x
            } else {
                o.k as nat
            };
            match filter_load(protocol, net, k, n) {
                Some(v) => if o.code == LOAD_HEADER_LEN {
                    filter_run(prog, protocol, net, pc + 1, a, v % 16 * 4)
                } else {
                    filter_run(prog, protocol, net, pc + 1, v as u32, x)
                },
                None => 0,
            }
        }
    }
}

/// Whether an IPv4 packet is the first fragment of a UDP packet from the DNS
/// port.
pub open spec fn v4_from_dns(net: Seq<u8>) -> bool {
    let header = net[0] as int % 16 * 4;
    &&& net.len() >= 10
    &&& net[9] == 17
    &&& be_nat(crate::bytes::at(net, 6, 2)) % 0x2000 == 0
    &&& net.len() >= header + 2
    &&& be_nat(crate::bytes::at(net, header, 2)) == DNS_PORT
}

/// Whether an IPv6 packet is a UDP packet from the DNS port.
pub open spec fn v6_from_dns(net: Seq<u8>) -> bool {
    &&& net.len() >= 42
    &&& net[6] == 17
    &&& be_nat(crate::bytes::at(net, 40, 2)) == DNS_PORT
}

/// The filter lets a packet through exactly where it is an IPv4 packet that is the
/// first fragment of a UDP packet from the DNS port, or an IPv6 packet that is a
/// UDP packet from it.
pub proof fn law_filter_passes_dns_alone(protocol: u16, net: Seq<u8>)
    ensures
        filter_run(dns_filter(), protocol, net, 0, 0, 0) == (if (protocol == 0x0800 && v4_from_dns(
            net,
        )) || (protocol == 0x86dd && v6_from_dns(net)) {
            ACCEPTED as nat
        } else {
            0
        }),
{
    reveal_with_fuel(filter_run, 12);
    reveal_with_fuel(crate::bytes::be_nat, 3);
    let p = dns_filter();
    assert forall|i: int| 0 <= i < net.len() implies #[trigger] be_nat(crate::bytes::at(net, i, 1))
        == net[i] by {
        let s = crate::bytes::at(net, i, 1);
        assert(s.drop_last() =~= Seq::empty());
        assert(s.last() == net[i]);
    }
    if net.len() >= 8 {
        let flags = be_nat(crate::bytes::at(net, 6, 2));
        crate::bytes::lemma_be_nat_bound(crate::bytes::at(net, 6, 2));
        crate::bytes::lemma_pow256_values();
        let f = flags as u32;
        assert((f & 0x1fff != 0) == (f % 0x2000 != 0)) by (bit_vector);
    }
}

/// Labels as a message holds them: each behind its length, and a zero at the end.
pub open spec fn wire(labels: Seq<Seq<u8>>) -> Seq<u8>
    decreases labels.len(),
{
    if labels.len() == 0 {
        seq![0u8]
    } else {
        seq![labels[0].len() as u8] + labels[0] + wire(labels.drop_first())
    }
}

/// Whether labels can stand in a message.
pub open spec fn are_labels(labels: Seq<Seq<u8>>) -> bool {
    forall|i: int| 0 <= i < labels.len() ==> 0 < (#[trigger] labels[i]).len() < 0xc0
}

/// Whether bytes stand in a message from a position on.
pub open spec fn stands_at(msg: Seq<u8>, at: nat, s: Seq<u8>) -> bool {
    at + s.len() <= msg.len() && msg.subrange(at as int, (at + s.len()) as int) == s
}

/// The text of labels.
pub open spec fn readable(labels: Seq<Seq<u8>>) -> Seq<Seq<char>> {
    labels.map_values(|l: Seq<u8>| utf8_lossy(l))
}

proof fn lemma_name(
    msg: Seq<u8>,
    off: nat,
    jumped: bool,
    end: nat,
    done: Seq<Seq<char>>,
    left: nat,
    labels: Seq<Seq<u8>>,
)
    requires
        are_labels(labels),
        stands_at(msg, off, wire(labels)),
        left > labels.len(),
        done.len() + labels.len() > 0,
    ensures
        name_from(msg, off, jumped, end, done, left) == (NameView {
            text: Some(dotted(done + readable(labels))),
            end: if jumped {
                end
            } else {
                off + wire(labels).len()
            },
        }),
    decreases labels.len(),
{
    let w = wire(labels);
    assert(msg[off as int] == msg.subrange(off as int, (off + w.len()) as int)[0]);
    if labels.len() == 0 {
        assert(done + readable(labels) =~= done);
    } else {
        let l = labels[0];
        let rest = labels.drop_first();
        let n = l.len();
        let next = off + 1 + n;
        assert(0 < n < 0xc0);
        assert(w =~= seq![n as u8] + l + wire(rest));
        let here = msg.subrange(off as int, (off + w.len()) as int);
        assert(msg.subrange(off as int + 1, next as int) =~= here.subrange(1, 1 + n as int));
        assert(here.subrange(1, 1 + n as int) =~= l);
        assert(msg.subrange(next as int, (next + wire(rest).len()) as int) =~= here.skip(
            1 + n as int,
        ));
        assert(here.skip(1 + n as int) =~= wire(rest));
        assert forall|i: int| 0 <= i < rest.len() implies 0 < (#[trigger] rest[i]).len() < 0xc0 by {
            assert(rest[i] == labels[i + 1]);
        }
        lemma_name(msg, next, jumped, end, done.push(utf8_lossy(l)), (left - 1) as nat, rest);
        assert(done.push(utf8_lossy(l)) + readable(rest) =~= done + readable(labels));
    }
}

/// A name reads back as its labels with dots between them, and the record goes on
/// behind it.
pub proof fn law_names_read_back(msg: Seq<u8>, at: nat, labels: Seq<Seq<u8>>)
    requires
        are_labels(labels),
        0 < labels.len() <= 128,
        stands_at(msg, at, wire(labels)),
    ensures
        name_at(msg, at).text == Some(dotted(readable(labels))),
        name_at(msg, at).end == at + wire(labels).len(),
{
    lemma_name(msg, at, false, at, Seq::empty(), 129, labels);
    assert(Seq::empty() + readable(labels) =~= readable(labels));
}

/// A jump reads as the name that stands where it leads, and the record goes on
/// behind the jump.
pub proof fn law_jumps_are_followed(msg: Seq<u8>, at: nat, to: nat, labels: Seq<Seq<u8>>)
    requires
        are_labels(labels),
        0 < labels.len() <= 127,
        to < 0x4000,
        stands_at(msg, to, wire(labels)),
        stands_at(msg, at, seq![(0xc0 + to / 256) as u8, (to % 256) as u8]),
    ensures
        name_at(msg, at).text == Some(dotted(readable(labels))),
        name_at(msg, at).end == at + 2,
{
    let jump = seq![(0xc0 + to / 256) as u8, (to % 256) as u8];
    let here = msg.subrange(at as int, (at + 2) as int);
    assert(here[0] == msg[at as int] && here[1] == msg[at as int + 1]);
    assert(here == jump);
    lemma_name(msg, to, true, at + 2, Seq::empty(), 128, labels);
    assert(Seq::empty() + readable(labels) =~= readable(labels));
}

/// Labels are written with one dot between each two.
pub proof fn law_labels_are_dotted(labels: Seq<Seq<char>>, l: Seq<char>)
    ensures
        dotted(seq![l]) == l,
        labels.len() > 0 ==> dotted(labels.push(l)) == dotted(labels) + seq!['.'] + l,
{
    assert(labels.push(l).drop_last() =~= labels);
}

/// An answer as a message holds it: a jump to the name at 12, its type, its class
/// and lifetime, and its data behind their length.
pub open spec fn answer(rtype: nat, lifetime: Seq<u8>, data: Seq<u8>) -> Seq<u8> {
    seq![0xc0u8, 12u8] + crate::bytes::be_bytes(rtype, 2) + lifetime + crate::bytes::be_bytes(
        data.len(),
        2,
    ) + data
}

/// The addresses that follow from a position of a response begin with the address of
/// the answer that stands there, where it gives one: four bytes of type 1, or
/// sixteen of type 28. They go on with those of the answers behind it.
pub proof fn law_answers_read_back(
    msg: Seq<u8>,
    at: nat,
    n: nat,
    labels: Seq<Seq<u8>>,
    rtype: nat,
    lifetime: Seq<u8>,
    data: Seq<u8>,
)
    requires
        are_labels(labels),
        0 < labels.len() <= 127,
        stands_at(msg, 12, wire(labels)),
        n > 0,
        rtype < 0x1_0000,
        lifetime.len() == 6,
        data.len() < 0x1_0000,
        stands_at(msg, at, answer(rtype, lifetime, data)),
    ensures
        answers_from(msg, at, n) == (if rtype == 1 && data.len() == 4 {
            seq![IpAddr::v4_of(data)]
        } else if rtype == 28 && data.len() == 16 {
            seq![IpAddr::v6_of(data)]
        } else {
            Seq::empty()
        }) + answers_from(msg, at + 12 + data.len(), (n - 1) as nat),
        answers_from(msg, at, 0) == Seq::<IpAddr>::empty(),
{
    let (t, l) = (crate::bytes::be_bytes(rtype, 2), crate::bytes::be_bytes(data.len(), 2));
    let a = answer(rtype, lifetime, data);
    crate::bytes::lemma_pow256_values();
    crate::bytes::lemma_be_bytes_len(rtype, 2);
    crate::bytes::lemma_be_bytes_len(data.len(), 2);
    crate::bytes::law_be_round_trip(rtype, 2);
    crate::bytes::law_be_round_trip(data.len(), 2);
    let i = at as int;
    let here = msg.subrange(i, i + a.len());
    assert(a.len() == 12 + data.len());
    assert(here == a);
    assert(msg.subrange(i, i + 2) =~= here.subrange(0, 2));
    assert(here.subrange(0, 2) =~= seq![0xc0u8, 12u8]);
    law_jumps_are_followed(msg, at, 12, labels);
    assert(crate::bytes::at(msg, i + 2, 2) =~= here.subrange(2, 4));
    assert(here.subrange(2, 4) =~= t);
    assert(crate::bytes::at(msg, i + 10, 2) =~= here.subrange(10, 12));
    assert(here.subrange(10, 12) =~= l);
    let d = data.len() as int;
    assert(msg.subrange(i + 12, i + 12 + d) =~= here.subrange(12, 12 + d));
    assert(here.subrange(12, 12 + d) =~= data);
    let rest = answers_from(msg, at + 12 + data.len(), (n - 1) as nat);
    assert(Seq::<IpAddr>::empty() + rest =~= rest);
}

/// A response with one question tells of the name that it asks for, and of the
/// answers that stand behind the question, as many as it says.
pub proof fn law_responses_read_back(
    head: Seq<u8>,
    answers: nat,
    counts: Seq<u8>,
    labels: Seq<Seq<u8>>,
    kind: Seq<u8>,
    rest: Seq<u8>,
)
    requires
        head.len() == 4,
        answers < 0x1_0000,
        counts.len() == 4,
        are_labels(labels),
        0 < labels.len() <= 128,
        kind.len() == 4,
    ensures
        ({
            let msg = head + crate::bytes::be_bytes(1, 2) + crate::bytes::be_bytes(answers, 2)
                + counts + wire(labels) + kind + rest;
            response_of(msg) == Some(
                (
                    dotted(readable(labels)),
                    answers_from(msg, 16 + wire(labels).len(), answers),
                ),
            )
        }),
{
    let (q, n) = (crate::bytes::be_bytes(1, 2), crate::bytes::be_bytes(answers, 2));
    let msg = head + q + n + counts + wire(labels) + kind + rest;
    crate::bytes::lemma_pow256_values();
    crate::bytes::lemma_be_bytes_len(1, 2);
    crate::bytes::lemma_be_bytes_len(answers, 2);
    crate::bytes::law_be_round_trip(1, 2);
    crate::bytes::law_be_round_trip(answers, 2);
    assert(crate::bytes::at(msg, 4, 2) =~= q);
    assert(crate::bytes::at(msg, 6, 2) =~= n);
    assert(msg.subrange(12, 12 + wire(labels).len() as int) =~= wire(labels));
    law_names_read_back(msg, 12, labels);
}

/// Every address of a response is known by the response's name afterwards, and the
/// names of other addresses stay.
pub proof fn law_every_address_gets_the_name(
    names: Seq<(IpAddr, Seq<char>)>,
    host: Seq<char>,
    addrs: Seq<IpAddr>,
    a: IpAddr,
)
    requires
        crate::assoc::distinct(names),
        names.len() + addrs.len() <= crate::dns::MAX_NAMES,
        host.len() > 0,
    ensures
        crate::assoc::distinct(all_learned(names, host, addrs)),
        all_learned(names, host, addrs).len() <= names.len() + addrs.len(),
        crate::assoc::lookup(all_learned(names, host, addrs), a) == (if exists|i: int|
            0 <= i < addrs.len() && (#[trigger] addrs[i]).unmapped() == a {
            Some(host)
        } else {
            crate::assoc::lookup(names, a)
        }),
    decreases addrs.len(),
{
    if addrs.len() > 0 {
        let front = addrs.drop_last();
        let before = all_learned(names, host, front);
        let last = addrs.last();
        law_every_address_gets_the_name(names, host, front, a);
        crate::dns::law_learned_names_are_found(before, host, last, a);
        crate::assoc::law_put(before, last.unmapped(), host, a);
        if exists|i: int| 0 <= i < front.len() && (#[trigger] front[i]).unmapped() == a {
            let i = choose|i: int| 0 <= i < front.len() && (#[trigger] front[i]).unmapped() == a;
            assert(addrs[i] == front[i]);
        }
        if exists|i: int| 0 <= i < addrs.len() && (#[trigger] addrs[i]).unmapped() == a {
            let i = choose|i: int| 0 <= i < addrs.len() && (#[trigger] addrs[i]).unmapped() == a;
            if i < front.len() {
                assert(front[i] == addrs[i]);
            }
        } else {
            assert(addrs[addrs.len() - 1].unmapped() != a);
        }
    }
}

/// A UDP packet from port 53 carries the message behind its headers, over IPv4 and
/// over IPv6; one from another port carries none.
pub proof fn law_messages_stand_behind_the_headers(
    header: Seq<u8>,
    words: nat,
    port: u16,
    udp: Seq<u8>,
    msg: Seq<u8>,
)
    requires
        udp.len() == 6,
        ({
            ||| words <= 15 && header.len() == 4 * words && words >= 5 && header[0] == 0x40 + words
                && header[9] == 17
            ||| header.len() == 40 && header[0] / 16 == 6 && header[6] == 17
        }),
    ensures
        message_of(header + crate::bytes::be_bytes(port as nat, 2) + udp + msg) == (if port == 53 {
            Some(msg)
        } else {
            None
        }),
{
    let p = crate::bytes::be_bytes(port as nat, 2);
    let pkt = header + p + udp + msg;
    let n = header.len() as int;
    crate::bytes::lemma_pow256_values();
    crate::bytes::lemma_be_bytes_len(port as nat, 2);
    crate::bytes::law_be_round_trip(port as nat, 2);
    assert(crate::bytes::at(pkt, n, 2) =~= p);
    assert(pkt.skip(n + 8) =~= msg);
    assert(pkt[0] == header[0]);
}

} // verus!
