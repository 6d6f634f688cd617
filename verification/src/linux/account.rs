//! Byte accounting: counters of sockets and flows become bytes charged to
//! processes.

use crate::assoc::{distinct, has_key, lookup, put, Assoc, Key};
use crate::ip::IpAddr;
use crate::adapter_map::{settled, AdapterMap};
use crate::linux::ct::Flow;
use crate::linux::sockets::SockInfo;
use crate::model::{AdapterKind, Direction, Endpoint, Protocol};
use vstd::prelude::*;

verus! {

/// How often in a row a socket may be missing before it is forgotten, so that the
/// report of its closing still finds it.
pub const MAX_MISSED: u8 = 2;

/// How long a closed socket waits for its owner.
pub const CLOSED_WAIT_MS: u64 = 5_000;

/// How long the owner of a flow is remembered.
pub const OWNER_KEEP_MS: u64 = 30_000;

/// More recent flows than this are cut.
pub const MAX_RECENT: usize = 256;

/// How many recent flows go when there are too many.
pub const RECENT_CUT: usize = 128;

/// A socket's or a flow's counters when they were last seen.
#[derive(Debug, Clone, Copy, PartialEq, Eq, Structural)]
pub struct Baseline {
    pub sent: u64,
    pub recv: u64,
    /// How often in a row it has been missing.
    pub missed: u8,
}

/// Who a socket's bytes are charged to.
#[derive(Debug, PartialEq, Eq)]
pub struct TcpOwner {
    pub pid: u32,
    pub path: String,
    pub kind: AdapterKind,
}

impl Clone for TcpOwner {
    fn clone(&self) -> (r: TcpOwner)
        ensures
            r == *self,
    {
        TcpOwner { pid: self.pid, path: self.path.clone(), kind: self.kind }
    }
}

/// The two ends of a connection.
#[derive(Debug, Clone, Copy, PartialEq, Eq)]
pub struct FlowKey {
    pub local: (IpAddr, u16),
    pub remote: (IpAddr, u16),
}

impl Key for FlowKey {
    type Id = FlowKey;

    open spec fn id(&self) -> FlowKey {
        *self
    }

    fn same(&self, other: &Self) -> (r: bool) {
        self.local.0 == other.local.0 && self.local.1 == other.local.1 && self.remote.0
            == other.remote.0 && self.remote.1 == other.remote.1
    }
}

/// The tuple of a UDP flow.
#[derive(Debug, Clone, Copy, PartialEq, Eq, Structural)]
pub struct UdpKey {
    pub src: IpAddr,
    pub dst: IpAddr,
    pub sport: u16,
    pub dport: u16,
}

impl Key for UdpKey {
    type Id = UdpKey;

    open spec fn id(&self) -> UdpKey {
        *self
    }

    fn same(&self, other: &Self) -> (r: bool) {
        *self == *other
    }
}

/// The process that opened a connection.
#[derive(Debug, PartialEq, Eq)]
pub struct FlowOwner {
    pub key: FlowKey,
    pub pid: u32,
    pub path: String,
}

/// Bytes that a process moved in datagrams.
#[derive(Debug, PartialEq, Eq)]
pub struct DatagramBytes {
    pub pid: u32,
    pub path: String,
    pub sent: u64,
    pub recv: u64,
}

/// What the kernel reported between two polls.
#[derive(Debug, PartialEq, Eq)]
pub enum NetworkEvent {
    Owner(FlowOwner),
    Closed(SockInfo),
    Datagram(DatagramBytes),
}

/// Bytes to charge to a process.
#[derive(Debug, PartialEq, Eq)]
pub struct Charge {
    pub pid: u32,
    pub path: String,
    pub kind: AdapterKind,
    pub sent: u64,
    pub recv: u64,
}

/// A connection that opened and closed between two polls.
#[derive(Debug, PartialEq, Eq)]
pub struct RecentFlow {
    pub path: String,
    pub remote: Endpoint,
    pub direction: Direction,
}

/// The difference of two counters; none where the counter fell.
pub open spec fn grown(now: u64, then: u64) -> u64 {
    if now > then {
        (now - then) as u64
    } else {
        0
    }
}

/// The bytes since the counters were last seen. Counters that were not seen
/// before count from zero, or not at all where `count_new` does not hold.
pub open spec fn delta(sent: u64, recv: u64, base: Option<Baseline>, count_new: bool) -> (u64, u64) {
    match base {
        Some(b) => (grown(sent, b.sent), grown(recv, b.recv)),
        None => if count_new {
            (sent, recv)
        } else {
            (0, 0)
        },
    }
}

/// The bytes since the counters were last seen.
pub fn byte_delta(sent: u64, recv: u64, base: Option<&Baseline>, count_new: bool) -> (d: (u64, u64))
    ensures
        d == delta(
            sent,
            recv,
            match base {
                Some(b) => Some(*b),
                None => None,
            },
            count_new,
        ),
{
    match base {
        Some(b) => (sent.saturating_sub(b.sent), recv.saturating_sub(b.recv)),
        None => if count_new {
            (sent, recv)
        } else {
            (0, 0)
        },
    }
}

/// The ends of a socket.
pub open spec fn ends(s: SockInfo) -> FlowKey {
    FlowKey { local: s.local, remote: s.remote }
}

/// Who owned a socket that closed: the owner noted for it where it was polled, or
/// else whoever opened the connection.
pub open spec fn owner_of_closed(
    s: SockInfo,
    seen: Seq<(u64, Baseline)>,
    owners: Seq<(u64, TcpOwner)>,
    flows: Seq<(FlowKey, (TcpOwner, u64))>,
) -> Option<TcpOwner> {
    if has_key(seen, s.cookie) {
        lookup(owners, s.cookie)
    } else {
        match lookup(flows, ends(s)) {
            Some(f) => Some(f.0),
            None => None,
        }
    }
}

/// Who owned a socket that closed.
pub fn closed_owner(
    s: &SockInfo,
    seen: &Assoc<u64, Baseline>,
    owners: &Assoc<u64, TcpOwner>,
    flows: &Assoc<FlowKey, (TcpOwner, u64)>,
) -> (r: Option<TcpOwner>)
    ensures
        r == owner_of_closed(*s, seen@, owners@, flows@),
{
    if seen.contains(&s.cookie) {
        return match owners.get(&s.cookie) {
            Some(o) => Some(o.clone()),
            None => None,
        };
    }
    match flows.get(&FlowKey { local: s.local, remote: s.remote }) {
        Some(f) => Some(f.0.clone()),
        None => None,
    }
}

/// What came of a socket that closed.
#[derive(Debug, PartialEq, Eq)]
pub enum ClosedTcp {
    /// Its owner is not known yet.
    Waiting,
    /// It is accounted for, with the bytes that it still moved.
    Done(Option<Charge>),
}

/// What comes of a socket that closed: its bytes since it was last polled, or all
/// of them where it never was, go to its owner. A socket without counters is done.
pub open spec fn closing_of(
    s: SockInfo,
    seen: Seq<(u64, Baseline)>,
    owners: Seq<(u64, TcpOwner)>,
    flows: Seq<(FlowKey, (TcpOwner, u64))>,
) -> ClosedTcp {
    match s.bytes {
        None => ClosedTcp::Done(None),
        Some((sent, recv)) => {
            let d = delta(sent, recv, lookup(seen, s.cookie), true);
            match owner_of_closed(s, seen, owners, flows) {
                None => ClosedTcp::Waiting,
                Some(o) => if d.0 == 0 && d.1 == 0 {
                    ClosedTcp::Done(None)
                } else {
                    ClosedTcp::Done(
                        Some(
                            Charge {
                                pid: o.pid,
                                path: o.path,
                                kind: o.kind,
                                sent: d.0,
                                recv: d.1,
                            },
                        ),
                    )
                },
            }
        },
    }
}

/// Accounts for a socket that closed.
pub fn account_closed_tcp(
    s: &SockInfo,
    seen: &Assoc<u64, Baseline>,
    owners: &Assoc<u64, TcpOwner>,
    flows: &Assoc<FlowKey, (TcpOwner, u64)>,
) -> (r: ClosedTcp)
    ensures
        r == closing_of(*s, seen@, owners@, flows@),
{
    let (sent, recv) = match s.bytes {
        Some(b) => b,
        None => {
            return ClosedTcp::Done(None);
        },
    };
    let owner = match closed_owner(s, seen, owners, flows) {
        Some(o) => o,
        None => {
            return ClosedTcp::Waiting;
        },
    };
    let (sent, recv) = byte_delta(sent, recv, seen.get(&s.cookie), true);
    if sent == 0 && recv == 0 {
        return ClosedTcp::Done(None);
    }
    ClosedTcp::Done(
        Some(Charge { pid: owner.pid, path: owner.path, kind: owner.kind, sent, recv }),
    )
}

/// Recent flows after one more. When there are too many, the oldest go.
pub open spec fn recent_after(flows: Seq<RecentFlow>, path: String, remote: (IpAddr, u16)) -> Seq<
    RecentFlow,
> {
    let all = flows.push(
        RecentFlow {
            path,
            remote: Endpoint { addr: remote.0, port: remote.1, protocol: Protocol::Tcp },
            direction: Direction::Outbound,
        },
    );
    if all.len() > MAX_RECENT {
        all.skip(RECENT_CUT as int)
    } else {
        all
    }
}

/// Notes a connection that opened and closed between two polls.
pub fn record_recent_flow(flows: &mut Vec<RecentFlow>, path: String, remote: (IpAddr, u16))
    ensures
        final(flows)@ == recent_after(old(flows)@, path, remote),
{
    flows.push(
        RecentFlow {
            path,
            remote: Endpoint { addr: remote.0, port: remote.1, protocol: Protocol::Tcp },
            direction: Direction::Outbound,
        },
    );
    if flows.len() > MAX_RECENT {
        let mut kept = flows.split_off(RECENT_CUT);
        assert(kept@ =~= recent_after(old(flows)@, path, remote));
        std::mem::swap(flows, &mut kept);
    }
}

/// What one poll finds: the sockets, who holds them, the images of processes, and
/// the adapters.
pub ghost struct Poll {
    pub socks: Seq<SockInfo>,
    pub owners: Seq<(u64, u32)>,
    pub images: Seq<(u32, String)>,
    pub adapters: Seq<(IpAddr, AdapterKind)>,
}

/// The process that holds a socket and its image.
pub open spec fn holder(p: Poll, inode: u32) -> Option<(u32, String)> {
    match lookup(p.owners, inode as u64) {
        Some(pid) => match lookup(p.images, pid) {
            Some(path) => Some((pid, path)),
            None => None,
        },
        None => None,
    }
}

/// Baselines of sockets that are missing once more.
pub open spec fn aged(seen: Seq<(u64, Baseline)>) -> Seq<(u64, Baseline)>
    decreases seen.len(),
{
    if seen.len() == 0 {
        Seq::empty()
    } else {
        let (cookie, b) = seen.last();
        if b.missed < MAX_MISSED {
            aged(seen.drop_last()).push((cookie, Baseline { missed: (b.missed + 1) as u8, ..b }))
        } else {
            aged(seen.drop_last())
        }
    }
}

/// Whether a socket's counters are polled.
pub open spec fn polled(s: SockInfo) -> bool {
    s.bytes is Some && s.protocol == Protocol::Tcp
}

/// The baselines after a poll: every polled socket's counters, and what is left
/// of the missing ones.
pub open spec fn tcp_baselines(socks: Seq<SockInfo>, seen: Seq<(u64, Baseline)>) -> Seq<
    (u64, Baseline),
>
    decreases socks.len(),
{
    if socks.len() == 0 {
        aged(seen)
    } else {
        let before = tcp_baselines(socks.drop_last(), seen);
        let s = socks.last();
        if polled(s) {
            put(before, s.cookie, Baseline { sent: (s.bytes->0).0, recv: (s.bytes->0).1, missed: 0 })
        } else {
            before
        }
    }
}

/// What the first `n` sockets of a poll are charged.
pub open spec fn tcp_charges(p: Poll, seen: Seq<(u64, Baseline)>, count_new: bool, n: int) -> Seq<
    Charge,
>
    decreases n,
{
    if n <= 0 {
        Seq::empty()
    } else {
        let before = tcp_charges(p, seen, count_new, n - 1);
        let s = p.socks[n - 1];
        let d = delta((s.bytes->0).0, (s.bytes->0).1, lookup(seen, s.cookie), count_new);
        if polled(s) && !(d.0 == 0 && d.1 == 0) && holder(p, s.inode) is Some {
            let (pid, path) = holder(p, s.inode)->0;
            before.push(
                Charge {
                    pid,
                    path,
                    kind: settled(p.adapters, s.local.0, s.remote.0),
                    sent: d.0,
                    recv: d.1,
                },
            )
        } else {
            before
        }
    }
}

/// The pieces of a poll.
pub struct PollData<'a> {
    pub socks: &'a Vec<SockInfo>,
    pub owners: &'a Assoc<u64, u32>,
    pub images: &'a Assoc<u32, String>,
    pub adapters: &'a AdapterMap,
}

impl<'a> PollData<'a> {
    /// The poll as contracts see it. When the adapters were listed does not matter
    /// to what is charged.
    pub open spec fn poll(&self) -> Poll {
        Poll {
            socks: self.socks@,
            owners: self.owners@,
            images: self.images@,
            adapters: self.adapters.table(),
        }
    }

    fn holder(&self, inode: u32) -> (r: Option<(u32, String)>)
        ensures
            r == holder(self.poll(), inode),
    {
        match self.owners.get(&(inode as u64)) {
            Some(pid) => match self.images.get(pid) {
                Some(path) => Some((*pid, path.clone())),
                None => None,
            },
            None => None,
        }
    }
}

fn age(seen: &Assoc<u64, Baseline>) -> (live: Assoc<u64, Baseline>)
    ensures
        live@ == aged(seen@),
{
    let mut live: Assoc<u64, Baseline> = Assoc::new();
    let mut i: usize = 0;
    assert(seen@.take(0) =~= Seq::empty());
    while i < seen.len()
        invariant
            i <= seen@.len(),
            live@ == aged(seen@.take(i as int)),
        decreases seen@.len() - i,
    {
        assert(seen@.take(i + 1).drop_last() =~= seen@.take(i as int));
        let cookie: u64 = *seen.key_at(i);
        let b: Baseline = *seen.value_at(i);
        if b.missed < MAX_MISSED {
            live.push(cookie, Baseline { sent: b.sent, recv: b.recv, missed: b.missed + 1 });
        }
        i += 1;
    }
    assert(seen@.take(i as int) =~= seen@);
    live
}

/// Charges what the polled sockets moved since the last poll, and notes their
/// counters.
pub fn account_tcp(
    poll: &PollData,
    seen: &mut Assoc<u64, Baseline>,
    count_new: bool,
    charges: &mut Vec<Charge>,
)
    ensures
        final(seen)@ == tcp_baselines(poll.poll().socks, old(seen)@),
        final(charges)@ == old(charges)@ + tcp_charges(
            poll.poll(),
            old(seen)@,
            count_new,
            poll.poll().socks.len() as int,
        ),
{
    let ghost p = poll.poll();
    let ghost was = seen@;
    let mut live = age(seen);
    let mut i: usize = 0;
    assert(p.socks.take(0) =~= Seq::empty());
    assert(charges@ =~= old(charges)@ + Seq::<Charge>::empty());
    while i < poll.socks.len()
        invariant
            i <= p.socks.len(),
            p == poll.poll(),
            seen@ == was,
            live@ == tcp_baselines(p.socks.take(i as int), was),
            charges@ == old(charges)@ + tcp_charges(p, was, count_new, i as int),
        decreases p.socks.len() - i,
    {
        let s: SockInfo = poll.socks[i];
        assert(p.socks.take(i + 1).drop_last() =~= p.socks.take(i as int));
        assert(p.socks.take(i + 1).last() == s);
        i += 1;
        let (sent, recv) = match s.bytes {
            Some(b) => b,
            None => {
                continue;
            },
        };
        if !s.is_tcp() {
            continue;
        }
        let (d_sent, d_recv) = byte_delta(sent, recv, seen.get(&s.cookie), count_new);
        live.put(s.cookie, Baseline { sent, recv, missed: 0 });
        if d_sent == 0 && d_recv == 0 {
            continue;
        }
        let (pid, path) = match poll.holder(s.inode) {
            Some(h) => h,
            None => {
                continue;
            },
        };
        let kind = poll.adapters.settled_kind(s.local.0, s.remote.0);
        let ghost before = tcp_charges(p, was, count_new, i - 1);
        let c = Charge { pid, path, kind, sent: d_sent, recv: d_recv };
        charges.push(c);
        assert(charges@ =~= old(charges)@ + before.push(c));
    }
    assert(p.socks.take(i as int) =~= p.socks);
    *seen = live;
}

/// The owners of the TCP sockets of a poll, over those known before.
pub open spec fn tcp_owners_after(p: Poll, known: Seq<(u64, TcpOwner)>, n: int) -> Seq<
    (u64, TcpOwner),
>
    decreases n,
{
    if n <= 0 {
        known
    } else {
        let before = tcp_owners_after(p, known, n - 1);
        let s = p.socks[n - 1];
        if s.protocol == Protocol::Tcp && holder(p, s.inode) is Some {
            let (pid, path) = holder(p, s.inode)->0;
            put(
                before,
                s.cookie,
                TcpOwner { pid, path, kind: settled(p.adapters, s.local.0, s.remote.0) },
            )
        } else {
            before
        }
    }
}

/// Notes the owners of the TCP sockets of a poll.
pub fn tcp_owner_map(poll: &PollData, known: &mut Assoc<u64, TcpOwner>)
    ensures
        final(known)@ == tcp_owners_after(
            poll.poll(),
            old(known)@,
            poll.poll().socks.len() as int,
        ),
{
    let ghost p = poll.poll();
    let mut i: usize = 0;
    while i < poll.socks.len()
        invariant
            i <= p.socks.len(),
            p == poll.poll(),
            known@ == tcp_owners_after(p, old(known)@, i as int),
        decreases p.socks.len() - i,
    {
        let s: SockInfo = poll.socks[i];
        assert(s == p.socks[i as int]);
        i += 1;
        if !s.is_tcp() {
            continue;
        }
        if let Some((pid, path)) = poll.holder(s.inode) {
            let kind = poll.adapters.settled_kind(s.local.0, s.remote.0);
            known.put(s.cookie, TcpOwner { pid, path, kind });
        }
    }
}

/// The processes that hold UDP sockets, by local port. The first one found with a
/// port has it.
pub open spec fn udp_holders(p: Poll, n: int) -> Seq<(u32, u32)>
    decreases n,
{
    if n <= 0 {
        Seq::empty()
    } else {
        let before = udp_holders(p, n - 1);
        let s = p.socks[n - 1];
        if s.protocol != Protocol::Tcp && lookup(p.owners, s.inode as u64) is Some && !has_key(
            before,
            s.local.1 as u32,
        ) {
            put(before, s.local.1 as u32, lookup(p.owners, s.inode as u64)->0)
        } else {
            before
        }
    }
}

/// The tuple of a flow.
pub open spec fn tuple_of(f: Flow) -> UdpKey {
    UdpKey { src: f.orig_src, dst: f.orig_dst, sport: f.sport, dport: f.dport }
}

/// The counters of the UDP flows.
pub open spec fn udp_baselines(flows: Seq<Flow>) -> Seq<(UdpKey, Baseline)>
    decreases flows.len(),
{
    if flows.len() == 0 {
        Seq::empty()
    } else {
        let before = udp_baselines(flows.drop_last());
        let f = flows.last();
        if f.protocol == Protocol::Udp {
            put(
                before,
                tuple_of(f),
                Baseline { sent: f.orig_bytes, recv: f.reply_bytes, missed: 0 },
            )
        } else {
            before
        }
    }
}

/// What the first `n` flows are charged: to the process that holds the port that
/// the flow came from.
pub open spec fn udp_charges(
    p: Poll,
    flows: Seq<Flow>,
    seen: Seq<(UdpKey, Baseline)>,
    count_new: bool,
    n: int,
) -> Seq<Charge>
    decreases n,
{
    if n <= 0 {
        Seq::empty()
    } else {
        let before = udp_charges(p, flows, seen, count_new, n - 1);
        let f = flows[n - 1];
        let d = delta(f.orig_bytes, f.reply_bytes, lookup(seen, tuple_of(f)), count_new);
        let pid = lookup(udp_holders(p, p.socks.len() as int), f.sport as u32);
        if f.protocol == Protocol::Udp && !(d.0 == 0 && d.1 == 0) && pid is Some && lookup(
            p.images,
            pid->0,
        ) is Some {
            before.push(
                Charge {
                    pid: pid->0,
                    path: lookup(p.images, pid->0)->0,
                    kind: settled(p.adapters, f.orig_src, f.orig_dst),
                    sent: d.0,
                    recv: d.1,
                },
            )
        } else {
            before
        }
    }
}

fn udp_ports(poll: &PollData) -> (r: Assoc<u32, u32>)
    ensures
        r@ == udp_holders(poll.poll(), poll.poll().socks.len() as int),
{
    let ghost p = poll.poll();
    let mut r: Assoc<u32, u32> = Assoc::new();
    let mut i: usize = 0;
    while i < poll.socks.len()
        invariant
            i <= p.socks.len(),
            p == poll.poll(),
            r@ == udp_holders(p, i as int),
        decreases p.socks.len() - i,
    {
        let s: SockInfo = poll.socks[i];
        assert(s == p.socks[i as int]);
        i += 1;
        if s.is_tcp() {
            continue;
        }
        if let Some(pid) = poll.owners.get(&(s.inode as u64)) {
            let port: u32 = s.local.1 as u32;
            if !r.contains(&port) {
                r.put(port, *pid);
            }
        }
    }
    r
}

/// Charges what the UDP flows moved since they were last listed, and notes their
/// counters.
pub fn account_udp(
    poll: &PollData,
    flows: &Vec<Flow>,
    seen: &mut Assoc<UdpKey, Baseline>,
    count_new: bool,
    charges: &mut Vec<Charge>,
)
    ensures
        final(seen)@ == udp_baselines(flows@),
        final(charges)@ == old(charges)@ + udp_charges(
            poll.poll(),
            flows@,
            old(seen)@,
            count_new,
            flows@.len() as int,
        ),
{
    let ghost p = poll.poll();
    let ghost was = seen@;
    let ports = udp_ports(poll);
    let mut live: Assoc<UdpKey, Baseline> = Assoc::new();
    let mut i: usize = 0;
    assert(flows@.take(0) =~= Seq::empty());
    assert(charges@ =~= old(charges)@ + Seq::<Charge>::empty());
    while i < flows.len()
        invariant
            i <= flows@.len(),
            p == poll.poll(),
            seen@ == was,
            ports@ == udp_holders(p, p.socks.len() as int),
            live@ == udp_baselines(flows@.take(i as int)),
            charges@ == old(charges)@ + udp_charges(p, flows@, was, count_new, i as int),
        decreases flows@.len() - i,
    {
        let f: Flow = flows[i];
        assert(flows@.take(i + 1).drop_last() =~= flows@.take(i as int));
        assert(flows@.take(i + 1).last() == f);
        i += 1;
        if !matches!(f.protocol, Protocol::Udp) {
            continue;
        }
        let key = UdpKey { src: f.orig_src, dst: f.orig_dst, sport: f.sport, dport: f.dport };
        let (d_orig, d_reply) = byte_delta(f.orig_bytes, f.reply_bytes, seen.get(&key), count_new);
        live.put(key, Baseline { sent: f.orig_bytes, recv: f.reply_bytes, missed: 0 });
        if d_orig == 0 && d_reply == 0 {
            continue;
        }
        let pid: u32 = match ports.get(&(f.sport as u32)) {
            Some(pid) => *pid,
            None => {
                continue;
            },
        };
        let path = match poll.images.get(&pid) {
            Some(path) => path.clone(),
            None => {
                continue;
            },
        };
        let kind = poll.adapters.settled_kind(f.orig_src, f.orig_dst);
        let ghost before = udp_charges(p, flows@, was, count_new, i - 1);
        let c = Charge { pid, path, kind, sent: d_orig, recv: d_reply };
        charges.push(c);
        assert(charges@ =~= old(charges)@ + before.push(c));
    }
    assert(flows@.take(i as int) =~= flows@);
    *seen = live;
}

proof fn lemma_aged(seen: Seq<(u64, Baseline)>, k: u64)
    requires
        distinct(seen),
    ensures
        distinct(aged(seen)),
        lookup(aged(seen), k) == (match lookup(seen, k) {
            Some(b) if b.missed < MAX_MISSED => Some(
                Baseline { missed: (b.missed + 1) as u8, ..b },
            ),
            _ => None,
        }),
    decreases seen.len(),
{
    if seen.len() > 0 {
        let (cookie, b) = seen.last();
        crate::assoc::lemma_last(seen, k);
        lemma_aged(seen.drop_last(), k);
        lemma_aged(seen.drop_last(), cookie);
        if b.missed < MAX_MISSED {
            crate::assoc::lemma_push_entry(
                aged(seen.drop_last()),
                cookie,
                Baseline { missed: (b.missed + 1) as u8, ..b },
                k,
            );
        }
    }
}

pub proof fn lemma_tcp_baselines_distinct(socks: Seq<SockInfo>, seen: Seq<(u64, Baseline)>)
    requires
        distinct(seen),
    ensures
        distinct(tcp_baselines(socks, seen)),
    decreases socks.len(),
{
    if socks.len() == 0 {
        lemma_aged(seen, 0);
    } else {
        lemma_tcp_baselines_distinct(socks.drop_last(), seen);
        let s = socks.last();
        crate::assoc::law_put(
            tcp_baselines(socks.drop_last(), seen),
            s.cookie,
            Baseline { sent: (s.bytes->0).0, recv: (s.bytes->0).1, missed: 0 },
            s.cookie,
        );
    }
}

/// A socket that a poll misses is remembered through two polls in a row, with the
/// counters that it had, and forgotten at the third.
pub proof fn law_missing_sockets_are_remembered_twice(
    socks: Seq<SockInfo>,
    seen: Seq<(u64, Baseline)>,
    cookie: u64,
)
    requires
        distinct(seen),
        forall|i: int| 0 <= i < socks.len() ==> (#[trigger] socks[i]).cookie != cookie,
    ensures
        lookup(tcp_baselines(socks, seen), cookie) == (match lookup(seen, cookie) {
            Some(b) if b.missed < MAX_MISSED => Some(
                Baseline { missed: (b.missed + 1) as u8, ..b },
            ),
            _ => None,
        }),
    decreases socks.len(),
{
    if socks.len() == 0 {
        lemma_aged(seen, cookie);
    } else {
        let front = socks.drop_last();
        assert forall|i: int| 0 <= i < front.len() implies (#[trigger] front[i]).cookie != cookie by {
            assert(front[i] == socks[i]);
        }
        law_missing_sockets_are_remembered_twice(front, seen, cookie);
        lemma_tcp_baselines_distinct(front, seen);
        let s = socks.last();
        assert(s == socks[socks.len() - 1]);
        crate::assoc::law_put(
            tcp_baselines(front, seen),
            s.cookie,
            Baseline { sent: (s.bytes->0).0, recv: (s.bytes->0).1, missed: 0 },
            cookie,
        );
    }
}

/// A poll notes the counters of a socket whose cookie no other socket has.
pub proof fn lemma_polled_counters_are_noted(
    socks: Seq<SockInfo>,
    seen: Seq<(u64, Baseline)>,
    i: int,
)
    requires
        distinct(seen),
        0 <= i < socks.len(),
        polled(socks[i]),
        forall|j: int| 0 <= j < socks.len() && j != i ==> (#[trigger] socks[j]).cookie
            != socks[i].cookie,
    ensures
        lookup(tcp_baselines(socks, seen), socks[i].cookie) == Some(
            Baseline { sent: (socks[i].bytes->0).0, recv: (socks[i].bytes->0).1, missed: 0 },
        ),
    decreases socks.len(),
{
    let front = socks.drop_last();
    let s = socks.last();
    lemma_tcp_baselines_distinct(front, seen);
    crate::assoc::law_put(
        tcp_baselines(front, seen),
        s.cookie,
        Baseline { sent: (s.bytes->0).0, recv: (s.bytes->0).1, missed: 0 },
        socks[i].cookie,
    );
    if i < socks.len() - 1 {
        assert(front[i] == socks[i]);
        assert forall|j: int| 0 <= j < front.len() && j != i implies (#[trigger] front[j]).cookie
            != front[i].cookie by {
            assert(front[j] == socks[j]);
        }
        lemma_polled_counters_are_noted(front, seen, i);
        assert(socks[socks.len() - 1].cookie != socks[i].cookie);
    }
}

/// No byte is charged twice and none is lost: what a poll charges for a socket
/// and what its closing charges afterwards add up to what its counters grew by
/// since they were seen before the poll.
pub proof fn law_bytes_are_charged_once(
    socks: Seq<SockInfo>,
    seen: Seq<(u64, Baseline)>,
    i: int,
    sent: u64,
    recv: u64,
)
    requires
        distinct(seen),
        0 <= i < socks.len(),
        polled(socks[i]),
        forall|j: int| 0 <= j < socks.len() && j != i ==> (#[trigger] socks[j]).cookie
            != socks[i].cookie,
        lookup(seen, socks[i].cookie) matches Some(b) ==> b.sent <= (socks[i].bytes->0).0 && b.recv
            <= (socks[i].bytes->0).1,
        (socks[i].bytes->0).0 <= sent,
        (socks[i].bytes->0).1 <= recv,
    ensures
        ({
            let s = socks[i];
            let before = lookup(seen, s.cookie);
            let noted = lookup(tcp_baselines(socks, seen), s.cookie);
            let at_poll = delta((s.bytes->0).0, (s.bytes->0).1, before, true);
            let at_close = delta(sent, recv, noted, true);
            let whole = delta(sent, recv, before, true);
            &&& at_poll.0 + at_close.0 == whole.0 && at_poll.1 + at_close.1 == whole.1
            &&& before is None ==> at_poll.0 + at_close.0 == sent && at_poll.1 + at_close.1 == recv
            &&& before matches Some(b) ==> at_poll.0 + at_close.0 == sent - b.sent && at_poll.1
                + at_close.1 == recv - b.recv
        }),
{
    lemma_polled_counters_are_noted(socks, seen, i);
}

/// What is charged to a process as sent.
pub open spec fn sent_by(charges: Seq<Charge>, pid: u32) -> int
    decreases charges.len(),
{
    if charges.len() == 0 {
        0
    } else {
        sent_by(charges.drop_last(), pid) + if charges.last().pid == pid {
            charges.last().sent as int
        } else {
            0
        }
    }
}

/// What is charged to a process as received.
pub open spec fn recv_by(charges: Seq<Charge>, pid: u32) -> int
    decreases charges.len(),
{
    if charges.len() == 0 {
        0
    } else {
        recv_by(charges.drop_last(), pid) + if charges.last().pid == pid {
            charges.last().recv as int
        } else {
            0
        }
    }
}

pub proof fn lemma_sum_push(charges: Seq<Charge>, c: Charge, pid: u32)
    ensures
        sent_by(charges.push(c), pid) == sent_by(charges, pid) + (if c.pid == pid {
            c.sent as int
        } else {
            0
        }),
        recv_by(charges.push(c), pid) == recv_by(charges, pid) + (if c.pid == pid {
            c.recv as int
        } else {
            0
        }),
{
    assert(charges.push(c).drop_last() =~= charges);
}

pub proof fn lemma_sum_join(a: Seq<Charge>, b: Seq<Charge>, pid: u32)
    ensures
        sent_by(a + b, pid) == sent_by(a, pid) + sent_by(b, pid),
        recv_by(a + b, pid) == recv_by(a, pid) + recv_by(b, pid),
    decreases b.len(),
{
    if b.len() == 0 {
        assert(a + b =~= a);
    } else {
        lemma_sum_join(a, b.drop_last(), pid);
        assert((a + b).drop_last() =~= a + b.drop_last());
    }
}

/// How far a counter has come since it was known: all of it where it was not known
/// and new ones count, and nothing where it fell.
pub open spec fn advance(now: int, known: Option<int>, count_new: bool) -> int {
    match known {
        Some(then) if now >= then => now - then,
        Some(_) => 0,
        None => if count_new {
            now
        } else {
            0
        },
    }
}

/// How far the counters of sent bytes came of the first `n` TCP sockets that a
/// process with a known image holds.
pub open spec fn tcp_sent(
    p: Poll,
    seen: Seq<(u64, Baseline)>,
    count_new: bool,
    pid: u32,
    n: int,
) -> int
    decreases n,
{
    if n <= 0 {
        0
    } else {
        let s = p.socks[n - 1];
        tcp_sent(p, seen, count_new, pid, n - 1) + if s.protocol == Protocol::Tcp && s.bytes is Some
            && lookup(p.owners, s.inode as u64) == Some(pid) && has_key(p.images, pid) {
            advance(
                (s.bytes->0).0 as int,
                match lookup(seen, s.cookie) {
                    Some(b) => Some(b.sent as int),
                    None => None,
                },
                count_new,
            )
        } else {
            0
        }
    }
}

/// How far the counters of received bytes came of the first `n` TCP sockets that a
/// process with a known image holds.
pub open spec fn tcp_recv(
    p: Poll,
    seen: Seq<(u64, Baseline)>,
    count_new: bool,
    pid: u32,
    n: int,
) -> int
    decreases n,
{
    if n <= 0 {
        0
    } else {
        let s = p.socks[n - 1];
        tcp_recv(p, seen, count_new, pid, n - 1) + if s.protocol == Protocol::Tcp && s.bytes is Some
            && lookup(p.owners, s.inode as u64) == Some(pid) && has_key(p.images, pid) {
            advance(
                (s.bytes->0).1 as int,
                match lookup(seen, s.cookie) {
                    Some(b) => Some(b.recv as int),
                    None => None,
                },
                count_new,
            )
        } else {
            0
        }
    }
}

/// A poll charges a process what the counters of its TCP sockets came to since they
/// were last seen, of sent bytes and of received bytes each.
pub proof fn law_tcp_growth_is_charged(
    p: Poll,
    seen: Seq<(u64, Baseline)>,
    count_new: bool,
    pid: u32,
    n: int,
)
    requires
        0 <= n <= p.socks.len(),
    ensures
        sent_by(tcp_charges(p, seen, count_new, n), pid) == tcp_sent(p, seen, count_new, pid, n),
        recv_by(tcp_charges(p, seen, count_new, n), pid) == tcp_recv(p, seen, count_new, pid, n),
    decreases n,
{
    if n > 0 {
        law_tcp_growth_is_charged(p, seen, count_new, pid, n - 1);
        let s = p.socks[n - 1];
        let before = tcp_charges(p, seen, count_new, n - 1);
        let d = delta((s.bytes->0).0, (s.bytes->0).1, lookup(seen, s.cookie), count_new);
        if polled(s) && !(d.0 == 0 && d.1 == 0) && holder(p, s.inode) is Some {
            let (h, path) = holder(p, s.inode)->0;
            let c = Charge {
                pid: h,
                path,
                kind: settled(p.adapters, s.local.0, s.remote.0),
                sent: d.0,
                recv: d.1,
            };
            lemma_sum_push(before, c, pid);
        }
    }
}

/// The process that UDP flows from a port are charged to: the owner of the first
/// listed socket of another protocol than TCP on that port that has an owner.
pub open spec fn udp_owner(p: Poll, port: u16, n: int) -> Option<u32>
    decreases n,
{
    if n <= 0 {
        None
    } else if udp_owner(p, port, n - 1) is Some {
        udp_owner(p, port, n - 1)
    } else if p.socks[n - 1].protocol != Protocol::Tcp && p.socks[n - 1].local.1 == port {
        lookup(p.owners, p.socks[n - 1].inode as u64)
    } else {
        None
    }
}

proof fn lemma_udp_holders(p: Poll, port: u16, n: int)
    ensures
        distinct(udp_holders(p, n)),
        lookup(udp_holders(p, n), port as u32) == udp_owner(p, port, n),
    decreases n,
{
    if n > 0 {
        lemma_udp_holders(p, port, n - 1);
        let before = udp_holders(p, n - 1);
        let s = p.socks[n - 1];
        if lookup(p.owners, s.inode as u64) is Some {
            crate::assoc::law_put(
                before,
                s.local.1 as u32,
                lookup(p.owners, s.inode as u64)->0,
                port as u32,
            );
        }
    }
}

/// How far the counters of what went out came of the first `n` UDP flows from ports
/// of a process with a known image.
pub open spec fn udp_sent(
    p: Poll,
    flows: Seq<Flow>,
    seen: Seq<(UdpKey, Baseline)>,
    count_new: bool,
    pid: u32,
    n: int,
) -> int
    decreases n,
{
    if n <= 0 {
        0
    } else {
        let f = flows[n - 1];
        udp_sent(p, flows, seen, count_new, pid, n - 1) + if f.protocol == Protocol::Udp
            && udp_owner(p, f.sport, p.socks.len() as int) == Some(pid) && has_key(p.images, pid) {
            advance(
                f.orig_bytes as int,
                match lookup(seen, tuple_of(f)) {
                    Some(b) => Some(b.sent as int),
                    None => None,
                },
                count_new,
            )
        } else {
            0
        }
    }
}

/// How far the counters of what came back came of the first `n` UDP flows from
/// ports of a process with a known image.
pub open spec fn udp_recv(
    p: Poll,
    flows: Seq<Flow>,
    seen: Seq<(UdpKey, Baseline)>,
    count_new: bool,
    pid: u32,
    n: int,
) -> int
    decreases n,
{
    if n <= 0 {
        0
    } else {
        let f = flows[n - 1];
        udp_recv(p, flows, seen, count_new, pid, n - 1) + if f.protocol == Protocol::Udp
            && udp_owner(p, f.sport, p.socks.len() as int) == Some(pid) && has_key(p.images, pid) {
            advance(
                f.reply_bytes as int,
                match lookup(seen, tuple_of(f)) {
                    Some(b) => Some(b.recv as int),
                    None => None,
                },
                count_new,
            )
        } else {
            0
        }
    }
}

/// UDP flows are charged to the process on the port that they came from: what went
/// out as sent and what came back as received.
pub proof fn law_udp_growth_is_charged(
    p: Poll,
    flows: Seq<Flow>,
    seen: Seq<(UdpKey, Baseline)>,
    count_new: bool,
    pid: u32,
    n: int,
)
    requires
        0 <= n <= flows.len(),
    ensures
        sent_by(udp_charges(p, flows, seen, count_new, n), pid) == udp_sent(
            p,
            flows,
            seen,
            count_new,
            pid,
            n,
        ),
        recv_by(udp_charges(p, flows, seen, count_new, n), pid) == udp_recv(
            p,
            flows,
            seen,
            count_new,
            pid,
            n,
        ),
    decreases n,
{
    if n > 0 {
        law_udp_growth_is_charged(p, flows, seen, count_new, pid, n - 1);
        let f = flows[n - 1];
        let before = udp_charges(p, flows, seen, count_new, n - 1);
        let d = delta(f.orig_bytes, f.reply_bytes, lookup(seen, tuple_of(f)), count_new);
        let h = lookup(udp_holders(p, p.socks.len() as int), f.sport as u32);
        lemma_udp_holders(p, f.sport, p.socks.len() as int);
        if f.protocol == Protocol::Udp && !(d.0 == 0 && d.1 == 0) && h is Some && lookup(
            p.images,
            h->0,
        ) is Some {
            let c = Charge {
                pid: h->0,
                path: lookup(p.images, h->0)->0,
                kind: settled(p.adapters, f.orig_src, f.orig_dst),
                sent: d.0,
                recv: d.1,
            };
            lemma_sum_push(before, c, pid);
        }
    }
}

/// Every charge of a poll names the image of the process that it charges.
pub proof fn law_charges_name_the_image(
    p: Poll,
    flows: Seq<Flow>,
    seen: Seq<(u64, Baseline)>,
    udp_seen: Seq<(UdpKey, Baseline)>,
    count_new: bool,
    n: int,
)
    ensures
        forall|i: int|
            0 <= i < tcp_charges(p, seen, count_new, n).len() ==> Some(
                (#[trigger] tcp_charges(p, seen, count_new, n)[i]).path,
            ) == lookup(p.images, tcp_charges(p, seen, count_new, n)[i].pid),
        forall|i: int|
            0 <= i < udp_charges(p, flows, udp_seen, count_new, n).len() ==> Some(
                (#[trigger] udp_charges(p, flows, udp_seen, count_new, n)[i]).path,
            ) == lookup(p.images, udp_charges(p, flows, udp_seen, count_new, n)[i].pid),
    decreases n,
{
    if n > 0 {
        law_charges_name_the_image(p, flows, seen, udp_seen, count_new, n - 1);
        let (a, b) = (
            tcp_charges(p, seen, count_new, n),
            tcp_charges(p, seen, count_new, n - 1),
        );
        assert forall|i: int| 0 <= i < a.len() implies Some((#[trigger] a[i]).path) == lookup(
            p.images,
            a[i].pid,
        ) by {
            if i < b.len() {
                assert(a[i] == b[i]);
            }
        }
        let (c, d) = (
            udp_charges(p, flows, udp_seen, count_new, n),
            udp_charges(p, flows, udp_seen, count_new, n - 1),
        );
        assert forall|i: int| 0 <= i < c.len() implies Some((#[trigger] c[i]).path) == lookup(
            p.images,
            c[i].pid,
        ) by {
            if i < d.len() {
                assert(c[i] == d[i]);
            }
        }
    }
}

/// A closed socket that polls have seen is charged to the owner noted for it, with
/// what its counters grew by since the last poll.
pub proof fn law_a_closed_socket_is_charged_the_rest(
    s: SockInfo,
    seen: Seq<(u64, Baseline)>,
    owners: Seq<(u64, TcpOwner)>,
    flows: Seq<(FlowKey, (TcpOwner, u64))>,
    sent: u64,
    recv: u64,
    b: Baseline,
    o: TcpOwner,
)
    requires
        s.bytes == Some((sent, recv)),
        lookup(seen, s.cookie) == Some(b),
        lookup(owners, s.cookie) == Some(o),
        b.sent <= sent,
        b.recv <= recv,
    ensures
        closing_of(s, seen, owners, flows) matches ClosedTcp::Done(c) && match c {
            Some(c) => c.pid == o.pid && c.path == o.path && c.kind == o.kind && c.sent == sent
                - b.sent && c.recv == recv - b.recv && c.sent + c.recv > 0,
            None => sent == b.sent && recv == b.recv,
        },
{
}

/// A closed socket that no poll has seen is charged to whoever opened the
/// connection between its ends, with all that its counters hold; it waits where
/// nobody is known to have.
pub proof fn law_a_short_connection_is_charged_whole(
    s: SockInfo,
    seen: Seq<(u64, Baseline)>,
    owners: Seq<(u64, TcpOwner)>,
    flows: Seq<(FlowKey, (TcpOwner, u64))>,
    sent: u64,
    recv: u64,
)
    requires
        s.bytes == Some((sent, recv)),
        lookup(seen, s.cookie) is None,
    ensures
        ({
            let key = FlowKey { local: s.local, remote: s.remote };
            match lookup(flows, key) {
                None => closing_of(s, seen, owners, flows) == ClosedTcp::Waiting,
                Some((o, _)) => closing_of(s, seen, owners, flows) matches ClosedTcp::Done(c)
                    && match c {
                    Some(c) => c.pid == o.pid && c.path == o.path && c.kind == o.kind && c.sent
                        == sent && c.recv == recv && sent + recv > 0,
                    None => sent == 0 && recv == 0,
                },
            }
        }),
{
}

/// The counters of a flow are known after a listing, so that the next listing is
/// charged only what came since.
pub proof fn law_udp_counters_are_noted(flows: Seq<Flow>, i: int)
    requires
        0 <= i < flows.len(),
        flows[i].protocol == Protocol::Udp,
        forall|j: int|
            i < j < flows.len() ==> (#[trigger] flows[j]).protocol != Protocol::Udp || tuple_of(
                flows[j],
            ) != tuple_of(flows[i]),
    ensures
        ({
            let f = flows[i];
            let key = UdpKey { src: f.orig_src, dst: f.orig_dst, sport: f.sport, dport: f.dport };
            &&& lookup(udp_baselines(flows), key) is Some
            &&& lookup(udp_baselines(flows), key)->0.sent == f.orig_bytes
            &&& lookup(udp_baselines(flows), key)->0.recv == f.reply_bytes
        }),
    decreases flows.len(),
{
    let front = flows.drop_last();
    let last = flows.last();
    let before = udp_baselines(front);
    lemma_udp_baselines_distinct(front);
    crate::assoc::law_put(
        before,
        tuple_of(last),
        Baseline { sent: last.orig_bytes, recv: last.reply_bytes, missed: 0 },
        tuple_of(flows[i]),
    );
    if i < front.len() {
        assert(front[i] == flows[i]);
        assert forall|j: int| i < j < front.len() implies (#[trigger] front[j]).protocol
            != Protocol::Udp || tuple_of(front[j]) != tuple_of(front[i]) by {
            assert(front[j] == flows[j]);
        }
        law_udp_counters_are_noted(front, i);
        assert(last == flows[flows.len() - 1]);
    }
}

proof fn lemma_udp_baselines_distinct(flows: Seq<Flow>)
    ensures
        distinct(udp_baselines(flows)),
    decreases flows.len(),
{
    if flows.len() > 0 {
        lemma_udp_baselines_distinct(flows.drop_last());
        let f = flows.last();
        crate::assoc::law_put(
            udp_baselines(flows.drop_last()),
            tuple_of(f),
            Baseline { sent: f.orig_bytes, recv: f.reply_bytes, missed: 0 },
            tuple_of(f),
        );
    }
}

/// The owner noted for a TCP socket is the process that holds it, so that its
/// closing is charged to the right program.
pub proof fn law_socket_owners_are_noted(
    p: Poll,
    known: Seq<(u64, TcpOwner)>,
    n: int,
    i: int,
    pid: u32,
    path: String,
)
    requires
        distinct(known),
        0 <= i < n <= p.socks.len(),
        p.socks[i].protocol == Protocol::Tcp,
        lookup(p.owners, p.socks[i].inode as u64) == Some(pid),
        lookup(p.images, pid) == Some(path),
        forall|j: int|
            i < j < n ==> (#[trigger] p.socks[j]).cookie != p.socks[i].cookie,
    ensures
        distinct(tcp_owners_after(p, known, n)),
        lookup(tcp_owners_after(p, known, n), p.socks[i].cookie) is Some,
        lookup(tcp_owners_after(p, known, n), p.socks[i].cookie)->0.pid == pid,
        lookup(tcp_owners_after(p, known, n), p.socks[i].cookie)->0.path == path,
    decreases n,
{
    lemma_owners_distinct(p, known, n - 1);
    let before = tcp_owners_after(p, known, n - 1);
    let s = p.socks[n - 1];
    let (h, image) = holder(p, s.inode)->0;
    crate::assoc::law_put(
        before,
        s.cookie,
        TcpOwner { pid: h, path: image, kind: settled(p.adapters, s.local.0, s.remote.0) },
        p.socks[i].cookie,
    );
    if i < n - 1 {
        law_socket_owners_are_noted(p, known, n - 1, i, pid, path);
    }
}

proof fn lemma_owners_distinct(p: Poll, known: Seq<(u64, TcpOwner)>, n: int)
    requires
        distinct(known),
    ensures
        distinct(tcp_owners_after(p, known, n)),
    decreases n,
{
    if n > 0 {
        lemma_owners_distinct(p, known, n - 1);
        let s = p.socks[n - 1];
        let (h, image) = holder(p, s.inode)->0;
        crate::assoc::law_put(
            tcp_owners_after(p, known, n - 1),
            s.cookie,
            TcpOwner { pid: h, path: image, kind: settled(p.adapters, s.local.0, s.remote.0) },
            s.cookie,
        );
    }
}

/// A short connection is remembered with its program and the other host, and the
/// newest hundred and twenty-eight at least are kept.
pub proof fn law_short_connections_are_remembered(
    flows: Seq<RecentFlow>,
    path: String,
    remote: (IpAddr, u16),
)
    ensures
        ({
            let all = recent_after(flows, path, remote);
            &&& all.len() > 0
            &&& all.last().path == path
            &&& all.last().remote.addr == remote.0
            &&& all.last().remote.port == remote.1
            &&& flows.len() <= 256 ==> all.len() <= 256
            &&& flows.len() < 256 ==> all.len() == flows.len() + 1 && all.drop_last() == flows
            &&& flows.len() >= 256 ==> all.len() == flows.len() - 127 && all.drop_last()
                == flows.skip(128)
        }),
{
    let all = recent_after(flows, path, remote);
    if flows.len() < 256 {
        assert(all.drop_last() =~= flows);
    } else {
        assert(all.drop_last() =~= flows.skip(128));
    }
}

/// A socket that was seen before belongs to whoever held it then. One that was not
/// belongs to whoever opened a connection between the same two ends.
pub proof fn law_closed_sockets_keep_their_owner(
    s: SockInfo,
    seen: Seq<(u64, Baseline)>,
    owners: Seq<(u64, TcpOwner)>,
    flows: Seq<(FlowKey, (TcpOwner, u64))>,
)
    ensures
        lookup(seen, s.cookie) is Some ==> owner_of_closed(s, seen, owners, flows) == lookup(
            owners,
            s.cookie,
        ),
        lookup(seen, s.cookie) is None ==> (owner_of_closed(s, seen, owners, flows) is Some) == (
        lookup(flows, FlowKey { local: s.local, remote: s.remote }) is Some),
        lookup(seen, s.cookie) is None ==> (lookup(
            flows,
            FlowKey { local: s.local, remote: s.remote },
        ) matches Some(f) ==> owner_of_closed(s, seen, owners, flows) == Some(f.0)),
{
}

} // verus!
