//! Connections by process, and ending one.

use crate::assoc::{has_key, lookup, mapped, put, Assoc};
use crate::dns::DnsMap;
use crate::ip::IpAddr;
use crate::linux::ct::{header_bytes, AF_INET, AF_INET6, IPPROTO_TCP};
use crate::linux::sockets::{addr_field, build_destroy, socket_of, SockInfo, TCP_ESTABLISHED};
use crate::model::{Conn, ConnState, Direction, Endpoint, Protocol};
use vstd::prelude::*;

verus! {

/// Accounts below this belong to the system.
pub const FIRST_NORMAL_UID: u32 = 1000;

/// How many connections are kept of one process.
pub const MAX_CONNS_PER_PROC: usize = 64;

/// Which way a connection was made: the end with the lower port is taken for the
/// server.
pub open spec fn direction_of(local_port: u16, remote_port: u16) -> Direction {
    if local_port < remote_port {
        Direction::Inbound
    } else {
        Direction::Outbound
    }
}

/// Which way a connection was made.
pub fn direction(local_port: u16, remote_port: u16) -> (d: Direction)
    ensures
        d == direction_of(local_port, remote_port),
{
    if local_port < remote_port {
        Direction::Inbound
    } else {
        Direction::Outbound
    }
}

/// The coarse state of a socket.
pub open spec fn state_of(s: SockInfo) -> ConnState {
    if s.state == TCP_ESTABLISHED {
        ConnState::Active
    } else {
        ConnState::Closing
    }
}

/// The coarse state of a socket.
pub fn conn_state(s: &SockInfo) -> (r: ConnState)
    ensures
        r == state_of(*s),
{
    if s.state as u32 == TCP_ESTABLISHED {
        ConnState::Active
    } else {
        ConnState::Closing
    }
}

/// A connection as contracts see it.
pub ghost struct ConnView {
    pub remote: Endpoint,
    pub host: Option<Seq<char>>,
    pub local_port: u16,
    pub direction: Direction,
    pub state: ConnState,
}

/// A connection as contracts see it.
pub open spec fn conn_view(c: Conn) -> ConnView {
    ConnView {
        remote: c.remote,
        host: crate::text::text_view(c.host),
        local_port: c.local_port,
        direction: c.direction,
        state: c.state,
    }
}

/// A process's path and its connections.
pub ghost struct ProcConns {
    pub path: Seq<char>,
    pub conns: Seq<ConnView>,
}

/// A process's path and its connections.
pub open spec fn proc_conns(p: (String, Vec<Conn>)) -> ProcConns {
    ProcConns { path: p.0@, conns: p.1@.map_values(|c: Conn| conn_view(c)) }
}

/// The process that a socket is shown under: the owner of a TCP socket with a
/// peer, where the owner's image is known.
pub open spec fn shown_under(
    s: SockInfo,
    owners: Seq<(u64, u32)>,
    images: Seq<(u32, String)>,
) -> Option<u32> {
    if s.protocol != Protocol::Tcp || s.remote.1 == 0 || s.remote.0.is_zero() {
        None
    } else {
        match lookup(owners, s.inode as u64) {
            Some(pid) if has_key(images, pid) => Some(pid),
            _ => None,
        }
    }
}

/// A socket as a connection.
pub open spec fn conn_of(s: SockInfo, names: Seq<(IpAddr, Seq<char>)>) -> ConnView {
    ConnView {
        remote: Endpoint { addr: s.remote.0, port: s.remote.1, protocol: Protocol::Tcp },
        host: lookup(names, s.remote.0),
        local_port: s.local.1,
        direction: direction_of(s.local.1, s.remote.1),
        state: state_of(s),
    }
}

/// The connections of each process, in the order of the sockets. Of a process
/// with very many, the first are kept.
pub open spec fn grouped(
    socks: Seq<SockInfo>,
    owners: Seq<(u64, u32)>,
    images: Seq<(u32, String)>,
    names: Seq<(IpAddr, Seq<char>)>,
) -> Seq<(u32, ProcConns)>
    decreases socks.len(),
{
    if socks.len() == 0 {
        Seq::empty()
    } else {
        let before = grouped(socks.drop_last(), owners, images, names);
        let s = socks.last();
        match shown_under(s, owners, images) {
            Some(pid) => {
                let p = match lookup(before, pid) {
                    Some(p) => p,
                    None => ProcConns {
                        path: lookup(images, pid)->0@,
                        conns: Seq::empty(),
                    },
                };
                if p.conns.len() >= MAX_CONNS_PER_PROC {
                    before
                } else {
                    put(
                        before,
                        pid,
                        ProcConns { path: p.path, conns: p.conns.push(conn_of(s, names)) },
                    )
                }
            },
            None => before,
        }
    }
}

fn copy_conn(c: &Conn) -> (r: Conn)
    ensures
        r == *c,
{
    Conn {
        remote: c.remote,
        host: crate::rule::clone_label(&c.host),
        local_port: c.local_port,
        direction: c.direction,
        state: c.state,
    }
}

/// A copy of connections.
pub fn copy_conns(v: &Vec<Conn>) -> (r: Vec<Conn>)
    ensures
        r@ == v@,
{
    let mut r: Vec<Conn> = Vec::new();
    let mut i: usize = 0;
    while i < v.len()
        invariant
            i <= v@.len(),
            r@ == v@.take(i as int),
        decreases v@.len() - i,
    {
        r.push(copy_conn(&v[i]));
        i += 1;
        assert(v@.take(i as int) =~= v@.take(i - 1).push(v@[i - 1]));
    }
    assert(v@.take(i as int) =~= v@);
    r
}

/// The connections of each process, with its path. `owners` says which process
/// holds a socket, and `images` which image a process runs.
pub fn by_pid(
    socks: &Vec<SockInfo>,
    owners: &Assoc<u64, u32>,
    images: &Assoc<u32, String>,
    dns: &DnsMap,
) -> (out: Assoc<u32, (String, Vec<Conn>)>)
    ensures
        mapped(out@, |p: (String, Vec<Conn>)| proc_conns(p)) == grouped(
            socks@,
            owners@,
            images@,
            dns.names(),
        ),
{
    let mut out: Assoc<u32, (String, Vec<Conn>)> = Assoc::new();
    let ghost g = |p: (String, Vec<Conn>)| proc_conns(p);
    let mut i: usize = 0;
    assert(socks@.take(0) =~= Seq::empty());
    assert(mapped(out@, g) =~= Seq::empty());
    while i < socks.len()
        invariant
            i <= socks@.len(),
            g == (|p: (String, Vec<Conn>)| proc_conns(p)),
            mapped(out@, g) == grouped(socks@.take(i as int), owners@, images@, dns.names()),
        decreases socks@.len() - i,
    {
        let s: SockInfo = socks[i];
        assert(socks@.take(i + 1).drop_last() =~= socks@.take(i as int));
        assert(socks@.take(i + 1).last() == s);
        i += 1;
        if !s.is_tcp() || s.remote.1 == 0 || s.remote.0.is_unspecified() {
            continue;
        }
        let pid: u32 = match owners.get(&(s.inode as u64)) {
            Some(pid) => *pid,
            None => {
                continue;
            },
        };
        let path = match images.get(&pid) {
            Some(p) => p.clone(),
            None => {
                continue;
            },
        };
        let (path, mut conns) = match out.get(&pid) {
            Some(p) => (p.0.clone(), copy_conns(&p.1)),
            None => (path, Vec::new()),
        };
        let ghost before = conns@.map_values(|c: Conn| conn_view(c));
        proof {
            crate::assoc::lemma_mapped(out@, g, pid, (path, conns));
            if lookup(out@, pid) is None {
                assert(before =~= Seq::empty());
            }
        }
        if conns.len() >= MAX_CONNS_PER_PROC {
            continue;
        }
        let c = Conn {
            remote: Endpoint { addr: s.remote.0, port: s.remote.1, protocol: Protocol::Tcp },
            host: dns.lookup(&s.remote.0),
            local_port: s.local.1,
            direction: direction(s.local.1, s.remote.1),
            state: conn_state(&s),
        };
        conns.push(c);
        proof {
            assert(conns@.map_values(|c: Conn| conn_view(c)) =~= before.push(conn_view(c)));
            crate::assoc::lemma_mapped(out@, g, pid, (path, conns));
        }
        out.put(pid, (path, conns));
    }
    assert(socks@.take(i as int) =~= socks@);
    out
}

/// The first TCP socket with this tuple.
pub open spec fn matching(
    socks: Seq<SockInfo>,
    local_port: u16,
    remote: IpAddr,
    remote_port: u16,
) -> Option<SockInfo>
    decreases socks.len(),
{
    if socks.len() == 0 {
        None
    } else if socks[0].protocol == Protocol::Tcp && socks[0].local.1 == local_port
        && socks[0].remote.0 == remote && socks[0].remote.1 == remote_port {
        Some(socks[0])
    } else {
        matching(socks.drop_first(), local_port, remote, remote_port)
    }
}

/// What to do to end a connection.
#[derive(Debug, PartialEq, Eq)]
pub enum Kill {
    /// There is no such connection.
    NotFound,
    /// It belongs to the system account with this number.
    Refused(u32),
    /// Send this request.
    Send(Vec<u8>),
}

/// Whether this is what ends the connection of a socket, where one was found.
pub open spec fn ends(k: Kill, found: Option<SockInfo>) -> bool {
    match found {
        None => k == Kill::NotFound,
        Some(s) => if s.uid < FIRST_NORMAL_UID {
            k == Kill::Refused(s.uid)
        } else {
            k matches Kill::Send(b) && destroys(b@, s)
        },
    }
}

/// What to do to end a connection: ask the kernel to close its socket, unless it
/// belongs to the system.
pub fn kill_connection(
    socks: &Vec<SockInfo>,
    local_port: u16,
    remote: IpAddr,
    remote_port: u16,
) -> (k: Kill)
    ensures
        ends(k, matching(socks@, local_port, remote, remote_port)),
{
    let mut i: usize = 0;
    assert(socks@.skip(0) =~= socks@);
    while i < socks.len()
        invariant
            i <= socks@.len(),
            matching(socks@.skip(i as int), local_port, remote, remote_port) == matching(
                socks@,
                local_port,
                remote,
                remote_port,
            ),
        decreases socks@.len() - i,
    {
        let s: SockInfo = socks[i];
        assert(socks@.skip(i as int)[0] == s);
        assert(socks@.skip(i as int).drop_first() =~= socks@.skip(i + 1));
        if s.is_tcp() && s.local.1 == local_port && s.remote.0 == remote && s.remote.1
            == remote_port {
            if s.uid < FIRST_NORMAL_UID {
                return Kill::Refused(s.uid);
            }
            let family: u8 = if s.local.0.is_ipv4() {
                AF_INET
            } else {
                AF_INET6
            };
            return Kill::Send(build_destroy(family, IPPROTO_TCP, s.local, s.remote));
        }
        i += 1;
    }
    Kill::NotFound
}

/// Whether a request closes a socket.
pub open spec fn destroys(b: Seq<u8>, s: SockInfo) -> bool {
    b == crate::linux::ct::header_bytes(
        72,
        crate::linux::sockets::SOCK_DESTROY as nat,
        (crate::linux::netlink::NLM_F_REQUEST + crate::linux::netlink::NLM_F_ACK) as nat,
    ) + seq![
        if s.local.0 is V4 {
            AF_INET
        } else {
            AF_INET6
        },
        IPPROTO_TCP,
        0,
        0,
    ] + crate::bytes::le_bytes(crate::linux::sockets::ESTABLISHED_BIT as nat, 4)
        + crate::bytes::be_bytes(s.local.1 as nat, 2) + crate::bytes::be_bytes(
        s.remote.1 as nat,
        2,
    ) + crate::linux::sockets::addr_field(s.local.0) + crate::linux::sockets::addr_field(
        s.remote.0,
    ) + crate::linux::sockets::zeros(12)
}

/// The socket that is found for a connection is a TCP socket on the local port with
/// exactly that peer, and one is found wherever there is one.
pub proof fn law_the_socket_of_a_connection_is_found(
    socks: Seq<SockInfo>,
    local_port: u16,
    remote: IpAddr,
    remote_port: u16,
)
    ensures
        matching(socks, local_port, remote, remote_port) matches Some(s) ==> {
            &&& socks.contains(s)
            &&& s.protocol == Protocol::Tcp
            &&& s.local.1 == local_port
            &&& s.remote == (remote, remote_port)
        },
        matching(socks, local_port, remote, remote_port) is None ==> forall|i: int|
            0 <= i < socks.len() ==> !((#[trigger] socks[i]).protocol == Protocol::Tcp
                && socks[i].local.1 == local_port && socks[i].remote == (remote, remote_port)),
    decreases socks.len(),
{
    if socks.len() > 0 {
        let rest = socks.drop_first();
        law_the_socket_of_a_connection_is_found(rest, local_port, remote, remote_port);
        if matching(socks, local_port, remote, remote_port) is None {
            assert forall|i: int| 0 <= i < socks.len() implies !((
            #[trigger] socks[i]).protocol == Protocol::Tcp && socks[i].local.1 == local_port
                && socks[i].remote == (remote, remote_port)) by {
                if i > 0 {
                    assert(rest[i - 1] == socks[i]);
                }
            }
        } else {
            let s = matching(socks, local_port, remote, remote_port)->0;
            if s != socks[0] {
                let i = choose|i: int| 0 <= i < rest.len() && rest[i] == s;
                assert(socks[i + 1] == s);
            } else {
                assert(socks.contains(socks[0]));
            }
        }
    }
}

/// A connection of an account below 1000 is left alone, and one of another account
/// is ended by a request that names the socket's own two ends.
pub proof fn law_connections_of_the_system_are_left_alone(k: Kill, s: SockInfo, rest: Seq<u8>)
    requires
        ends(k, Some(s)),
        s.local.0 is V4 == s.remote.0 is V4,
        rest.len() >= 20,
    ensures
        s.uid < 1000 ==> k == Kill::Refused(s.uid),
        s.uid >= 1000 ==> k is Send,
        k matches Kill::Send(b) ==> {
            let found = socket_of(b@[16], Protocol::Tcp, b@.skip(20) + rest);
            &&& found is Some
            &&& found->0.local == s.local
            &&& found->0.remote == s.remote
            &&& b@[16] == (if s.local.0 is V4 {
                2u8
            } else {
                10u8
            })
            &&& b@[17] == 6
        },
{
    if k is Send {
        let b = k->Send_0@;
        let (family, states) = (b[16], crate::bytes::le_bytes(2, 4));
        let head = header_bytes(72, 21, 5);
        crate::bytes::lemma_le_bytes_len(72, 4);
        crate::bytes::lemma_le_bytes_len(21, 2);
        crate::bytes::lemma_le_bytes_len(5, 2);
        crate::bytes::lemma_le_bytes_len(0, 8);
        crate::bytes::lemma_le_bytes_len(2, 4);
        let lp = crate::bytes::be_bytes(s.local.1 as nat, 2);
        let rp = crate::bytes::be_bytes(s.remote.1 as nat, 2);
        crate::bytes::lemma_be_bytes_len(s.local.1 as nat, 2);
        crate::bytes::lemma_be_bytes_len(s.remote.1 as nat, 2);
        let f = seq![
            if s.local.0 is V4 {
                2u8
            } else {
                10u8
            },
            6u8,
            0,
            0,
        ];
        let (l, r) = (addr_field(s.local.0), addr_field(s.remote.0));
        crate::linux::sockets::lemma_addr_field(s.local.0);
        crate::linux::sockets::lemma_addr_field(s.remote.0);
        let z = crate::linux::sockets::zeros(12);
        assert(head.len() == 16);
        assert(b =~= head + f + states + lp + rp + l + r + z);
        assert(b[16] == f[0] && b[17] == f[1]);
        let p = b.skip(20) + rest;
        assert(p.len() >= 72);
        assert(crate::bytes::at(p, 4, 2) =~= lp);
        assert(crate::bytes::at(p, 6, 2) =~= rp);
        assert(p.subrange(8, 24) =~= l);
        assert(p.subrange(24, 40) =~= r);
        crate::bytes::lemma_pow256_values();
        crate::bytes::law_be_round_trip(s.local.1 as nat, 2);
        crate::bytes::law_be_round_trip(s.remote.1 as nat, 2);
    }
}

/// Whether a socket is a connection of a process: a TCP socket with a peer, which
/// the process owns.
pub open spec fn connects(s: SockInfo, owners: Seq<(u64, u32)>, pid: u32) -> bool {
    &&& s.protocol == Protocol::Tcp
    &&& s.remote.1 != 0
    &&& s.remote.0 != IpAddr::V4(0)
    &&& s.remote.0 != IpAddr::V6(0)
    &&& lookup(owners, s.inode as u64) == Some(pid)
}

/// A process whose program is known is listed with the first sixty-four of its
/// connections, in the order of the sockets; a process without connections, or
/// whose program is not known, is not listed.
pub proof fn law_connections_are_listed_by_process(
    socks: Seq<SockInfo>,
    owners: Seq<(u64, u32)>,
    images: Seq<(u32, String)>,
    names: Seq<(IpAddr, Seq<char>)>,
    pid: u32,
)
    ensures
        crate::assoc::distinct(grouped(socks, owners, images, names)),
        ({
            let own = socks.filter(|s: SockInfo| connects(s, owners, pid));
            let first = if own.len() > 64 {
                own.take(64)
            } else {
                own
            };
            lookup(grouped(socks, owners, images, names), pid) == (if own.len() > 0 && has_key(
                images,
                pid,
            ) {
                Some(
                    ProcConns {
                        path: lookup(images, pid)->0@,
                        conns: first.map_values(|s: SockInfo| conn_of(s, names)),
                    },
                )
            } else {
                None
            })
        }),
    decreases socks.len(),
{
    reveal(Seq::filter);
    let keep = |s: SockInfo| connects(s, owners, pid);
    let show = |s: SockInfo| conn_of(s, names);
    if socks.len() > 0 {
        let front = socks.drop_last();
        let s = socks.last();
        let before = grouped(front, owners, images, names);
        law_connections_are_listed_by_process(front, owners, images, names, pid);
        let old = front.filter(keep);
        let own = socks.filter(keep);
        assert(own == if keep(s) {
            old.push(s)
        } else {
            old
        });
        match shown_under(s, owners, images) {
            Some(q) => {
                law_connections_are_listed_by_process(front, owners, images, names, q);
                let p = match lookup(before, q) {
                    Some(p) => p,
                    None => ProcConns { path: lookup(images, q)->0@, conns: Seq::empty() },
                };
                let v = ProcConns { path: p.path, conns: p.conns.push(conn_of(s, names)) };
                crate::assoc::law_put(before, q, v, pid);
                if q == pid {
                    assert(keep(s));
                    if old.len() < 64 {
                        assert(own.map_values(show) =~= old.map_values(show).push(show(s)));
                        assert(p.conns =~= old.map_values(show));
                    } else {
                        assert(own.take(64) =~= if old.len() > 64 {
                            old.take(64)
                        } else {
                            old
                        });
                    }
                } else {
                    assert(!keep(s));
                }
            },
            None => {
                assert(keep(s) ==> !has_key(images, pid));
            },
        }
    }
}

/// A connection is shown with its peer, the peer's name where one is known, and its
/// own port. It is active while its socket is established. The end with the lower
/// port is the server.
pub proof fn law_connections_are_shown_as_they_are(s: SockInfo, names: Seq<(IpAddr, Seq<char>)>)
    ensures
        ({
            let c = conn_of(s, names);
            &&& c.remote == (Endpoint {
                addr: s.remote.0,
                port: s.remote.1,
                protocol: Protocol::Tcp,
            })
            &&& c.host == lookup(names, s.remote.0)
            &&& c.local_port == s.local.1
            &&& (c.state is Active <==> s.state == 1)
            &&& (c.direction is Inbound <==> s.local.1 < s.remote.1)
        }),
{
}

} // verus!
