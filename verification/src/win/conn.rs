//! Connections by process, from the platform's tables, and ending one.

use crate::assoc::{has_key, lookup, mapped, put, Assoc};
use crate::bytes::{
    at, be_bytes, be_nat, be_u128_at, be_u16_at, be_u32_at, le_bytes, le_nat, le_u32_at,
};
use crate::ip::IpAddr;
use crate::linux::conn::{
    conn_view, copy_conns, direction, direction_of, proc_conns, ConnView, ProcConns,
    MAX_CONNS_PER_PROC,
};
use crate::model::{Conn, ConnState, Endpoint, Protocol};
use crate::win::dns::DnsMap;
use vstd::prelude::*;

verus! {

pub const MIB_TCP_STATE_CLOSED: u32 = 1;

pub const MIB_TCP_STATE_LISTEN: u32 = 2;

pub const MIB_TCP_STATE_ESTAB: u32 = 5;

/// The state that ends a connection.
pub const DELETE_TCB: u32 = 12;

/// A table does not fit.
pub const ERROR_INSUFFICIENT_BUFFER: u32 = 122;

/// How often a table is asked for.
pub const TRIES: u32 = 5;

/// The length of a row for IPv4: its state, the near address and port, the far
/// address and port, and the process.
pub const ROW_V4: usize = 24;

/// The length of a row for IPv6: the near address, scope and port, the far
/// address, scope and port, its state, and the process.
pub const ROW_V6: usize = 56;

/// A connection of a process.
#[derive(Debug, Clone, Copy, PartialEq, Eq, Structural)]
pub struct RawConn {
    pub pid: u32,
    pub remote: Endpoint,
    pub local_port: u16,
    pub state: ConnState,
}

/// A number in a row.
pub open spec fn field(row: Seq<u8>, offset: int) -> nat {
    le_nat(at(row, offset, 4))
}

/// The port in a row's field, which holds it most significant byte first.
pub open spec fn port_in(row: Seq<u8>, offset: int) -> u16 {
    be_nat(at(row, offset, 2)) as u16
}

/// The coarse state of a connection.
pub open spec fn state_of(state: nat) -> ConnState {
    if state == MIB_TCP_STATE_ESTAB {
        ConnState::Active
    } else {
        ConnState::Closing
    }
}

/// Whether a row is no connection.
pub open spec fn idle(state: nat) -> bool {
    state == MIB_TCP_STATE_LISTEN || state == MIB_TCP_STATE_CLOSED
}

/// The connection of a row for IPv4.
pub open spec fn row_v4(row: Seq<u8>) -> Option<RawConn> {
    if idle(field(row, 0)) {
        None
    } else {
        Some(
            RawConn {
                pid: field(row, 20) as u32,
                remote: Endpoint {
                    addr: IpAddr::V4(be_nat(at(row, 12, 4)) as u32),
                    port: port_in(row, 16),
                    protocol: Protocol::Tcp,
                },
                local_port: port_in(row, 8),
                state: state_of(field(row, 0)),
            },
        )
    }
}

/// The connection of a row for IPv6.
pub open spec fn row_v6(row: Seq<u8>) -> Option<RawConn> {
    if idle(field(row, 48)) {
        None
    } else {
        Some(
            RawConn {
                pid: field(row, 52) as u32,
                remote: Endpoint {
                    addr: IpAddr::V6(be_nat(at(row, 24, 16)) as u128),
                    port: port_in(row, 44),
                    protocol: Protocol::Tcp,
                },
                local_port: port_in(row, 20),
                state: state_of(field(row, 48)),
            },
        )
    }
}

/// How many rows of a length a table holds: as many as it says, and as fit.
pub open spec fn rows(table: Seq<u8>, len: nat) -> nat {
    if table.len() < 4 {
        0
    } else {
        let said = le_nat(at(table, 0, 4));
        let fit = ((table.len() - 4) as nat) / len;
        if said < fit {
            said
        } else {
            fit
        }
    }
}

/// A row of a table.
pub open spec fn row(table: Seq<u8>, len: nat, i: nat) -> Seq<u8> {
    at(table, (4 + i * len) as int, len as int)
}

/// The connections of the first `n` rows of a table for IPv4.
pub open spec fn conns_v4(table: Seq<u8>, n: nat) -> Seq<RawConn>
    decreases n,
{
    if n == 0 {
        Seq::empty()
    } else {
        match row_v4(row(table, ROW_V4 as nat, (n - 1) as nat)) {
            Some(c) => conns_v4(table, (n - 1) as nat).push(c),
            None => conns_v4(table, (n - 1) as nat),
        }
    }
}

/// The connections of the first `n` rows of a table for IPv6.
pub open spec fn conns_v6(table: Seq<u8>, n: nat) -> Seq<RawConn>
    decreases n,
{
    if n == 0 {
        Seq::empty()
    } else {
        match row_v6(row(table, ROW_V6 as nat, (n - 1) as nat)) {
            Some(c) => conns_v6(table, (n - 1) as nat).push(c),
            None => conns_v6(table, (n - 1) as nat),
        }
    }
}

fn row_count(table: &[u8], len: usize) -> (n: usize)
    requires
        len > 0,
    ensures
        n == rows(table@, len as nat),
{
    assert(table.len() as nat == table@.len());
    if table.len() < 4 {
        return 0;
    }
    let said: u32 = le_u32_at(table, 0);
    let fit: usize = (table.len() - 4) / len;
    if (said as u64) < fit as u64 {
        said as usize
    } else {
        fit
    }
}

proof fn lemma_row_fits(table: Seq<u8>, len: nat, i: nat)
    requires
        len > 0,
        i < rows(table, len),
    ensures
        4 + i * len + len <= table.len(),
{
    let n = rows(table, len);
    let fit = ((table.len() - 4) as nat) / len;
    vstd::arithmetic::div_mod::lemma_fundamental_div_mod((table.len() - 4) as int, len as int);
    assert((i + 1) * len <= fit * len) by (nonlinear_arith)
        requires
            i + 1 <= fit,
            len > 0,
    ;
    assert((i + 1) * len == i * len + len) by (nonlinear_arith);
    assert(len * fit == fit * len) by (nonlinear_arith);
}

fn read_v4(r: &[u8]) -> (c: Option<RawConn>)
    requires
        r@.len() == ROW_V4,
    ensures
        c == row_v4(r@),
{
    let state: u32 = le_u32_at(r, 0);
    if state == MIB_TCP_STATE_LISTEN || state == MIB_TCP_STATE_CLOSED {
        return None;
    }
    Some(
        RawConn {
            pid: le_u32_at(r, 20),
            remote: Endpoint {
                addr: IpAddr::V4(be_u32_at(r, 12)),
                port: be_u16_at(r, 16),
                protocol: Protocol::Tcp,
            },
            local_port: be_u16_at(r, 8),
            state: if state == MIB_TCP_STATE_ESTAB {
                ConnState::Active
            } else {
                ConnState::Closing
            },
        },
    )
}

fn read_v6(r: &[u8]) -> (c: Option<RawConn>)
    requires
        r@.len() == ROW_V6,
    ensures
        c == row_v6(r@),
{
    let state: u32 = le_u32_at(r, 48);
    if state == MIB_TCP_STATE_LISTEN || state == MIB_TCP_STATE_CLOSED {
        return None;
    }
    Some(
        RawConn {
            pid: le_u32_at(r, 52),
            remote: Endpoint {
                addr: IpAddr::V6(be_u128_at(r, 24)),
                port: be_u16_at(r, 44),
                protocol: Protocol::Tcp,
            },
            local_port: be_u16_at(r, 20),
            state: if state == MIB_TCP_STATE_ESTAB {
                ConnState::Active
            } else {
                ConnState::Closing
            },
        },
    )
}

/// The connections of the two tables: those for IPv4, and those for IPv6. An
/// empty table is one that could not be had.
pub fn snapshot(v4: &[u8], v6: &[u8]) -> (out: Vec<RawConn>)
    ensures
        out@ == conns_v4(v4@, rows(v4@, ROW_V4 as nat)) + conns_v6(v6@, rows(v6@, ROW_V6 as nat)),
{
    assert(v4.len() as nat == v4@.len());
    assert(v6.len() as nat == v6@.len());
    let mut out: Vec<RawConn> = Vec::new();
    let n: usize = row_count(v4, ROW_V4);
    let mut i: usize = 0;
    while i < n
        invariant
            i <= n,
            n == rows(v4@, ROW_V4 as nat),
            v4@.len() <= usize::MAX,
            out@ == conns_v4(v4@, i as nat),
        decreases n - i,
    {
        proof {
            lemma_row_fits(v4@, ROW_V4 as nat, i as nat);
        }
        let from: usize = 4 + i * ROW_V4;
        let r = vstd::slice::slice_subrange(v4, from, from + ROW_V4);
        assert(r@ =~= row(v4@, ROW_V4 as nat, i as nat));
        if let Some(c) = read_v4(r) {
            out.push(c);
        }
        i += 1;
    }
    let ghost first = out@;
    let m: usize = row_count(v6, ROW_V6);
    let mut j: usize = 0;
    assert(first + conns_v6(v6@, 0) =~= first);
    while j < m
        invariant
            j <= m,
            m == rows(v6@, ROW_V6 as nat),
            v6@.len() <= usize::MAX,
            out@ == first + conns_v6(v6@, j as nat),
        decreases m - j,
    {
        proof {
            lemma_row_fits(v6@, ROW_V6 as nat, j as nat);
        }
        let from: usize = 4 + j * ROW_V6;
        let r = vstd::slice::slice_subrange(v6, from, from + ROW_V6);
        assert(r@ =~= row(v6@, ROW_V6 as nat, j as nat));
        let ghost before = conns_v6(v6@, j as nat);
        if let Some(c) = read_v6(r) {
            out.push(c);
            assert(out@ =~= first + before.push(c));
        }
        j += 1;
    }
    out
}

/// A connection as contracts see it.
pub open spec fn conn_of(c: RawConn, names: Seq<(IpAddr, Seq<char>)>) -> ConnView {
    ConnView {
        remote: c.remote,
        host: lookup(names, c.remote.addr),
        local_port: c.local_port,
        direction: direction_of(c.local_port, c.remote.port),
        state: c.state,
    }
}

/// The connections of each process whose image is known, in order. Of a process
/// with very many, the first are kept.
pub open spec fn grouped(
    conns: Seq<RawConn>,
    images: Seq<(u32, String)>,
    names: Seq<(IpAddr, Seq<char>)>,
) -> Seq<(u32, ProcConns)>
    decreases conns.len(),
{
    if conns.len() == 0 {
        Seq::empty()
    } else {
        let before = grouped(conns.drop_last(), images, names);
        let c = conns.last();
        if has_key(images, c.pid) {
            let p = match lookup(before, c.pid) {
                Some(p) => p,
                None => ProcConns { path: lookup(images, c.pid)->0@, conns: Seq::empty() },
            };
            if p.conns.len() >= MAX_CONNS_PER_PROC {
                before
            } else {
                put(
                    before,
                    c.pid,
                    ProcConns { path: p.path, conns: p.conns.push(conn_of(c, names)) },
                )
            }
        } else {
            before
        }
    }
}

/// The connections of each process, with its path.
pub fn by_pid(raw: &Vec<RawConn>, images: &Assoc<u32, String>, dns: &DnsMap) -> (out: Assoc<
    u32,
    (String, Vec<Conn>),
>)
    ensures
        mapped(out@, |p: (String, Vec<Conn>)| proc_conns(p)) == grouped(
            raw@,
            images@,
            dns.names(),
        ),
{
    let mut out: Assoc<u32, (String, Vec<Conn>)> = Assoc::new();
    let ghost g = |p: (String, Vec<Conn>)| proc_conns(p);
    let mut i: usize = 0;
    assert(raw@.take(0) =~= Seq::empty());
    assert(mapped(out@, g) =~= Seq::empty());
    while i < raw.len()
        invariant
            i <= raw@.len(),
            g == (|p: (String, Vec<Conn>)| proc_conns(p)),
            mapped(out@, g) == grouped(raw@.take(i as int), images@, dns.names()),
        decreases raw@.len() - i,
    {
        let r: RawConn = raw[i];
        assert(raw@.take(i + 1).drop_last() =~= raw@.take(i as int));
        assert(raw@.take(i + 1).last() == r);
        i += 1;
        let path = match images.get(&r.pid) {
            Some(p) => p.clone(),
            None => {
                continue;
            },
        };
        let (path, mut conns) = match out.get(&r.pid) {
            Some(p) => (p.0.clone(), copy_conns(&p.1)),
            None => (path, Vec::new()),
        };
        let ghost before = conns@.map_values(|c: Conn| conn_view(c));
        proof {
            crate::assoc::lemma_mapped(out@, g, r.pid, (path, conns));
            if lookup(out@, r.pid) is None {
                assert(before =~= Seq::empty());
            }
        }
        if conns.len() >= MAX_CONNS_PER_PROC {
            continue;
        }
        let c = Conn {
            remote: r.remote,
            host: dns.lookup(&r.remote.addr),
            local_port: r.local_port,
            direction: direction(r.local_port, r.remote.port),
            state: r.state,
        };
        conns.push(c);
        proof {
            assert(conns@.map_values(|c: Conn| conn_view(c)) =~= before.push(conn_view(c)));
            crate::assoc::lemma_mapped(out@, g, r.pid, (path, conns));
        }
        out.put(r.pid, (path, conns));
    }
    assert(raw@.take(i as int) =~= raw@);
    out
}

/// What is done to have a table.
#[derive(Debug, Clone, Copy, PartialEq, Eq, Structural)]
pub enum Fetch {
    /// It is asked for, with so many bytes of room.
    Read(u32),
    /// It was read.
    Taken,
    /// It cannot be had.
    Nothing,
}

/// What is done next to have a table: `tries` were made, the table needs `size`
/// bytes, and the last try ended with a code. A table may grow between two calls,
/// so one that did not fit is asked for again, so often at most.
pub fn fetch_tcp(tries: u32, size: u32, code: Option<u32>) -> (f: Fetch)
    ensures
        f == (if code == Some(0u32) {
            Fetch::Taken
        } else if code is Some && code != Some(ERROR_INSUFFICIENT_BUFFER) {
            Fetch::Nothing
        } else if tries >= TRIES || size == 0 {
            Fetch::Nothing
        } else {
            Fetch::Read(size)
        }),
{
    if let Some(c) = code {
        if c == 0 {
            return Fetch::Taken;
        }
        if c != ERROR_INSUFFICIENT_BUFFER {
            return Fetch::Nothing;
        }
    }
    if tries >= TRIES || size == 0 {
        Fetch::Nothing
    } else {
        Fetch::Read(size)
    }
}

/// Whether a row is that of a connection between a port here and a far end.
pub open spec fn is_between(row: Seq<u8>, local_port: u16, remote: u32, remote_port: u16) -> bool {
    &&& port_in(row, 8) == local_port
    &&& be_nat(at(row, 12, 4)) == remote
    &&& port_in(row, 16) == remote_port
}

/// The first row of a table between a port here and a far end, from the `i`th.
pub open spec fn row_between(
    table: Seq<u8>,
    i: nat,
    local_port: u16,
    remote: u32,
    remote_port: u16,
) -> nat
    decreases rows(table, ROW_V4 as nat) - i,
{
    if i >= rows(table, ROW_V4 as nat) || is_between(
        row(table, ROW_V4 as nat, i),
        local_port,
        remote,
        remote_port,
    ) {
        i
    } else {
        row_between(table, i + 1, local_port, remote, remote_port)
    }
}

/// A connection that is to be ended: its process, and the bytes that name it, its
/// near address and port and its far address and port.
#[derive(Debug, PartialEq, Eq)]
pub struct Target {
    pub pid: u32,
    pub tuple: Vec<u8>,
}

/// The connection to end between a port here and a far end. There is none for
/// IPv6, of which the platform ends no connections.
pub fn kill_target(table: &[u8], local_port: u16, remote: IpAddr, remote_port: u16) -> (r: Option<
    Target,
>)
    ensures
        match remote {
            IpAddr::V6(_) => r is None,
            IpAddr::V4(a) => {
                let i = row_between(table@, 0, local_port, a, remote_port);
                if i < rows(table@, ROW_V4 as nat) {
                    r matches Some(t) && t.pid == field(row(table@, ROW_V4 as nat, i), 20)
                        && t.tuple@ == at(row(table@, ROW_V4 as nat, i), 4, 16)
                } else {
                    r is None
                }
            },
        },
{
    let want: u32 = match remote {
        IpAddr::V4(a) => a,
        IpAddr::V6(_) => {
            return None;
        },
    };
    assert(table.len() as nat == table@.len());
    let n: usize = row_count(table, ROW_V4);
    let mut i: usize = 0;
    while i < n
        invariant
            i <= n,
            n == rows(table@, ROW_V4 as nat),
            table@.len() <= usize::MAX,
            remote == IpAddr::V4(want),
            row_between(table@, 0, local_port, want, remote_port) == row_between(
                table@,
                i as nat,
                local_port,
                want,
                remote_port,
            ),
        decreases n - i,
    {
        proof {
            lemma_row_fits(table@, ROW_V4 as nat, i as nat);
        }
        let from: usize = 4 + i * ROW_V4;
        let r = vstd::slice::slice_subrange(table, from, from + ROW_V4);
        assert(r@ =~= row(table@, ROW_V4 as nat, i as nat));
        if be_u16_at(r, 8) == local_port && be_u32_at(r, 12) == want && be_u16_at(r, 16)
            == remote_port {
            let tuple = crate::bytes::copy_range(r, 4, 20);
            assert(tuple@ =~= at(r@, 4, 16));
            return Some(Target { pid: le_u32_at(r, 20), tuple });
        }
        i += 1;
    }
    None
}

/// Whether a connection may be ended: not one of a process of the system's, whose
/// session is the first, nor one whose session is not known.
pub fn may_end(session: Option<u32>) -> (r: bool)
    ensures
        r == (session is Some && session != Some(0u32)),
{
    match session {
        Some(s) => s != 0,
        None => false,
    }
}

/// A row of the IPv4 table reads back: the peer, the local port and the process
/// stand where they were written. Sockets that listen or are closed are left out, and
/// a connection is active while it is established.
pub proof fn law_v4_rows_read_back(
    state: u32,
    local: Seq<u8>,
    local_port: u16,
    remote: u32,
    remote_port: u16,
    pid: u32,
    gap: Seq<u8>,
)
    requires
        local.len() == 4,
        gap.len() == 2,
    ensures
        row_v4(
            le_bytes(state as nat, 4) + local + be_bytes(local_port as nat, 2) + gap + be_bytes(
                remote as nat,
                4,
            ) + be_bytes(remote_port as nat, 2) + gap + le_bytes(pid as nat, 4),
        ) == (if state == 1 || state == 2 {
            None
        } else {
            Some(
                RawConn {
                    pid,
                    remote: Endpoint {
                        addr: IpAddr::V4(remote),
                        port: remote_port,
                        protocol: Protocol::Tcp,
                    },
                    local_port,
                    state: if state == 5 {
                        ConnState::Active
                    } else {
                        ConnState::Closing
                    },
                },
            )
        }),
{
    let (s, p) = (le_bytes(state as nat, 4), le_bytes(pid as nat, 4));
    let (lp, rp) = (be_bytes(local_port as nat, 2), be_bytes(remote_port as nat, 2));
    let r = be_bytes(remote as nat, 4);
    let row = s + local + lp + gap + r + rp + gap + p;
    lemma_numbers(state, pid, local_port, remote_port);
    crate::bytes::lemma_pow256_values();
    crate::bytes::lemma_be_bytes_len(remote as nat, 4);
    crate::bytes::law_be_round_trip(remote as nat, 4);
    assert(at(row, 0, 4) =~= s);
    assert(at(row, 8, 2) =~= lp);
    assert(at(row, 12, 4) =~= r);
    assert(at(row, 16, 2) =~= rp);
    assert(at(row, 20, 4) =~= p);
}

proof fn lemma_numbers(a: u32, b: u32, c: u16, d: u16)
    ensures
        le_bytes(a as nat, 4).len() == 4 && le_nat(le_bytes(a as nat, 4)) == a,
        le_bytes(b as nat, 4).len() == 4 && le_nat(le_bytes(b as nat, 4)) == b,
        be_bytes(c as nat, 2).len() == 2 && be_nat(be_bytes(c as nat, 2)) == c,
        be_bytes(d as nat, 2).len() == 2 && be_nat(be_bytes(d as nat, 2)) == d,
{
    crate::bytes::lemma_pow256_values();
    crate::bytes::lemma_le_bytes_len(a as nat, 4);
    crate::bytes::lemma_le_bytes_len(b as nat, 4);
    crate::bytes::lemma_be_bytes_len(c as nat, 2);
    crate::bytes::lemma_be_bytes_len(d as nat, 2);
    crate::bytes::law_le_round_trip(a as nat, 4);
    crate::bytes::law_le_round_trip(b as nat, 4);
    crate::bytes::law_be_round_trip(c as nat, 2);
    crate::bytes::law_be_round_trip(d as nat, 2);
}

/// A row of the IPv6 table reads back in the same way.
pub proof fn law_v6_rows_read_back(
    state: u32,
    local: Seq<u8>,
    local_port: u16,
    remote: u128,
    remote_port: u16,
    pid: u32,
    gap: Seq<u8>,
    scope: Seq<u8>,
)
    requires
        local.len() == 16,
        scope.len() == 4,
        gap.len() == 2,
    ensures
        row_v6(
            local + scope + be_bytes(local_port as nat, 2) + gap + be_bytes(remote as nat, 16)
                + scope + be_bytes(remote_port as nat, 2) + gap + le_bytes(state as nat, 4)
                + le_bytes(pid as nat, 4),
        ) == (if state == 1 || state == 2 {
            None
        } else {
            Some(
                RawConn {
                    pid,
                    remote: Endpoint {
                        addr: IpAddr::V6(remote),
                        port: remote_port,
                        protocol: Protocol::Tcp,
                    },
                    local_port,
                    state: if state == 5 {
                        ConnState::Active
                    } else {
                        ConnState::Closing
                    },
                },
            )
        }),
{
    let (s, p) = (le_bytes(state as nat, 4), le_bytes(pid as nat, 4));
    let (lp, rp) = (be_bytes(local_port as nat, 2), be_bytes(remote_port as nat, 2));
    let r = be_bytes(remote as nat, 16);
    let row = local + scope + lp + gap + r + scope + rp + gap + s + p;
    lemma_numbers(state, pid, local_port, remote_port);
    crate::bytes::lemma_pow256_values();
    crate::bytes::lemma_be_bytes_len(remote as nat, 16);
    crate::bytes::law_be_round_trip(remote as nat, 16);
    assert(at(row, 20, 2) =~= lp);
    assert(at(row, 24, 16) =~= r);
    assert(at(row, 44, 2) =~= rp);
    assert(at(row, 48, 4) =~= s);
    assert(at(row, 52, 4) =~= p);
}

/// The rows of a table follow its count, one behind the other, and each that is a
/// connection is taken in its order. No more are read than the table says or holds.
pub proof fn law_rows_follow_their_count(table: Seq<u8>, n: nat)
    ensures
        conns_v4(table, n + 1) == (match row_v4(
            table.subrange(4 + 24 * n as int, 28 + 24 * n as int),
        ) {
            Some(c) => conns_v4(table, n).push(c),
            None => conns_v4(table, n),
        }),
        conns_v6(table, n + 1) == (match row_v6(
            table.subrange(4 + 56 * n as int, 60 + 56 * n as int),
        ) {
            Some(c) => conns_v6(table, n).push(c),
            None => conns_v6(table, n),
        }),
        conns_v4(table, 0).len() == 0,
        conns_v6(table, 0).len() == 0,
        table.len() >= 4 ==> rows(table, 24) <= le_nat(table.subrange(0, 4)),
        table.len() >= 4 ==> 4 + 24 * rows(table, 24) <= table.len(),
        table.len() >= 4 ==> rows(table, 24) == le_nat(table.subrange(0, 4)) || 4 + 24 * (rows(
            table,
            24,
        ) + 1) > table.len(),
        table.len() >= 4 ==> rows(table, 56) <= le_nat(table.subrange(0, 4)),
        table.len() >= 4 ==> 4 + 56 * rows(table, 56) <= table.len(),
        table.len() >= 4 ==> rows(table, 56) == le_nat(table.subrange(0, 4)) || 4 + 56 * (rows(
            table,
            56,
        ) + 1) > table.len(),
        table.len() < 4 ==> rows(table, 24) == 0 && rows(table, 56) == 0,
{
}

/// A process whose program is known is listed with the first sixty-four of its
/// connections, in the order of the rows; one without connections, or whose program
/// is not known, is not listed.
pub proof fn law_connections_are_listed_by_process(
    conns: Seq<RawConn>,
    images: Seq<(u32, String)>,
    names: Seq<(IpAddr, Seq<char>)>,
    pid: u32,
)
    ensures
        crate::assoc::distinct(grouped(conns, images, names)),
        ({
            let own = conns.filter(|c: RawConn| c.pid == pid);
            let first = if own.len() > 64 {
                own.take(64)
            } else {
                own
            };
            lookup(grouped(conns, images, names), pid) == (if own.len() > 0 && has_key(
                images,
                pid,
            ) {
                Some(
                    ProcConns {
                        path: lookup(images, pid)->0@,
                        conns: first.map_values(|c: RawConn| conn_of(c, names)),
                    },
                )
            } else {
                None
            })
        }),
    decreases conns.len(),
{
    reveal(Seq::filter);
    let keep = |c: RawConn| c.pid == pid;
    let show = |c: RawConn| conn_of(c, names);
    if conns.len() > 0 {
        let front = conns.drop_last();
        let c = conns.last();
        let before = grouped(front, images, names);
        law_connections_are_listed_by_process(front, images, names, pid);
        let old = front.filter(keep);
        let own = conns.filter(keep);
        if has_key(images, c.pid) {
            law_connections_are_listed_by_process(front, images, names, c.pid);
            let p = match lookup(before, c.pid) {
                Some(p) => p,
                None => ProcConns { path: lookup(images, c.pid)->0@, conns: Seq::empty() },
            };
            let v = ProcConns { path: p.path, conns: p.conns.push(conn_of(c, names)) };
            crate::assoc::law_put(before, c.pid, v, pid);
            if c.pid == pid {
                if old.len() < 64 {
                    assert(own.map_values(show) =~= old.map_values(show).push(show(c)));
                    assert(p.conns =~= old.map_values(show));
                } else {
                    assert(own.take(64) =~= if old.len() > 64 {
                        old.take(64)
                    } else {
                        old
                    });
                }
            }
        }
    }
}

/// A connection is shown with its peer, the peer's name where one is known, and its
/// own port; the end with the lower port is the server.
pub proof fn law_connections_are_shown_as_they_are(c: RawConn, names: Seq<(IpAddr, Seq<char>)>)
    ensures
        ({
            let v = conn_of(c, names);
            &&& v.remote == c.remote
            &&& v.host == lookup(names, c.remote.addr)
            &&& v.local_port == c.local_port
            &&& v.state == c.state
            &&& (v.direction is Inbound <==> c.local_port < c.remote.port)
        }),
{
}

/// The row that is found for a connection has exactly its ports and its peer, and is
/// the first that has; where none has, none is found.
pub proof fn law_the_row_of_a_connection_is_found(
    table: Seq<u8>,
    i: nat,
    local_port: u16,
    remote: u32,
    remote_port: u16,
)
    requires
        i <= rows(table, 24),
    ensures
        ({
            let k = row_between(table, i, local_port, remote, remote_port);
            &&& i <= k <= rows(table, 24)
            &&& k < rows(table, 24) ==> port_in(row(table, 24, k), 8) == local_port && be_nat(
                at(row(table, 24, k), 12, 4),
            ) == remote && port_in(row(table, 24, k), 16) == remote_port
            &&& forall|j: nat|
                i <= j < k ==> !(port_in(#[trigger] row(table, 24, j), 8) == local_port && be_nat(
                    at(row(table, 24, j), 12, 4),
                ) == remote && port_in(row(table, 24, j), 16) == remote_port)
        }),
    decreases rows(table, 24) - i,
{
    if i < rows(table, 24) && !is_between(row(table, 24, i), local_port, remote, remote_port) {
        law_the_row_of_a_connection_is_found(table, i + 1, local_port, remote, remote_port);
    }
}

} // verus!
