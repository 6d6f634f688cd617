//! The platform's events about traffic and names.

use crate::ip::IpAddr;
use crate::model::AdapterKind;
use crate::text::owned;
use crate::win::dns::{learned, DnsMap};
use vstd::prelude::*;

verus! {

/// The provider of events about traffic.
pub const KERNEL_NETWORK_GUID: &'static str = "7dd42a49-5329-4832-8dfd-43d979153a88";

/// The provider of events about names.
pub const DNS_CLIENT_GUID: &'static str = "1c95126e-7eea-49a9-a3fe-a378b03ddb4d";

/// The event that a name was resolved.
pub const DNS_QUERY_COMPLETE: u16 = 3008;

/// Which way bytes went.
#[derive(Debug, Clone, Copy, PartialEq, Eq, Structural)]
pub enum Dir {
    Sent,
    Recv,
}

/// Which way the bytes of an event went: TCP and UDP, each for IPv4 and IPv6.
pub fn direction(event_id: u16) -> (r: Option<Dir>)
    ensures
        r == (if event_id == 10 || event_id == 26 || event_id == 42 || event_id == 58 {
            Some(Dir::Sent)
        } else if event_id == 11 || event_id == 27 || event_id == 43 || event_id == 59 {
            Some(Dir::Recv)
        } else {
            None::<Dir>
        }),
{
    if event_id == 10 || event_id == 26 || event_id == 42 || event_id == 58 {
        Some(Dir::Sent)
    } else if event_id == 11 || event_id == 27 || event_id == 43 || event_id == 59 {
        Some(Dir::Recv)
    } else {
        None
    }
}

/// Bytes of a process that an event reports.
#[derive(Debug, Clone, Copy, PartialEq, Eq, Structural)]
pub struct Traffic {
    pub dir: Dir,
    pub pid: u32,
    pub size: u32,
}

/// The bytes that an event reports, where it is about traffic, says whose and how
/// many, and neither is nothing.
pub fn on_net_event(dir: Option<Dir>, pid: Option<u32>, size: Option<u32>) -> (r: Option<Traffic>)
    ensures
        r == (match (dir, pid, size) {
            (Some(dir), Some(pid), Some(size)) => if pid != 0 && size != 0 {
                Some(Traffic { dir, pid, size })
            } else {
                None
            },
            _ => None,
        }),
{
    match (dir, pid, size) {
        (Some(dir), Some(pid), Some(size)) => {
            if pid != 0 && size != 0 {
                Some(Traffic { dir, pid, size })
            } else {
                None
            }
        },
        _ => None,
    }
}

/// The ends of traffic, the one that is expected to be this host's first. An
/// event names where its packet came from and where it went.
pub fn ends(dir: Dir, source: Option<IpAddr>, target: Option<IpAddr>) -> (r: Option<
    (IpAddr, IpAddr),
>)
    ensures
        r == (match (source, target) {
            (Some(s), Some(t)) => Some(
                match dir {
                    Dir::Sent => (s, t),
                    Dir::Recv => (t, s),
                },
            ),
            _ => None,
        }),
{
    match (source, target) {
        (Some(s), Some(t)) => match dir {
            Dir::Sent => Some((s, t)),
            Dir::Recv => Some((t, s)),
        },
        _ => None,
    }
}

/// Bytes that are charged to a process.
#[derive(Debug)]
pub struct Charge {
    pub pid: u32,
    pub path: String,
    pub kind: AdapterKind,
    pub sent: u64,
    pub recv: u64,
}

/// The charge for traffic, where the process's image is known. Traffic between
/// ends that are not known is no known adapter's.
pub fn charge(t: Traffic, path: Option<String>, kind: Option<AdapterKind>) -> (r: Option<Charge>)
    ensures
        match path {
            None => r is None,
            Some(p) => r == Some(
                Charge {
                    pid: t.pid,
                    path: p,
                    kind: match kind {
                        Some(k) => k,
                        None => AdapterKind::Other,
                    },
                    sent: if t.dir == Dir::Sent {
                        t.size as u64
                    } else {
                        0
                    },
                    recv: if t.dir == Dir::Sent {
                        0
                    } else {
                        t.size as u64
                    },
                },
            ),
        },
{
    match path {
        None => None,
        Some(path) => {
            let (sent, recv) = match t.dir {
                Dir::Sent => (t.size as u64, 0u64),
                Dir::Recv => (0u64, t.size as u64),
            };
            Some(
                Charge {
                    pid: t.pid,
                    path,
                    kind: match kind {
                        Some(k) => k,
                        None => AdapterKind::Other,
                    },
                    sent,
                    recv,
                },
            )
        },
    }
}

/// Takes an event about a name, where it says that one was resolved.
pub fn on_dns_event(map: &mut DnsMap, event_id: u16, host: Option<String>, results: Option<String>)
    ensures
        final(map).names() == (if event_id == DNS_QUERY_COMPLETE && host is Some {
            learned(
                old(map).names(),
                host->Some_0@,
                match results {
                    Some(r) => r@,
                    None => Seq::empty(),
                },
            )
        } else {
            old(map).names()
        }),
{
    if event_id != DNS_QUERY_COMPLETE {
        return;
    }
    if let Some(h) = host {
        match results {
            Some(r) => map.record_results(h.as_str(), r.as_str()),
            None => {
                let none = String::new();
                assert(none@ =~= Seq::<char>::empty());
                map.record_results(h.as_str(), none.as_str());
            },
        }
    }
}

/// The sessions that are stopped before new ones start, in case an earlier
/// engine left them.
pub fn stale_sessions() -> (r: (&'static str, &'static str))
    ensures
        r.0@ == "iris-net"@,
        r.1@ == "iris-dns"@,
{
    ("iris-net", "iris-dns")
}

/// What came of starting: whether names are learned, or why nothing is monitored.
/// Traffic is needed; names are not.
pub fn started(net: Result<(), String>, dns: Result<(), String>) -> (r: Result<bool, String>)
    ensures
        match net {
            Ok(_) => r == Result::<bool, String>::Ok(dns is Ok),
            Err(e) => r is Err && r->Err_0@
                == "failed to start ETW network trace (admin required): "@ + e@,
        },
{
    match net {
        Ok(_) => match dns {
            Ok(_) => Ok(true),
            Err(_) => Ok(false),
        },
        Err(e) => {
            let mut s = owned("failed to start ETW network trace (admin required): ");
            s.push_str(e.as_str());
            Err(s)
        },
    }
}

} // verus!
