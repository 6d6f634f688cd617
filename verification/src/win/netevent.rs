//! The connections that asking first has dropped.

use crate::assoc::{lookup, put, Assoc};
use crate::ip::IpAddr;
use crate::model::{lowercase, AppId, Direction, Endpoint, Protocol};
use crate::text::{
    chars_of, copy_chars, has_prefix, same_ascii, same_letters, starts_with, text_of, trimmed,
};
use crate::utf16::{decoded, lossy};
use vstd::prelude::*;

verus! {

/// How long the drives' devices are taken to stay as they are.
pub const DRIVES_MS: u64 = 30_000;

/// The number of UDP.
pub const IPPROTO_UDP: u8 = 17;

/// A connection that a filter that asks first has dropped.
#[derive(Debug, PartialEq, Eq)]
pub struct DeniedConnection {
    pub app: AppId,
    pub remote: Endpoint,
    pub direction: Direction,
}

/// Filters with their directions; of one that is listed twice, the later
/// direction counts.
pub open spec fn table_of(ids: Seq<(u64, Direction)>) -> Seq<(u64, Direction)>
    decreases ids.len(),
{
    if ids.len() == 0 {
        Seq::empty()
    } else {
        put(table_of(ids.drop_last()), ids.last().0, ids.last().1)
    }
}

/// The filters that ask first, with the direction of each.
pub struct AskFilters {
    by_id: Assoc<u64, Direction>,
}

impl AskFilters {
    /// The direction of each filter.
    pub closed spec fn table(&self) -> Seq<(u64, Direction)> {
        self.by_id@
    }

    /// No filter.
    pub fn new() -> (f: AskFilters)
        ensures
            f.table() == Seq::<(u64, Direction)>::empty(),
    {
        AskFilters { by_id: Assoc::new() }
    }

    /// Sets the filters. What any other filter drops is a block that the user
    /// asked for.
    pub fn set_ask_filters(&mut self, ids: &Vec<(u64, Direction)>)
        ensures
            final(self).table() == table_of(ids@),
    {
        let mut by_id: Assoc<u64, Direction> = Assoc::new();
        let mut i: usize = 0;
        while i < ids.len()
            invariant
                i <= ids@.len(),
                by_id@ == table_of(ids@.take(i as int)),
            decreases ids@.len() - i,
        {
            assert(ids@.take(i + 1).drop_last() =~= ids@.take(i as int));
            by_id.put(ids[i].0, ids[i].1);
            i += 1;
        }
        assert(ids@.take(i as int) =~= ids@);
        self.by_id = by_id;
    }

    /// The direction of a filter that asks first.
    pub fn direction(&self, id: u64) -> (r: Option<Direction>)
        ensures
            r == lookup(self.table(), id),
    {
        match self.by_id.get(&id) {
            Some(d) => Some(*d),
            None => None,
        }
    }
}

/// A report of the platform's, as far as it says something.
#[derive(Debug)]
pub struct NetEvent {
    /// Whether a filter dropped something.
    pub dropped: bool,
    pub filter_id: u64,
    /// The application, as sixteen-bit units that end at a zero.
    pub app_id: Option<Vec<u16>>,
    pub v6: bool,
    pub remote: Option<IpAddr>,
    pub ip_protocol: Option<u8>,
    pub remote_port: Option<u16>,
}

/// The units before the first zero.
pub open spec fn before_zero(u: Seq<u16>) -> Seq<u16>
    decreases u.len(),
{
    if u.len() == 0 || u[0] == 0 {
        Seq::empty()
    } else {
        seq![u[0]] + before_zero(u.drop_first())
    }
}

/// How many units stand before the first zero.
fn zero_at(u: &[u16]) -> (n: usize)
    ensures
        n <= u@.len(),
        u@.take(n as int) == before_zero(u@),
{
    let mut i: usize = 0;
    assert(u@.skip(0) =~= u@);
    assert(u@.take(0) + before_zero(u@) =~= before_zero(u@));
    while i < u.len() && u[i] != 0
        invariant
            i <= u@.len(),
            u@.take(i as int) + before_zero(u@.skip(i as int)) == before_zero(u@),
        decreases u@.len() - i,
    {
        let ghost rest = u@.skip(i as int);
        assert(rest.drop_first() =~= u@.skip(i + 1));
        assert(u@.take(i + 1) =~= u@.take(i as int) + seq![rest[0]]);
        assert(u@.take(i as int) + before_zero(rest) =~= u@.take(i + 1) + before_zero(
            u@.skip(i + 1),
        ));
        i += 1;
    }
    assert(before_zero(u@.skip(i as int)) =~= Seq::empty());
    assert(u@.take(i as int) =~= before_zero(u@));
    i
}

/// Whether a path starts at a device.
pub open spec fn on_device(path: Seq<char>) -> bool {
    has_prefix(path, "\\device\\"@) || has_prefix(path, "\\Device\\"@)
}

/// The first of the devices that a path starts with, with more behind it.
pub open spec fn device_at(drives: Seq<(String, String)>, path: Seq<char>) -> nat
    decreases drives.len(),
{
    if drives.len() == 0 || leads(drives[0].0@, path) {
        0
    } else {
        1 + device_at(drives.drop_first(), path)
    }
}

/// Whether a path starts with a device, in any case, with more behind it.
pub open spec fn leads(device: Seq<char>, path: Seq<char>) -> bool {
    path.len() > device.len() && same_ascii(path.take(device.len() as int), device)
}

/// A path with its device replaced by the drive's letter.
pub open spec fn drive_path(path: Seq<char>, drives: Seq<(String, String)>) -> Seq<char> {
    let k = device_at(drives, path);
    if on_device(path) && k < drives.len() {
        drives[k as int].1@ + path.skip(drives[k as int].0@.len() as int)
    } else {
        path
    }
}

/// A path with its device replaced by the drive's letter, where one of the drives
/// is on the device.
pub fn to_drive_path(path: &str, drives: &Vec<(String, String)>) -> (r: String)
    ensures
        r@ == drive_path(path@, drives@),
{
    let chars = chars_of(path);
    let lower = chars_of("\\device\\");
    let upper = chars_of("\\Device\\");
    if !starts_with(chars.as_slice(), lower.as_slice()) && !starts_with(
        chars.as_slice(),
        upper.as_slice(),
    ) {
        return text_of(chars.as_slice());
    }
    let mut i: usize = 0;
    assert(drives@.skip(0) =~= drives@);
    while i < drives.len()
        invariant
            i <= drives@.len(),
            chars@ == path@,
            on_device(path@),
            device_at(drives@, path@) == i + device_at(drives@.skip(i as int), path@),
        decreases drives@.len() - i,
    {
        assert(drives@.skip(i as int).drop_first() =~= drives@.skip(i + 1));
        let device = chars_of(drives[i].0.as_str());
        if chars.len() > device.len() {
            let head = copy_chars(chars.as_slice(), 0, device.len());
            assert(head@ =~= path@.take(device@.len() as int));
            if same_letters(head.as_slice(), device.as_slice()) {
                assert(leads(drives@.skip(i as int)[0].0@, path@));
                let tail = copy_chars(chars.as_slice(), device.len(), chars.len());
                assert(tail@ =~= path@.skip(device@.len() as int));
                let mut r = drives[i].1.clone();
                let t = text_of(tail.as_slice());
                r.push_str(t.as_str());
                return r;
            }
        }
        i += 1;
    }
    text_of(chars.as_slice())
}

/// The path of an application that a report names.
pub open spec fn path_in(units: Seq<u16>, drives: Seq<(String, String)>) -> Option<Seq<char>> {
    let path = decoded(before_zero(units));
    if path.len() == 0 {
        None
    } else {
        Some(drive_path(path, drives))
    }
}

/// The path of an application that a report names.
pub fn app_id_path(units: &[u16], drives: &Vec<(String, String)>) -> (r: Option<String>)
    ensures
        match r {
            Some(p) => path_in(units@, drives@) == Some(p@),
            None => path_in(units@, drives@) is None,
        },
{
    let n: usize = zero_at(units);
    let part = vstd::slice::slice_subrange(units, 0, n);
    assert(part@ =~= before_zero(units@));
    let path = lossy(part);
    if path.as_str().is_empty() {
        None
    } else {
        Some(to_drive_path(path.as_str(), drives))
    }
}

/// The far end that a report names, as far as it does.
pub open spec fn remote_of(e: NetEvent) -> Endpoint {
    Endpoint {
        addr: match e.remote {
            Some(a) => a,
            None => if e.v6 {
                IpAddr::V6(0)
            } else {
                IpAddr::V4(0)
            },
        },
        port: match e.remote_port {
            Some(p) => p,
            None => 0,
        },
        protocol: if e.ip_protocol == Some(IPPROTO_UDP) {
            Protocol::Udp
        } else {
            Protocol::Tcp
        },
    }
}

/// What a report means: a connection that was dropped by a filter that asks
/// first, of an application that is named.
pub fn on_net_event(e: &NetEvent, filters: &AskFilters, drives: &Vec<(String, String)>) -> (r:
    Option<DeniedConnection>)
    ensures
        r is Some == (e.dropped && lookup(filters.table(), e.filter_id) is Some && e.app_id is Some
            && path_in(e.app_id->Some_0@, drives@) is Some),
        r matches Some(d) ==> {
            &&& d.app@ == lowercase(trimmed(path_in(e.app_id->Some_0@, drives@)->Some_0))
            &&& d.remote == remote_of(*e)
            &&& Some(d.direction) == lookup(filters.table(), e.filter_id)
        },
{
    if !e.dropped {
        return None;
    }
    let direction: Direction = match filters.direction(e.filter_id) {
        Some(d) => d,
        None => {
            return None;
        },
    };
    let path = match &e.app_id {
        Some(units) => match app_id_path(units.as_slice(), drives) {
            Some(p) => p,
            None => {
                return None;
            },
        },
        None => {
            return None;
        },
    };
    let addr: IpAddr = match e.remote {
        Some(a) => a,
        None => {
            if e.v6 {
                IpAddr::V6(0)
            } else {
                IpAddr::V4(0)
            }
        },
    };
    let port: u16 = match e.remote_port {
        Some(p) => p,
        None => 0,
    };
    let udp: bool = match e.ip_protocol {
        Some(p) => p == IPPROTO_UDP,
        None => false,
    };
    let protocol: Protocol = if udp {
        Protocol::Udp
    } else {
        Protocol::Tcp
    };
    Some(
        DeniedConnection {
            app: AppId::from_caseless_path(path.as_str()),
            remote: Endpoint { addr, port, protocol },
            direction,
        },
    )
}

/// The devices of the drives, and when they were listed. Times are milliseconds
/// since some start.
#[derive(Debug)]
pub struct Drives {
    pub listed_at: Option<u64>,
    pub list: Vec<(String, String)>,
}

impl Drives {
    /// Nothing listed.
    pub fn new() -> (d: Drives)
        ensures
            d.listed_at is None,
            d.list@.len() == 0,
    {
        Drives { listed_at: None, list: Vec::new() }
    }

    /// Whether the drives are to be listed again.
    pub fn needs_refresh(&self, now: u64) -> (r: bool)
        ensures
            r == match self.listed_at {
                Some(at) => now - at >= DRIVES_MS || self.list@.len() == 0,
                None => true,
            },
    {
        match self.listed_at {
            Some(at) => now.saturating_sub(at) >= DRIVES_MS || self.list.len() == 0,
            None => true,
        }
    }

    /// Takes a new list.
    pub fn refresh(&mut self, list: Vec<(String, String)>, now: u64)
        ensures
            final(self).listed_at == Some(now),
            final(self).list == list,
    {
        self.list = list;
        self.listed_at = Some(now);
    }
}

/// The device of a drive, with the drive's name, from what the platform says of
/// it: units that end at a zero. A drive without a device is left out.
pub fn device_of(drive: &str, target: &[u16]) -> (r: Option<(String, String)>)
    ensures
        r is Some == (before_zero(target@).len() > 0 && before_zero(target@).len() < target@.len()),
        r matches Some(p) ==> p.0@ == decoded(before_zero(target@)) && p.1@ == drive@,
{
    let n: usize = zero_at(target);
    assert(before_zero(target@).len() == n);
    if n == 0 || n >= target.len() {
        return None;
    }
    let part = vstd::slice::slice_subrange(target, 0, n);
    assert(part@ =~= before_zero(target@));
    Some((lossy(part), crate::text::owned(drive)))
}

/// The direction of a filter is the one it was set with last, and filters that were
/// not set have none.
pub proof fn law_filters_keep_their_direction(ids: Seq<(u64, Direction)>, one: (u64, Direction), id: u64)
    ensures
        crate::assoc::distinct(table_of(ids)),
        lookup(table_of(ids.push(one)), id) == (if id == one.0 {
            Some(one.1)
        } else {
            lookup(table_of(ids), id)
        }),
        lookup(table_of(Seq::empty()), id) is None,
    decreases ids.len(),
{
    if ids.len() > 0 {
        law_filters_keep_their_direction(ids.drop_last(), ids.last(), id);
        crate::assoc::law_put(table_of(ids.drop_last()), ids.last().0, ids.last().1, id);
    }
    assert(ids.push(one).drop_last() =~= ids);
    crate::assoc::law_put(table_of(ids), one.0, one.1, id);
}

/// A path ends before its first zero.
pub proof fn law_paths_end_at_the_zero(u: Seq<u16>, rest: Seq<u16>)
    requires
        !u.contains(0),
    ensures
        before_zero(u + seq![0u16] + rest) == u,
        before_zero(u) == u,
    decreases u.len(),
{
    let s = u + seq![0u16] + rest;
    if u.len() > 0 {
        let t = u.drop_first();
        assert(u.contains(u[0]));
        assert forall|c: u16| t.contains(c) implies u.contains(c) by {
            let i = choose|i: int| 0 <= i < t.len() && t[i] == c;
            assert(u[i + 1] == c);
        }
        law_paths_end_at_the_zero(t, rest);
        assert(s[0] == u[0]);
        assert(s.drop_first() =~= t + seq![0u16] + rest);
        assert(seq![u[0]] + t =~= u);
    } else {
        assert(s[0] == 0);
    }
}

/// A path on a device becomes one on the drive that stands for the device, the first
/// in the list, with the rest of the path as it is. A path that names no device, or
/// one without a drive, stays.
pub proof fn law_devices_become_drives(
    drives: Seq<(String, String)>,
    k: int,
    rest: Seq<char>,
    path: Seq<char>,
)
    requires
        0 <= k < drives.len(),
        rest.len() > 0,
        on_device(drives[k].0@ + rest),
        forall|i: int| 0 <= i < k ==> !leads((#[trigger] drives[i]).0@, drives[k].0@ + rest),
    ensures
        drive_path(drives[k].0@ + rest, drives) == drives[k].1@ + rest,
        !on_device(path) ==> drive_path(path, drives) == path,
        (forall|i: int| 0 <= i < drives.len() ==> !leads((#[trigger] drives[i]).0@, path))
            ==> drive_path(path, drives) == path,
{
    let d = drives[k].0@;
    let whole = d + rest;
    assert(whole.take(d.len() as int) =~= d);
    assert(whole.skip(d.len() as int) =~= rest);
    lemma_same(d);
    lemma_device_at(drives, whole);
    lemma_device_at(drives, path);
    let j = device_at(drives, whole) as int;
    if j < k {
        assert(!leads(drives[j].0@, whole));
    }
    if j > k {
        assert(!leads(drives[k].0@, whole));
    }
}

proof fn lemma_same(d: Seq<char>)
    ensures
        same_ascii(d, d),
{
}

proof fn lemma_device_at(drives: Seq<(String, String)>, path: Seq<char>)
    ensures
        device_at(drives, path) <= drives.len(),
        device_at(drives, path) < drives.len() ==> leads(
            drives[device_at(drives, path) as int].0@,
            path,
        ),
        forall|i: int|
            0 <= i < device_at(drives, path) ==> !leads((#[trigger] drives[i]).0@, path),
    decreases drives.len(),
{
    if drives.len() > 0 && !leads(drives[0].0@, path) {
        let t = drives.drop_first();
        lemma_device_at(t, path);
        assert forall|i: int| 0 <= i < device_at(drives, path) implies !leads(
            (#[trigger] drives[i]).0@,
            path,
        ) by {
            if i > 0 {
                assert(t[i - 1] == drives[i]);
            }
        }
    }
}

/// A dropped connection is shown with its peer as it was reported; what was not
/// reported is zero, of the event's own family, and any protocol but UDP is TCP.
pub proof fn law_dropped_connections_show_their_peer(e: NetEvent)
    ensures
        e.remote is Some ==> remote_of(e).addr == e.remote->0,
        e.remote is None && e.v6 ==> remote_of(e).addr == IpAddr::V6(0),
        e.remote is None && !e.v6 ==> remote_of(e).addr == IpAddr::V4(0),
        e.remote_port is Some ==> remote_of(e).port == e.remote_port->0,
        e.remote_port is None ==> remote_of(e).port == 0,
        (remote_of(e).protocol is Udp) == (e.ip_protocol == Some(17u8)),
{
}

} // verus!
