//! The kinds of adapters by address.

use crate::assoc::{lookup, put, Assoc};
use crate::bytes::{be_bytes, be_nat, be_u128_at, be_u32_at, le_bytes, le_nat, le_u16_at};
use crate::ip::IpAddr;
use crate::model::AdapterKind;
use vstd::prelude::*;

verus! {

/// How long after a listing an unknown address may cause another one.
pub const MISS_REFRESH_MS: u64 = 2_000;

/// What is known of a flow's adapter.
#[derive(Debug, Clone, Copy, PartialEq, Eq, Structural)]
pub enum Adapter {
    Known(AdapterKind),
    /// Neither address is known, and the interfaces may be listed again.
    ListAgain,
}

/// Addresses with the kinds of their adapters; of an address listed twice, the
/// later kind counts.
pub open spec fn table_of(list: Seq<(IpAddr, AdapterKind)>) -> Seq<(IpAddr, AdapterKind)>
    decreases list.len(),
{
    if list.len() == 0 {
        Seq::empty()
    } else {
        put(table_of(list.drop_last()), list.last().0, list.last().1)
    }
}

/// The kind of either address.
pub open spec fn either(
    table: Seq<(IpAddr, AdapterKind)>,
    local: IpAddr,
    other: IpAddr,
) -> Option<AdapterKind> {
    if lookup(table, local) is Some {
        lookup(table, local)
    } else {
        lookup(table, other)
    }
}

/// The kind of the adapter of a flow, when no listing is to be had.
pub open spec fn settled(
    table: Seq<(IpAddr, AdapterKind)>,
    local: IpAddr,
    other: IpAddr,
) -> AdapterKind {
    if local.loops_back() || other.loops_back() {
        AdapterKind::Loopback
    } else {
        match either(table, local, other) {
            Some(k) => k,
            None => AdapterKind::Other,
        }
    }
}

/// The adapters' addresses.
pub struct AdapterMap {
    by_ip: Assoc<IpAddr, AdapterKind>,
    last_refresh_ms: u64,
}

impl AdapterMap {
    /// The kinds by address.
    pub closed spec fn table(&self) -> Seq<(IpAddr, AdapterKind)> {
        self.by_ip@
    }

    /// When the interfaces were listed last.
    pub closed spec fn listed_at(&self) -> u64 {
        self.last_refresh_ms
    }

    /// The addresses that were listed at `now_ms`.
    pub fn new(list: &Vec<(IpAddr, AdapterKind)>, now_ms: u64) -> (m: AdapterMap)
        ensures
            m.table() == table_of(list@),
            m.listed_at() == now_ms,
    {
        let mut m = AdapterMap { by_ip: Assoc::new(), last_refresh_ms: 0 };
        m.refresh(list, now_ms);
        m
    }

    /// Takes a new listing of the interfaces.
    pub fn refresh(&mut self, list: &Vec<(IpAddr, AdapterKind)>, now_ms: u64)
        ensures
            final(self).table() == table_of(list@),
            final(self).listed_at() == now_ms,
    {
        let mut fresh: Assoc<IpAddr, AdapterKind> = Assoc::new();
        let mut i: usize = 0;
        assert(list@.take(0) =~= Seq::empty());
        while i < list.len()
            invariant
                i <= list@.len(),
                fresh@ == table_of(list@.take(i as int)),
            decreases list@.len() - i,
        {
            assert(list@.take(i + 1).drop_last() =~= list@.take(i as int));
            let (ip, kind) = list[i];
            fresh.put(ip, kind);
            i += 1;
        }
        assert(list@.take(i as int) =~= list@);
        self.by_ip = fresh;
        self.last_refresh_ms = now_ms;
    }

    fn find(&self, local: IpAddr, other: IpAddr) -> (r: Option<AdapterKind>)
        ensures
            r == either(self.table(), local, other),
    {
        match self.by_ip.get(&local) {
            Some(k) => Some(*k),
            None => match self.by_ip.get(&other) {
                Some(k) => Some(*k),
                None => None,
            },
        }
    }

    /// The kind of the adapter of a flow between two addresses, of which `local`
    /// is expected to be this host's.
    pub fn kind_for(&self, local: IpAddr, other: IpAddr, now_ms: u64) -> (r: Adapter)
        ensures
            r == (if local.loops_back() || other.loops_back() {
                Adapter::Known(AdapterKind::Loopback)
            } else if either(self.table(), local, other) is Some {
                Adapter::Known(either(self.table(), local, other)->0)
            } else if now_ms - self.listed_at() >= MISS_REFRESH_MS {
                Adapter::ListAgain
            } else {
                Adapter::Known(AdapterKind::Other)
            }),
    {
        if local.is_loopback() || other.is_loopback() {
            return Adapter::Known(AdapterKind::Loopback);
        }
        if let Some(k) = self.find(local, other) {
            return Adapter::Known(k);
        }
        if now_ms.saturating_sub(self.last_refresh_ms) >= MISS_REFRESH_MS {
            Adapter::ListAgain
        } else {
            Adapter::Known(AdapterKind::Other)
        }
    }

    /// The kind of the adapter of a flow, when no listing is to be had: after one
    /// that the flow caused, or where the table was made ready before.
    pub fn settled_kind(&self, local: IpAddr, other: IpAddr) -> (k: AdapterKind)
        ensures
            k == settled(self.table(), local, other),
    {
        if local.is_loopback() || other.is_loopback() {
            return AdapterKind::Loopback;
        }
        match self.find(local, other) {
            Some(k) => k,
            None => AdapterKind::Other,
        }
    }
}

/// The family of short socket addresses.
pub const AF_INET: u16 = 2;

/// The address in a socket address, where long ones are of the family `inet6`.
pub open spec fn address_in(b: Seq<u8>, inet6: u16) -> Option<IpAddr> {
    if b.len() < 2 {
        None
    } else if le_nat(b.subrange(0, 2)) == AF_INET && b.len() >= 8 {
        Some(IpAddr::V4(be_nat(b.subrange(4, 8)) as u32))
    } else if le_nat(b.subrange(0, 2)) == inet6 && b.len() >= 24 {
        Some(IpAddr::V6(be_nat(b.subrange(8, 24)) as u128))
    } else {
        None
    }
}

/// The address in a socket address: behind the family and the port, and behind
/// the flow's number where it is a long one.
pub fn address_of(b: &[u8], inet6: u16) -> (r: Option<IpAddr>)
    ensures
        r == address_in(b@, inet6),
{
    if b.len() < 2 {
        return None;
    }
    let family: u16 = le_u16_at(b, 0);
    if family == AF_INET && b.len() >= 8 {
        Some(IpAddr::V4(be_u32_at(b, 4)))
    } else if family == inet6 && b.len() >= 24 {
        Some(IpAddr::V6(be_u128_at(b, 8)))
    } else {
        None
    }
}

/// Traffic to or from a loopback address is loopback traffic, whatever is listed.
pub proof fn law_loopback_comes_first(
    table: Seq<(IpAddr, AdapterKind)>,
    local: IpAddr,
    other: IpAddr,
)
    requires
        local.loops_back() || other.loops_back(),
    ensures
        settled(table, local, other) == AdapterKind::Loopback,
{
}

/// Other traffic goes through the adapter that has the local address. Where none
/// has, the one with the other address counts; where neither is listed, the adapter
/// is some other one.
pub proof fn law_the_local_adapter_counts(
    list: Seq<(IpAddr, AdapterKind)>,
    local: IpAddr,
    other: IpAddr,
)
    requires
        !local.loops_back(),
        !other.loops_back(),
    ensures
        forall|i: int|
            #![trigger list[i]]
            0 <= i < list.len() && list[i].0 == local && (forall|j: int|
                i < j < list.len() ==> (#[trigger] list[j]).0 != local) ==> settled(
                table_of(list),
                local,
                other,
            ) == list[i].1,
        forall|i: int|
            #![trigger list[i]]
            0 <= i < list.len() && list[i].0 == other && (forall|j: int|
                0 <= j < list.len() ==> (#[trigger] list[j]).0 != local) && (forall|j: int|
                i < j < list.len() ==> (#[trigger] list[j]).0 != other) ==> settled(
                table_of(list),
                local,
                other,
            ) == list[i].1,
        (forall|j: int|
            0 <= j < list.len() ==> (#[trigger] list[j]).0 != local && list[j].0 != other)
            ==> settled(table_of(list), local, other) == AdapterKind::Other,
{
    lemma_table(list, local);
    lemma_table(list, other);
}

proof fn lemma_table(list: Seq<(IpAddr, AdapterKind)>, a: IpAddr)
    ensures
        crate::assoc::distinct(table_of(list)),
        forall|i: int|
            #![trigger list[i]]
            0 <= i < list.len() && list[i].0 == a && (forall|j: int|
                i < j < list.len() ==> (#[trigger] list[j]).0 != a) ==> lookup(table_of(list), a)
                == Some(list[i].1),
        (forall|j: int| 0 <= j < list.len() ==> (#[trigger] list[j]).0 != a) ==> lookup(
            table_of(list),
            a,
        ) is None,
    decreases list.len(),
{
    if list.len() > 0 {
        let front = list.drop_last();
        lemma_table(front, a);
        let (k, v) = list.last();
        crate::assoc::law_put(table_of(front), k, v, a);
        assert forall|i: int|
            #![trigger list[i]]
            0 <= i < list.len() && list[i].0 == a && (forall|j: int|
                i < j < list.len() ==> (#[trigger] list[j]).0 != a) implies lookup(
            table_of(list),
            a,
        ) == Some(list[i].1) by {
            if i < front.len() {
                assert(list[list.len() - 1].0 != a);
                assert(front[i] == list[i]);
                assert forall|j: int| i < j < front.len() implies (#[trigger] front[j]).0 != a by {
                    assert(list[j].0 != a);
                }
            }
        }
        if forall|j: int| 0 <= j < list.len() ==> (#[trigger] list[j]).0 != a {
            assert(list[list.len() - 1].0 != a);
            assert forall|j: int| 0 <= j < front.len() implies (#[trigger] front[j]).0 != a by {
                assert(list[j].0 != a);
            }
        }
    }
}

/// A socket address of IPv4 holds the address behind its family and port, one of
/// IPv6 behind its flow label too. One of another family holds none.
pub proof fn law_socket_addresses_are_read(inet6: u16, port: Seq<u8>, v: u32, w: u128, rest: Seq<u8>)
    requires
        inet6 != 2,
        port.len() == 2,
    ensures
        address_in(
            le_bytes(2, 2) + port + be_bytes(v as nat, 4) + rest,
            inet6,
        ) == Some(IpAddr::V4(v)),
        forall|flow: Seq<u8>|
            flow.len() == 4 ==> #[trigger] address_in(
                le_bytes(inet6 as nat, 2) + port + flow + be_bytes(w as nat, 16) + rest,
                inet6,
            ) == Some(IpAddr::V6(w)),
        forall|family: u16|
            family != 2 && family != inet6 ==> #[trigger] address_in(
                le_bytes(family as nat, 2) + rest,
                inet6,
            ) is None,
{
    crate::bytes::lemma_pow256_values();
    crate::bytes::lemma_be_bytes_len(v as nat, 4);
    crate::bytes::lemma_be_bytes_len(w as nat, 16);
    crate::bytes::law_be_round_trip(v as nat, 4);
    crate::bytes::law_be_round_trip(w as nat, 16);
    lemma_two_bytes(2);
    lemma_two_bytes(inet6);
    let b = le_bytes(2, 2) + port + be_bytes(v as nat, 4) + rest;
    assert(b.subrange(0, 2) =~= le_bytes(2, 2));
    assert(b.subrange(4, 8) =~= be_bytes(v as nat, 4));
    assert forall|flow: Seq<u8>| flow.len() == 4 implies #[trigger] address_in(
        le_bytes(inet6 as nat, 2) + port + flow + be_bytes(w as nat, 16) + rest,
        inet6,
    ) == Some(IpAddr::V6(w)) by {
        let b = le_bytes(inet6 as nat, 2) + port + flow + be_bytes(w as nat, 16) + rest;
        assert(b.subrange(0, 2) =~= le_bytes(inet6 as nat, 2));
        assert(b.subrange(8, 24) =~= be_bytes(w as nat, 16));
    }
    assert forall|family: u16| family != 2 && family != inet6 implies #[trigger] address_in(
        le_bytes(family as nat, 2) + rest,
        inet6,
    ) is None by {
        lemma_two_bytes(family);
        assert((le_bytes(family as nat, 2) + rest).subrange(0, 2) =~= le_bytes(family as nat, 2));
    }
}

proof fn lemma_two_bytes(n: u16)
    ensures
        le_bytes(n as nat, 2).len() == 2,
        le_nat(le_bytes(n as nat, 2)) == n,
{
    crate::bytes::lemma_pow256_values();
    crate::bytes::lemma_le_bytes_len(n as nat, 2);
    crate::bytes::law_le_round_trip(n as nat, 2);
}

} // verus!
