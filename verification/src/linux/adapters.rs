//! The kind of adapter that an address belongs to.

use crate::adapter_map::{address_in, address_of};
use crate::ip::IpAddr;
use crate::model::{lowercase, AdapterKind};
use crate::text::{
    chars_of, contains_text, has_part, has_prefix, parse_dec, parsed_dec, same, starts_with,
    trim_chars, trimmed,
};
use vstd::prelude::*;

verus! {

pub const ARPHRD_ETHER: u64 = 1;

pub const ARPHRD_PPP: u64 = 512;

pub const ARPHRD_LOOPBACK: u64 = 772;

pub const ARPHRD_NONE: u64 = 0xFFFE;

/// What the system says of an interface.
pub struct InterfaceFacts {
    /// Whether it has a wireless directory.
    pub wireless: bool,
    /// Whether it has a wireless device.
    pub phy80211: bool,
    /// Whether it has tunnel flags.
    pub tun_flags: bool,
    /// The text of its hardware type.
    pub hardware: Option<String>,
}

/// Whether a lower-case interface name is that of a tunnel.
pub open spec fn tunnel_name(lower: Seq<char>) -> bool {
    ||| has_prefix(lower, "tun"@)
    ||| has_prefix(lower, "tap"@)
    ||| has_prefix(lower, "wg"@)
    ||| has_prefix(lower, "ppp"@)
    ||| has_prefix(lower, "tailscale"@)
    ||| has_prefix(lower, "zt"@)
    ||| has_prefix(lower, "utun"@)
    ||| has_prefix(lower, "gpd"@)
    ||| has_part(lower, "vpn"@)
    ||| has_part(lower, "wireguard"@)
    ||| has_part(lower, "zerotier"@)
    ||| has_part(lower, "warp"@)
}

fn begins(s: &[char], p: &str) -> (r: bool)
    ensures
        r == has_prefix(s@, p@),
{
    let c = chars_of(p);
    starts_with(s, c.as_slice())
}

fn holds(s: &[char], p: &str) -> (r: bool)
    ensures
        r == has_part(s@, p@),
{
    let c = chars_of(p);
    contains_text(s, c.as_slice())
}

/// Whether a lower-case interface name is that of a tunnel.
pub fn is_tunnel_name(lower: &str) -> (r: bool)
    ensures
        r == tunnel_name(lower@),
{
    let c = chars_of(lower);
    let s = c.as_slice();
    begins(s, "tun") || begins(s, "tap") || begins(s, "wg") || begins(s, "ppp") || begins(
        s,
        "tailscale",
    ) || begins(s, "zt") || begins(s, "utun") || begins(s, "gpd") || holds(s, "vpn") || holds(
        s,
        "wireguard",
    ) || holds(s, "zerotier") || holds(s, "warp")
}

/// Whether an interface name is that of a tunnel, in any case.
pub fn is_vpn_name(name: &str) -> (r: bool)
    ensures
        r == tunnel_name(lowercase(name@)),
{
    let lower = name.to_lowercase();
    is_tunnel_name(lower.as_str())
}

/// The hardware type of an interface.
pub open spec fn hardware_of(f: InterfaceFacts) -> Option<nat> {
    match f.hardware {
        Some(t) => parsed_dec(trimmed(t@), u32::MAX as nat),
        None => None,
    }
}

/// The kind of an interface whose name, in lower case, is `lower`.
pub open spec fn kind_of(name: Seq<char>, lower: Seq<char>, f: InterfaceFacts) -> AdapterKind {
    if name == "lo"@ {
        AdapterKind::Loopback
    } else if f.wireless || f.phy80211 {
        AdapterKind::Wifi
    } else if f.tun_flags || hardware_of(f) == Some(ARPHRD_NONE as nat) || tunnel_name(lower) {
        AdapterKind::Vpn
    } else if hardware_of(f) == Some(ARPHRD_LOOPBACK as nat) {
        AdapterKind::Loopback
    } else if hardware_of(f) == Some(ARPHRD_ETHER as nat) {
        AdapterKind::Ethernet
    } else if hardware_of(f) == Some(ARPHRD_PPP as nat) {
        AdapterKind::Vpn
    } else {
        AdapterKind::Other
    }
}

/// The kind of an interface, given its name in lower case.
pub fn classify_named(name: &str, lower: &str, f: &InterfaceFacts) -> (k: AdapterKind)
    ensures
        k == kind_of(name@, lower@, *f),
{
    if same(name, "lo") {
        return AdapterKind::Loopback;
    }
    if f.wireless || f.phy80211 {
        return AdapterKind::Wifi;
    }
    let hardware: Option<u64> = match &f.hardware {
        Some(t) => {
            let c = chars_of(t.as_str());
            parse_dec(trim_chars(c.as_slice()), u32::MAX as u64)
        },
        None => None,
    };
    let n: u64 = match hardware {
        Some(n) => n,
        None => u64::MAX,
    };
    if f.tun_flags || n == ARPHRD_NONE {
        return AdapterKind::Vpn;
    }
    if is_tunnel_name(lower) {
        return AdapterKind::Vpn;
    }
    if n == ARPHRD_LOOPBACK {
        AdapterKind::Loopback
    } else if n == ARPHRD_ETHER {
        AdapterKind::Ethernet
    } else if n == ARPHRD_PPP {
        AdapterKind::Vpn
    } else {
        AdapterKind::Other
    }
}

/// The kind of an interface.
pub fn classify(name: &str, f: &InterfaceFacts) -> (k: AdapterKind)
    ensures
        k == kind_of(name@, lowercase(name@), *f),
{
    let lower = name.to_lowercase();
    classify_named(name, lower.as_str(), f)
}

/// The family of long socket addresses on this platform.
pub const AF_INET6: u16 = 10;

/// An interface's address, as a socket address, with the interface's kind.
#[derive(Debug)]
pub struct InterfaceAddress {
    pub kind: AdapterKind,
    pub address: Vec<u8>,
}

/// The addresses among socket addresses, each with its interface's kind.
pub open spec fn listed(list: Seq<InterfaceAddress>) -> Seq<(IpAddr, AdapterKind)>
    decreases list.len(),
{
    if list.len() == 0 {
        Seq::empty()
    } else {
        match address_in(list.last().address@, AF_INET6) {
            Some(a) => listed(list.drop_last()).push((a, list.last().kind)),
            None => listed(list.drop_last()),
        }
    }
}

/// The addresses among socket addresses, each with its interface's kind.
pub fn enumerate(list: &Vec<InterfaceAddress>) -> (r: Vec<(IpAddr, AdapterKind)>)
    ensures
        r@ == listed(list@),
{
    let mut out: Vec<(IpAddr, AdapterKind)> = Vec::new();
    let mut i: usize = 0;
    while i < list.len()
        invariant
            i <= list@.len(),
            out@ == listed(list@.take(i as int)),
        decreases list@.len() - i,
    {
        assert(list@.take(i + 1).drop_last() =~= list@.take(i as int));
        if let Some(a) = address_of(list[i].address.as_slice(), AF_INET6) {
            out.push((a, list[i].kind));
        }
        i += 1;
    }
    assert(list@.take(i as int) =~= list@);
    out
}

/// The interface `lo` is the loopback, and one that the kernel calls wireless is
/// Wi-Fi, whatever else is known of them.
pub proof fn law_wireless_interfaces_are_wifi(name: Seq<char>, lower: Seq<char>, f: InterfaceFacts)
    ensures
        name == "lo"@ ==> kind_of(name, lower, f) == AdapterKind::Loopback,
        name != "lo"@ && (f.wireless || f.phy80211) ==> kind_of(name, lower, f)
            == AdapterKind::Wifi,
{
}

/// An interface that is not wireless is a tunnel where the kernel gives it a tunnel's
/// flags, no hardware or a point-to-point link, or where its name is a tunnel's.
/// Otherwise its hardware type decides: 772 is the loopback, 1 is Ethernet.
pub proof fn law_wired_interfaces_go_by_their_hardware(
    name: Seq<char>,
    lower: Seq<char>,
    f: InterfaceFacts,
    hardware: nat,
)
    requires
        name != "lo"@,
        !f.wireless,
        !f.phy80211,
        f.hardware is Some,
        trimmed(f.hardware->0@) == crate::text::dec_text(hardware),
        hardware <= u32::MAX,
    ensures
        kind_of(name, lower, f) == (if f.tun_flags || hardware == 0xfffe || hardware == 512
            || tunnel_name(lower) {
            AdapterKind::Vpn
        } else if hardware == 772 {
            AdapterKind::Loopback
        } else if hardware == 1 {
            AdapterKind::Ethernet
        } else {
            AdapterKind::Other
        }),
{
    crate::text::law_decimal_round_trip(hardware, u32::MAX as nat);
}

/// A name is a tunnel's where it begins as tunnels' names do or speaks of one.
pub proof fn law_tunnels_are_known_by_name(rest: Seq<char>, before: Seq<char>)
    ensures
        tunnel_name("tun"@ + rest),
        tunnel_name("tap"@ + rest),
        tunnel_name("wg"@ + rest),
        tunnel_name("ppp"@ + rest),
        tunnel_name("tailscale"@ + rest),
        tunnel_name("zt"@ + rest),
        tunnel_name("utun"@ + rest),
        tunnel_name("gpd"@ + rest),
        tunnel_name(before + "vpn"@ + rest),
        tunnel_name(before + "wireguard"@ + rest),
        tunnel_name(before + "zerotier"@ + rest),
        tunnel_name(before + "warp"@ + rest),
{
    lemma_begins("tun"@, rest);
    lemma_begins("tap"@, rest);
    lemma_begins("wg"@, rest);
    lemma_begins("ppp"@, rest);
    lemma_begins("tailscale"@, rest);
    lemma_begins("zt"@, rest);
    lemma_begins("utun"@, rest);
    lemma_begins("gpd"@, rest);
    lemma_holds(before, "vpn"@, rest);
    lemma_holds(before, "wireguard"@, rest);
    lemma_holds(before, "zerotier"@, rest);
    lemma_holds(before, "warp"@, rest);
}

proof fn lemma_begins(p: Seq<char>, rest: Seq<char>)
    ensures
        has_prefix(p + rest, p),
{
    assert((p + rest).take(p.len() as int) =~= p);
}

/// Every address of an interface is listed with the interface's kind, in order, and
/// what holds no address is left out.
pub proof fn law_addresses_are_listed_in_order(
    before: Seq<InterfaceAddress>,
    one: InterfaceAddress,
    after: Seq<InterfaceAddress>,
)
    ensures
        listed(before + seq![one] + after) == listed(before) + (match address_in(
            one.address@,
            10,
        ) {
            Some(a) => seq![(a, one.kind)],
            None => Seq::empty(),
        }) + listed(after),
    decreases after.len(),
{
    let all = before + seq![one] + after;
    if after.len() > 0 {
        law_addresses_are_listed_in_order(before, one, after.drop_last());
        assert(all.drop_last() =~= before + seq![one] + after.drop_last());
        assert(all.last() == after.last());
    } else {
        assert(all.drop_last() =~= before);
        assert(all.last() == one);
    }
}

proof fn lemma_holds(before: Seq<char>, p: Seq<char>, rest: Seq<char>)
    ensures
        has_part(before + p + rest, p),
{
    let s = before + p + rest;
    let i = before.len() as int;
    assert(s.subrange(i, i + p.len()) =~= p);
}

} // verus!
