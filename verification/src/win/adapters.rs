//! The kinds of the platform's adapters, and their addresses.

use crate::adapter_map::{address_in, address_of};
use crate::ip::IpAddr;
use crate::model::{lowercase, AdapterKind};
use crate::text::{chars_of, contains_text, has_part, str_view};
use vstd::prelude::*;

verus! {

pub const IF_TYPE_ETHERNET_CSMACD: u32 = 6;

pub const IF_TYPE_PPP: u32 = 23;

pub const IF_TYPE_SOFTWARE_LOOPBACK: u32 = 24;

pub const IF_TYPE_PROP_VIRTUAL: u32 = 53;

pub const IF_TYPE_IEEE80211: u32 = 71;

pub const IF_TYPE_TUNNEL: u32 = 131;

/// The family of long socket addresses on this platform.
pub const AF_INET6: u16 = 23;

/// The words that give a tunnel away.
pub open spec fn vpn_marks() -> Seq<Seq<char>> {
    seq![
        "vpn"@,
        "wintun"@,
        "wireguard"@,
        "tap-windows"@,
        "openvpn"@,
        "tailscale"@,
        "zerotier"@,
        "hamachi"@,
        "warp"@,
    ]
}

/// Whether a label is that of a tunnel.
pub open spec fn vpn_label(label: Seq<char>) -> bool {
    exists|i: int| 0 <= i < vpn_marks().len() && has_part(label, #[trigger] vpn_marks()[i])
}

/// Whether a label is that of a tunnel.
pub fn is_vpn_label(label: &str) -> (r: bool)
    ensures
        r == vpn_label(label@),
{
    let l = chars_of(label);
    let mut marks: Vec<&'static str> = Vec::new();
    marks.push("vpn");
    marks.push("wintun");
    marks.push("wireguard");
    marks.push("tap-windows");
    marks.push("openvpn");
    marks.push("tailscale");
    marks.push("zerotier");
    marks.push("hamachi");
    marks.push("warp");
    assert(forall|i: int| 0 <= i < marks@.len() ==> #[trigger] marks@[i]@ == vpn_marks()[i]);
    let mut i: usize = 0;
    while i < marks.len()
        invariant
            i <= marks@.len(),
            marks@.len() == vpn_marks().len(),
            l@ == label@,
            forall|j: int| 0 <= j < marks@.len() ==> #[trigger] marks@[j]@ == vpn_marks()[j],
            forall|j: int| 0 <= j < i ==> !has_part(label@, #[trigger] vpn_marks()[j]),
        decreases marks@.len() - i,
    {
        let m = chars_of(marks[i]);
        assert(m@ == vpn_marks()[i as int]);
        if contains_text(l.as_slice(), m.as_slice()) {
            return true;
        }
        i += 1;
    }
    false
}

/// The kind of an adapter. Some tunnels register as plain adapters, and only
/// their label gives them away.
pub open spec fn kind_of(if_type: u32, label: Seq<char>) -> AdapterKind {
    if if_type == IF_TYPE_SOFTWARE_LOOPBACK {
        AdapterKind::Loopback
    } else if if_type == IF_TYPE_IEEE80211 {
        AdapterKind::Wifi
    } else if if_type == IF_TYPE_PPP || if_type == IF_TYPE_PROP_VIRTUAL || if_type
        == IF_TYPE_TUNNEL || vpn_label(label) {
        AdapterKind::Vpn
    } else if if_type == IF_TYPE_ETHERNET_CSMACD {
        AdapterKind::Ethernet
    } else {
        AdapterKind::Other
    }
}

/// The kind of an adapter.
pub fn classify(if_type: u32, label: &str) -> (k: AdapterKind)
    ensures
        k == kind_of(if_type, label@),
{
    if if_type == IF_TYPE_SOFTWARE_LOOPBACK {
        AdapterKind::Loopback
    } else if if_type == IF_TYPE_IEEE80211 {
        AdapterKind::Wifi
    } else if if_type == IF_TYPE_PPP || if_type == IF_TYPE_PROP_VIRTUAL || if_type
        == IF_TYPE_TUNNEL {
        AdapterKind::Vpn
    } else if is_vpn_label(label) {
        AdapterKind::Vpn
    } else if if_type == IF_TYPE_ETHERNET_CSMACD {
        AdapterKind::Ethernet
    } else {
        AdapterKind::Other
    }
}

/// An adapter's description and name in one text. A name that could not be read
/// still leaves its blank.
pub open spec fn joined_names(description: Option<Seq<char>>, named: bool, name: Option<Seq<char>>) -> Seq<
    char,
> {
    (match description {
        Some(d) => d,
        None => Seq::empty(),
    }) + (if named {
        seq![' ']
    } else {
        Seq::empty()
    }) + (match name {
        Some(n) => n,
        None => Seq::empty(),
    })
}

/// An adapter's label: its driver's description and its own name, in lower case.
pub fn label(description: Option<&str>, named: bool, name: Option<&str>) -> (s: String)
    ensures
        s@ == lowercase(joined_names(str_view(description), named, str_view(name))),
{
    let mut s = String::new();
    if let Some(d) = description {
        s.push_str(d);
    }
    if named {
        s.push(' ');
    }
    if let Some(n) = name {
        s.push_str(n);
    }
    assert(s@ =~= joined_names(str_view(description), named, str_view(name)));
    s.as_str().to_lowercase()
}

/// What the platform says of an adapter.
#[derive(Debug)]
pub struct AdapterFacts {
    /// Whether it is in use.
    pub up: bool,
    pub if_type: u32,
    pub label: String,
    /// Its addresses, as socket addresses.
    pub addresses: Vec<Vec<u8>>,
}

/// The addresses among socket addresses, each with a kind.
pub open spec fn addresses_of(list: Seq<Vec<u8>>, kind: AdapterKind) -> Seq<(IpAddr, AdapterKind)>
    decreases list.len(),
{
    if list.len() == 0 {
        Seq::empty()
    } else {
        match address_in(list.last()@, AF_INET6) {
            Some(a) => addresses_of(list.drop_last(), kind).push((a, kind)),
            None => addresses_of(list.drop_last(), kind),
        }
    }
}

/// The addresses of the adapters that are in use, each with the adapter's kind.
pub open spec fn listed(adapters: Seq<AdapterFacts>) -> Seq<(IpAddr, AdapterKind)>
    decreases adapters.len(),
{
    if adapters.len() == 0 {
        Seq::empty()
    } else {
        let a = adapters.last();
        listed(adapters.drop_last()) + if a.up {
            addresses_of(a.addresses@, kind_of(a.if_type, a.label@))
        } else {
            Seq::empty()
        }
    }
}

/// The addresses of the adapters that are in use, each with the adapter's kind.
pub fn enumerate(adapters: &Vec<AdapterFacts>) -> (r: Vec<(IpAddr, AdapterKind)>)
    ensures
        r@ == listed(adapters@),
{
    let mut out: Vec<(IpAddr, AdapterKind)> = Vec::new();
    let mut i: usize = 0;
    while i < adapters.len()
        invariant
            i <= adapters@.len(),
            out@ == listed(adapters@.take(i as int)),
        decreases adapters@.len() - i,
    {
        assert(adapters@.take(i + 1).drop_last() =~= adapters@.take(i as int));
        let a = &adapters[i];
        if a.up {
            let kind = classify(a.if_type, a.label.as_str());
            let ghost before = out@;
            let mut j: usize = 0;
            assert(a.addresses@.take(0) =~= Seq::empty());
            assert(before + addresses_of(a.addresses@.take(0), kind) =~= before);
            while j < a.addresses.len()
                invariant
                    j <= a.addresses@.len(),
                    out@ == before + addresses_of(a.addresses@.take(j as int), kind),
                decreases a.addresses@.len() - j,
            {
                assert(a.addresses@.take(j + 1).drop_last() =~= a.addresses@.take(j as int));
                if let Some(ip) = address_of(a.addresses[j].as_slice(), AF_INET6) {
                    out.push((ip, kind));
                }
                j += 1;
                assert(out@ =~= before + addresses_of(a.addresses@.take(j as int), kind));
            }
            assert(a.addresses@.take(j as int) =~= a.addresses@);
        } else {
            assert(out@ =~= out@ + Seq::<(IpAddr, AdapterKind)>::empty());
        }
        i += 1;
    }
    assert(adapters@.take(i as int) =~= adapters@);
    out
}

/// The platform's type of an adapter decides what it is; an adapter that is neither
/// the loopback nor wireless is a tunnel where its label speaks of one.
pub proof fn law_adapters_go_by_their_type(if_type: u32, label: Seq<char>)
    ensures
        kind_of(24, label) == AdapterKind::Loopback,
        kind_of(71, label) == AdapterKind::Wifi,
        kind_of(23, label) == AdapterKind::Vpn,
        kind_of(53, label) == AdapterKind::Vpn,
        kind_of(131, label) == AdapterKind::Vpn,
        if_type != 24 && if_type != 71 && vpn_label(label) ==> kind_of(if_type, label)
            == AdapterKind::Vpn,
        !vpn_label(label) ==> kind_of(6, label) == AdapterKind::Ethernet,
        !vpn_label(label) && !(if_type == 24 || if_type == 71 || if_type == 23 || if_type == 53
            || if_type == 131 || if_type == 6) ==> kind_of(if_type, label) == AdapterKind::Other,
{
}

/// A label speaks of a tunnel where the name of one stands in it.
pub proof fn law_tunnels_are_known_by_label(before: Seq<char>, rest: Seq<char>)
    ensures
        vpn_label(before + "vpn"@ + rest),
        vpn_label(before + "wintun"@ + rest),
        vpn_label(before + "wireguard"@ + rest),
        vpn_label(before + "tap-windows"@ + rest),
        vpn_label(before + "openvpn"@ + rest),
        vpn_label(before + "tailscale"@ + rest),
        vpn_label(before + "zerotier"@ + rest),
        vpn_label(before + "hamachi"@ + rest),
        vpn_label(before + "warp"@ + rest),
{
    let m = vpn_marks();
    assert forall|i: int| 0 <= i < m.len() implies vpn_label(before + #[trigger] m[i] + rest) by {
        let s = before + m[i] + rest;
        let k = before.len() as int;
        assert(s.subrange(k, k + m[i].len()) =~= m[i]);
        assert(has_part(s, m[i]));
    }
    assert(m[0] == "vpn"@ && m[1] == "wintun"@ && m[2] == "wireguard"@);
    assert(m[3] == "tap-windows"@ && m[4] == "openvpn"@ && m[5] == "tailscale"@);
    assert(m[6] == "zerotier"@ && m[7] == "hamachi"@ && m[8] == "warp"@);
}

/// The addresses of the adapters that are up are listed with their adapter's kind;
/// those of the others are not.
pub proof fn law_adapters_that_are_up_are_listed(adapters: Seq<AdapterFacts>, a: AdapterFacts)
    ensures
        a.up ==> listed(adapters.push(a)) == listed(adapters) + addresses_of(
            a.addresses@,
            kind_of(a.if_type, a.label@),
        ),
        !a.up ==> listed(adapters.push(a)) == listed(adapters),
        listed(Seq::empty()).len() == 0,
{
    assert(adapters.push(a).drop_last() =~= adapters);
    assert(listed(adapters) + Seq::<(IpAddr, AdapterKind)>::empty() =~= listed(adapters));
}

/// Every address of an adapter is listed, in its order, with the adapter's kind.
pub proof fn law_every_address_is_listed(list: Seq<Vec<u8>>, one: Vec<u8>, kind: AdapterKind)
    ensures
        addresses_of(list.push(one), kind) == (match address_in(one@, 23) {
            Some(a) => addresses_of(list, kind).push((a, kind)),
            None => addresses_of(list, kind),
        }),
        addresses_of(Seq::empty(), kind).len() == 0,
{
    assert(list.push(one).drop_last() =~= list);
}

/// An adapter's label is its description and its name with a space between them.
pub proof fn law_labels_hold_both_names(d: Seq<char>, n: Seq<char>)
    ensures
        joined_names(Some(d), true, Some(n)) == d + seq![' '] + n,
        joined_names(Some(d), false, None) == d,
        joined_names(None, true, Some(n)) == seq![' '] + n,
{
    assert(d + Seq::<char>::empty() + Seq::<char>::empty() =~= d);
    assert(Seq::<char>::empty() + seq![' '] + n =~= seq![' '] + n);
}

} // verus!
