//! Facts about endpoints and applications, address sets, address scopes.

use crate::alert::Alert;
use crate::ip::IpAddr;
use crate::model::{AppId, StatsTick};
use crate::text::{
    chars_of, find, find_char, lines, lines_of, owned, parse_dec, parsed_dec, split, text_of,
    trim_chars, trimmed, views,
};
use vstd::arithmetic::power2::pow2;
use vstd::prelude::*;

verus! {

/// What a fact is about.
#[derive(Debug, PartialEq, Eq)]
pub enum EnrichTarget {
    Endpoint(IpAddr),
    App(AppId),
}

impl Clone for EnrichTarget {
    fn clone(&self) -> (r: EnrichTarget)
        ensures
            r == *self,
    {
        match self {
            EnrichTarget::Endpoint(a) => EnrichTarget::Endpoint(*a),
            EnrichTarget::App(a) => EnrichTarget::App(a.clone()),
        }
    }
}

/// Which targets an enricher answers about.
#[derive(Debug, Clone, Copy, PartialEq, Eq, Structural)]
pub enum TargetKind {
    Endpoint,
    App,
}

/// How prominently a fact is shown.
#[derive(Debug, Clone, Copy, PartialEq, Eq, Structural)]
pub enum Severity {
    Info,
    Warn,
    Danger,
}

/// The form in which a fact's value is shown.
#[derive(Debug, Clone, PartialEq, Eq)]
pub enum AnnotationValue {
    Text(String),
    Badge(String),
    Link { label: String, url: String },
}

/// One fact. Its key starts with the id of the enricher that gave it.
#[derive(Debug, Clone, PartialEq, Eq)]
pub struct Annotation {
    pub key: String,
    pub label: String,
    pub value: AnnotationValue,
    pub severity: Severity,
}

impl Annotation {
    /// A fact that is shown as text.
    pub fn text(key: &str, label: &str, value: String, severity: Severity) -> (a: Annotation)
        ensures
            a.key@ == key@,
            a.label@ == label@,
            a.value == AnnotationValue::Text(value),
            a.severity == severity,
    {
        Annotation {
            key: owned(key),
            label: owned(label),
            value: AnnotationValue::Text(value),
            severity,
        }
    }
}

/// Gives facts about targets.
pub trait Enricher: Send + Sync {
    fn id(&self) -> &str;

    fn targets(&self) -> &[TargetKind];

    fn enrich(&self, target: &EnrichTarget) -> Vec<Annotation>;
}

/// Sees the live stream.
pub trait Observer: Send + Sync {
    fn id(&self) -> &str;

    fn on_tick(&self, _tick: &StatsTick) {
    }

    fn on_alert(&self, _alert: &Alert) {
    }
}

/// A set of addresses and address ranges: the shape of a watch list, one entry
/// per line, with comments after `#`.
#[derive(Debug)]
pub struct IpSet {
    v4: Vec<(u32, u8)>,
    v6: Vec<(u128, u8)>,
}

/// A network: an address and how many of its leading bits count.
pub struct Net {
    pub addr: IpAddr,
    pub prefix: u8,
}

/// The number of bits in an address.
pub open spec fn width_of(a: IpAddr) -> nat {
    match a {
        IpAddr::V4(_) => 32,
        IpAddr::V6(_) => 128,
    }
}

/// The number that an address is.
pub open spec fn number_of(a: IpAddr) -> nat {
    match a {
        IpAddr::V4(v) => v as nat,
        IpAddr::V6(v) => v as nat,
    }
}

/// Whether the first `prefix` of `width` bits of two numbers agree.
pub open spec fn same_prefix(x: nat, y: nat, width: nat, prefix: nat) -> bool {
    prefix == 0 || x / pow2((width - prefix) as nat) == y / pow2((width - prefix) as nat)
}

/// Whether a network holds an address.
pub open spec fn net_has(net: (IpAddr, u8), a: IpAddr) -> bool {
    net.0 is V4 == a is V4 && same_prefix(
        number_of(a),
        number_of(net.0),
        width_of(a),
        net.1 as nat,
    )
}

/// What is left of a line of a watch list: the text before a comment, trimmed.
pub open spec fn entry_of(line: Seq<char>) -> Seq<char> {
    trimmed(split(line, '#')[0])
}

/// The entries of a watch list.
pub open spec fn entries_of(text: Seq<char>) -> Seq<Seq<char>> {
    lines(text).map_values(|l: Seq<char>| entry_of(l)).filter(|e: Seq<char>| e.len() > 0)
}

/// The network that an entry names: an address, with or without the length of
/// its prefix. Without one, all of the address counts.
pub open spec fn net_of(e: Seq<char>) -> Option<(IpAddr, u8)> {
    let i = find(e, '/') as int;
    let addr = ip_of(e.take(i));
    let prefix = if i < e.len() {
        parsed_dec(trimmed(e.skip(i + 1)), 255)
    } else if addr is Some {
        Some(width_of(addr->0))
    } else {
        None
    };
    match (addr, prefix) {
        (Some(a), Some(p)) if p <= width_of(a) => Some((a, p as u8)),
        _ => None,
    }
}

/// The address that a text spells, with white space around it.
pub open spec fn ip_of(s: Seq<char>) -> Option<IpAddr> {
    crate::ip_text::ip_of_text(trimmed(s))
}

/// The entry's network, of IPv4.
pub open spec fn v4_net(e: Seq<char>) -> Option<(u32, u8)> {
    match net_of(e) {
        Some((IpAddr::V4(v), p)) => Some((v, p)),
        _ => None,
    }
}

/// The entry's network, of IPv6.
pub open spec fn v6_net(e: Seq<char>) -> Option<(u128, u8)> {
    match net_of(e) {
        Some((IpAddr::V6(v), p)) => Some((v, p)),
        _ => None,
    }
}

fn prefix_power(n: u32) -> (p: u128)
    requires
        n < 128,
    ensures
        p == pow2(n as nat),
        p > 0,
{
    let mut p: u128 = 1;
    let mut i: u32 = 0;
    proof {
        vstd::arithmetic::power2::lemma2_to64();
    }
    while i < n
        invariant
            i <= n < 128,
            p == pow2(i as nat),
            p > 0,
        decreases n - i,
    {
        proof {
            vstd::arithmetic::power2::lemma_pow2_unfold((i + 1) as nat);
            vstd::arithmetic::power2::lemma2_to64();
            vstd::arithmetic::power2::lemma2_to64_rest();
            vstd::arithmetic::power2::lemma_pow2_adds(64, 63);
            assert(pow2(64) == 0x1_0000_0000_0000_0000 && pow2(63) == 0x8000_0000_0000_0000);
            if i + 1 < 127 {
                vstd::arithmetic::power2::lemma_pow2_strictly_increases((i + 1) as nat, 127);
            }
            assert(pow2(127) == 0x8000_0000_0000_0000_0000_0000_0000_0000);
        }
        p = p * 2;
        i += 1;
    }
    p
}

fn agree(x: u128, y: u128, width: u32, prefix: u8) -> (r: bool)
    requires
        prefix <= width <= 128,
    ensures
        r == same_prefix(x as nat, y as nat, width as nat, prefix as nat),
{
    if prefix == 0 {
        return true;
    }
    let p: u128 = prefix_power(width - prefix as u32);
    x / p == y / p
}

impl IpSet {
    /// The set's networks.
    pub closed spec fn v4s(&self) -> Seq<(u32, u8)> {
        self.v4@
    }

    pub closed spec fn v6s(&self) -> Seq<(u128, u8)> {
        self.v6@
    }

    /// Whether every prefix fits its address.
    pub open spec fn wf(&self) -> bool {
        &&& forall|i: int| 0 <= i < self.v4s().len() ==> (#[trigger] self.v4s()[i]).1 <= 32
        &&& forall|i: int| 0 <= i < self.v6s().len() ==> (#[trigger] self.v6s()[i]).1 <= 128
        &&& self.v4s().len() + self.v6s().len() <= usize::MAX
    }

    /// Whether the set is the one that a watch list names.
    pub open spec fn reads(&self, text: Seq<char>) -> bool {
        &&& self.wf()
        &&& self.v4s() == entries_of(text).filter_map(|e: Seq<char>| v4_net(e))
        &&& self.v6s() == entries_of(text).filter_map(|e: Seq<char>| v6_net(e))
    }

    /// Whether a network of the set holds an address.
    pub open spec fn has(&self, a: IpAddr) -> bool {
        match a {
            IpAddr::V4(_) => exists|i: int|
                0 <= i < self.v4s().len() && net_has(
                    (IpAddr::V4((#[trigger] self.v4s()[i]).0), self.v4s()[i].1),
                    a,
                ),
            IpAddr::V6(_) => exists|i: int|
                0 <= i < self.v6s().len() && net_has(
                    (IpAddr::V6((#[trigger] self.v6s()[i]).0), self.v6s()[i].1),
                    a,
                ),
        }
    }

    fn read_net(entry: &[char]) -> (r: Option<(IpAddr, u8)>)
        ensures
            r == net_of(entry@),
    {
        let i: usize = find_char(entry, '/');
        let head = vstd::slice::slice_subrange(entry, 0, i);
        assert(head@ =~= entry@.take(i as int));
        let addr = match IpAddr::parse_chars(trim_chars(head)) {
            Some(a) => a,
            None => {
                return None;
            },
        };
        let width: u64 = if addr.is_ipv4() {
            32
        } else {
            128
        };
        let prefix: u64 = if i < entry.len() {
            let tail = vstd::slice::slice_subrange(entry, i + 1, entry.len());
            assert(tail@ =~= entry@.skip(i + 1));
            match parse_dec(trim_chars(tail), 255) {
                Some(p) => p,
                None => {
                    return None;
                },
            }
        } else {
            width
        };
        if prefix > width {
            return None;
        }
        Some((addr, prefix as u8))
    }

    /// Reads a watch list: the set, and the entries that name no network.
    pub fn parse(text: &str) -> (r: (IpSet, Vec<String>))
        ensures
            r.0.reads(text@),
            r.1@.map_values(|s: String| s@) == entries_of(text@).filter(
                |e: Seq<char>| net_of(e) is None,
            ),
    {
        let c = chars_of(text);
        let ls = lines_of(c.as_slice());
        let ghost raw = lines(text@).map_values(|l: Seq<char>| entry_of(l));
        let ghost keep = |e: Seq<char>| e.len() > 0;
        let ghost bad = |e: Seq<char>| net_of(e) is None;
        let ghost f4 = |e: Seq<char>| v4_net(e);
        let ghost f6 = |e: Seq<char>| v6_net(e);
        let mut v4: Vec<(u32, u8)> = Vec::new();
        let mut v6: Vec<(u128, u8)> = Vec::new();
        let mut rejected: Vec<String> = Vec::new();
        let mut i: usize = 0;
        let ghost done = Seq::<Seq<char>>::empty();
        assert(raw.take(0).filter(keep) =~= done);
        assert(rejected@.map_values(|s: String| s@) =~= done.filter(bad));
        while i < ls.len()
            invariant
                i <= ls@.len(),
                ls@.len() == raw.len(),
                views(ls@) == lines(text@),
                raw == lines(text@).map_values(|l: Seq<char>| entry_of(l)),
                keep == (|e: Seq<char>| e.len() > 0),
                bad == (|e: Seq<char>| net_of(e) is None),
                f4 == (|e: Seq<char>| v4_net(e)),
                f6 == (|e: Seq<char>| v6_net(e)),
                done == raw.take(i as int).filter(keep),
                v4@ == done.filter_map(f4),
                v6@ == done.filter_map(f6),
                rejected@.map_values(|s: String| s@) == done.filter(bad),
                v4@.len() + v6@.len() <= i,
                forall|j: int| 0 <= j < v4@.len() ==> (#[trigger] v4@[j]).1 <= 32,
                forall|j: int| 0 <= j < v6@.len() ==> (#[trigger] v6@[j]).1 <= 128,
            decreases ls@.len() - i,
        {
            let ghost before = done;
            let line = ls[i].as_slice();
            let parts = crate::text::split_chars(line, '#');
            assert(views(parts@).len() == parts@.len());
            assert(views(parts@)[0] == parts@[0]@);
            let entry = trim_chars(parts[0].as_slice());
            proof {
                assert(views(ls@)[i as int] == ls@[i as int]@);
                assert(raw[i as int] == entry_of(line@));
                assert(entry@ == raw[i as int]);
                assert(raw.take(i + 1) =~= raw.take(i as int).push(raw[i as int]));
                raw.take(i as int).lemma_filter_push(raw[i as int], keep);
            }
            if entry.len() > 0 {
                proof {
                    done = before.push(entry@);
                    lemma_filter_map_push(before, entry@, f4);
                    lemma_filter_map_push(before, entry@, f6);
                    before.lemma_filter_push(entry@, bad);
                }
                match IpSet::read_net(entry) {
                    Some((IpAddr::V4(v), p)) => {
                        v4.push((v, p));
                    },
                    Some((IpAddr::V6(v), p)) => {
                        v6.push((v, p));
                    },
                    None => {
                        let ghost was = rejected@.map_values(|s: String| s@);
                        rejected.push(text_of(entry));
                        assert(rejected@.map_values(|s: String| s@) =~= was.push(entry@));
                    },
                }
            }
            i += 1;
        }
        assert(raw.take(i as int) =~= raw);
        (IpSet { v4, v6 }, rejected)
    }

    /// Whether the set holds an address.
    pub fn contains(&self, ip: &IpAddr) -> (r: bool)
        requires
            self.wf(),
        ensures
            r == self.has(*ip),
    {
        let mut i: usize = 0;
        match ip {
            IpAddr::V4(x) => {
                while i < self.v4.len()
                    invariant
                        i <= self.v4s().len(),
                        self.wf(),
                        self.v4s() == self.v4@,
                        *ip == IpAddr::V4(*x),
                        forall|j: int|
                            0 <= j < i ==> !net_has(
                                (IpAddr::V4((#[trigger] self.v4s()[j]).0), self.v4s()[j].1),
                                *ip,
                            ),
                    decreases self.v4s().len() - i,
                {
                    let ghost e = self.v4s()[i as int];
                    let (net, p) = self.v4[i];
                    if agree(*x as u128, net as u128, 32, p) {
                        assert(net_has((IpAddr::V4(e.0), e.1), *ip));
                        return true;
                    }
                    i += 1;
                }
                false
            },
            IpAddr::V6(x) => {
                while i < self.v6.len()
                    invariant
                        i <= self.v6s().len(),
                        self.wf(),
                        self.v6s() == self.v6@,
                        *ip == IpAddr::V6(*x),
                        forall|j: int|
                            0 <= j < i ==> !net_has(
                                (IpAddr::V6((#[trigger] self.v6s()[j]).0), self.v6s()[j].1),
                                *ip,
                            ),
                    decreases self.v6s().len() - i,
                {
                    let ghost e = self.v6s()[i as int];
                    let (net, p) = self.v6[i];
                    if agree(*x, net, 128, p) {
                        assert(net_has((IpAddr::V6(e.0), e.1), *ip));
                        return true;
                    }
                    i += 1;
                }
                false
            },
        }
    }

    /// How many networks the set has.
    pub fn len(&self) -> (n: usize)
        requires
            self.wf(),
        ensures
            n == self.v4s().len() + self.v6s().len(),
    {
        self.v4.len() + self.v6.len()
    }

    /// Whether the set has no network.
    pub fn is_empty(&self) -> (r: bool)
        ensures
            r == (self.v4s().len() == 0 && self.v6s().len() == 0),
    {
        self.v4.len() == 0 && self.v6.len() == 0
    }
}

proof fn lemma_filter_map_push<A, B>(s: Seq<A>, a: A, f: spec_fn(A) -> Option<B>)
    ensures
        s.push(a).filter_map(f) == (match f(a) {
            Some(b) => s.filter_map(f).push(b),
            None => s.filter_map(f),
        }),
{
    assert(s.push(a).drop_last() =~= s);
    reveal(Seq::filter_map);
}

/// Whether a number lies in a range whose first `n` bits are fixed.
pub open spec fn between(v: nat, from: nat, to: nat) -> bool {
    from <= v < to
}

/// The scope of an address: which part of the network it belongs to.
pub open spec fn scope_of(a: IpAddr) -> Seq<char> {
    match a {
        IpAddr::V4(v) => if between(v as nat, 0x7f00_0000, 0x8000_0000) {
            "Loopback"@
        } else if between(v as nat, 0x0a00_0000, 0x0b00_0000) || between(
            v as nat,
            0xac10_0000,
            0xac20_0000,
        ) || between(v as nat, 0xc0a8_0000, 0xc0a9_0000) {
            "Private network"@
        } else if between(v as nat, 0xa9fe_0000, 0xa9ff_0000) {
            "Link-local"@
        } else if between(v as nat, 0xe000_0000, 0xf000_0000) {
            "Multicast"@
        } else if v == 0 {
            "Unspecified"@
        } else {
            "Public internet"@
        },
        IpAddr::V6(v) => {
            let top = v as nat / 0x1_0000_0000_0000_0000_0000_0000_0000;
            if v == 1 {
                "Loopback"@
            } else if v == 0 {
                "Unspecified"@
            } else if between(top, 0xff00, 0x1_0000) {
                "Multicast"@
            } else if between(top, 0xfc00, 0xfe00) {
                "Private network"@
            } else if between(top, 0xfe80, 0xfec0) {
                "Link-local"@
            } else {
                "Public internet"@
            }
        },
    }
}

/// The scope of an address, for people.
pub fn ip_scope(ip: &IpAddr) -> (s: &'static str)
    ensures
        s@ == scope_of(*ip),
{
    match ip {
        IpAddr::V4(v) => {
            let v: u32 = *v;
            if v / 0x100_0000 == 127 {
                "Loopback"
            } else if v / 0x100_0000 == 10 || v / 0x10_0000 == 0xac1 || v / 0x1_0000 == 0xc0a8 {
                "Private network"
            } else if v / 0x1_0000 == 0xa9fe {
                "Link-local"
            } else if v / 0x1000_0000 == 0xe {
                "Multicast"
            } else if v == 0 {
                "Unspecified"
            } else {
                "Public internet"
            }
        },
        IpAddr::V6(v) => {
            let top: u128 = *v / 0x1_0000_0000_0000_0000_0000_0000_0000;
            if *v == 1 {
                "Loopback"
            } else if *v == 0 {
                "Unspecified"
            } else if top / 0x100 == 0xff {
                "Multicast"
            } else if top / 0x200 == 0x7e {
                "Private network"
            } else if top / 0x40 == 0x3fa {
                "Link-local"
            } else {
                "Public internet"
            }
        },
    }
}

/// Every entry of a watch list is taken or reported: what the set holds and what
/// was rejected are as many as there are entries.
pub proof fn law_entries_are_taken_or_reported(text: Seq<char>)
    ensures
        entries_of(text).filter_map(|e: Seq<char>| v4_net(e)).len() + entries_of(text).filter_map(
            |e: Seq<char>| v6_net(e),
        ).len() + entries_of(text).filter(|e: Seq<char>| net_of(e) is None).len() == entries_of(
            text,
        ).len(),
{
    lemma_taken_or_reported(entries_of(text));
}

proof fn lemma_taken_or_reported(s: Seq<Seq<char>>)
    ensures
        s.filter_map(|e: Seq<char>| v4_net(e)).len() + s.filter_map(
            |e: Seq<char>| v6_net(e),
        ).len() + s.filter(|e: Seq<char>| net_of(e) is None).len() == s.len(),
    decreases s.len(),
{
    reveal(Seq::filter_map);
    reveal(Seq::filter);
    if s.len() > 0 {
        lemma_taken_or_reported(s.drop_last());
    }
}

proof fn lemma_filter_map_has<A, B>(s: Seq<A>, f: spec_fn(A) -> Option<B>, i: int)
    requires
        0 <= i < s.len(),
        f(s[i]) is Some,
    ensures
        s.filter_map(f).contains(f(s[i])->0),
    decreases s.len(),
{
    reveal(Seq::filter_map);
    let front = s.drop_last();
    let b = f(s[i])->0;
    if i == s.len() - 1 {
        assert(s.filter_map(f).last() == b);
        assert(s.filter_map(f)[s.filter_map(f).len() - 1] == b);
    } else {
        assert(front[i] == s[i]);
        lemma_filter_map_has(front, f, i);
        let j = choose|j: int| 0 <= j < front.filter_map(f).len() && front.filter_map(f)[j] == b;
        assert(s.filter_map(f)[j] == b);
    }
}

/// Whether an entry of a watch list names a network that holds an address.
pub open spec fn entry_has(e: Seq<char>, a: IpAddr) -> bool {
    net_of(e) is Some && net_has(net_of(e)->0, a)
}

/// Whether one of some entries names a network that holds an address.
pub open spec fn any_has(es: Seq<Seq<char>>, a: IpAddr) -> bool {
    exists|i: int| 0 <= i < es.len() && entry_has(#[trigger] es[i], a)
}

proof fn lemma_has(set: IpSet, text: Seq<char>, a: IpAddr)
    requires
        set.reads(text),
    ensures
        set.has(a) == any_has(entries_of(text), a),
{
    let es = entries_of(text);
    let f4 = |e: Seq<char>| v4_net(e);
    let f6 = |e: Seq<char>| v6_net(e);
    if exists|i: int| 0 <= i < es.len() && entry_has(#[trigger] es[i], a) {
        let i = choose|i: int| 0 <= i < es.len() && entry_has(#[trigger] es[i], a);
        match net_of(es[i])->0 {
            (IpAddr::V4(v), p) => {
                lemma_filter_map_has(es, f4, i);
                let j = choose|j: int| 0 <= j < set.v4s().len() && set.v4s()[j] == (v, p);
                assert(net_has((IpAddr::V4(set.v4s()[j].0), set.v4s()[j].1), a));
            },
            (IpAddr::V6(v), p) => {
                lemma_filter_map_has(es, f6, i);
                let j = choose|j: int| 0 <= j < set.v6s().len() && set.v6s()[j] == (v, p);
                assert(net_has((IpAddr::V6(set.v6s()[j].0), set.v6s()[j].1), a));
            },
        }
    }
    if set.has(a) {
        match a {
            IpAddr::V4(_) => {
                let j = choose|j: int|
                    0 <= j < set.v4s().len() && net_has(
                        (IpAddr::V4((#[trigger] set.v4s()[j]).0), set.v4s()[j].1),
                        a,
                    );
                assert(es.filter_map(f4).contains(set.v4s()[j]));
                es.lemma_filter_map_contains(f4, set.v4s()[j]);
                let e = choose|e: Seq<char>| #[trigger]
                    es.contains(e) && f4(e) == Some(set.v4s()[j]);
                let i = choose|i: int| 0 <= i < es.len() && es[i] == e;
                assert(entry_has(es[i], a));
            },
            IpAddr::V6(_) => {
                let j = choose|j: int|
                    0 <= j < set.v6s().len() && net_has(
                        (IpAddr::V6((#[trigger] set.v6s()[j]).0), set.v6s()[j].1),
                        a,
                    );
                assert(es.filter_map(f6).contains(set.v6s()[j]));
                es.lemma_filter_map_contains(f6, set.v6s()[j]);
                let e = choose|e: Seq<char>| #[trigger]
                    es.contains(e) && f6(e) == Some(set.v6s()[j]);
                let i = choose|i: int| 0 <= i < es.len() && es[i] == e;
                assert(entry_has(es[i], a));
            },
        }
    }
}

proof fn lemma_any_one(e: Seq<char>, a: IpAddr)
    ensures
        any_has(seq![e], a) == entry_has(e, a),
{
    assert(seq![e][0] == e);
}

proof fn lemma_one_entry(line: Seq<char>)
    requires
        line.len() > 0,
        !line.contains('\n'),
    ensures
        entries_of(line) == (if entry_of(line).len() > 0 {
            seq![entry_of(line)]
        } else {
            Seq::empty()
        }),
{
    let keep = |e: Seq<char>| e.len() > 0;
    crate::text::law_lines_end_at_line_feeds(line, Seq::empty());
    let raw = lines(line).map_values(|l: Seq<char>| entry_of(l));
    assert(raw =~= seq![entry_of(line)]);
    reveal(Seq::filter);
    assert(raw.drop_last() =~= Seq::empty());
    assert(raw.drop_last().filter(keep) =~= Seq::<Seq<char>>::empty());
    assert(raw.filter(keep) =~= if entry_of(line).len() > 0 {
        seq![entry_of(line)]
    } else {
        Seq::empty()
    });
}

/// Whether a text can stand in a watch list as it is: on one line, without a
/// comment, and without white space at its ends.
pub open spec fn is_entry(e: Seq<char>) -> bool {
    &&& e.len() > 0
    &&& !e.contains('\n')
    &&& !e.contains('#')
    &&& !crate::text::is_white(e[0])
    &&& !crate::text::is_white(e.last())
}

proof fn lemma_entry(e: Seq<char>)
    requires
        is_entry(e),
    ensures
        entry_of(e) == e,
        entries_of(e) == seq![e],
{
    crate::text::law_pieces_stand_between_separators(e, '#', Seq::empty());
    crate::text::law_trimmed_texts_stay(e);
    lemma_one_entry(e);
}

proof fn lemma_address_entry(s: Seq<char>)
    requires
        s.len() > 0,
        crate::ip_law::address_chars(s),
    ensures
        is_entry(s),
        !s.contains('/'),
{
    assert forall|c: char| s.contains(c) implies c != '\n' && c != '#' && c != '/'
        && !crate::text::is_white(c) by {
        let i = choose|i: int| 0 <= i < s.len() && s[i] == c;
        assert(crate::ip_text::hex_digit(s[i]) is Some || s[i] == '.' || s[i] == ':');
    }
    assert(s.contains(s[0]));
    assert(s.contains(s.last()));
}

proof fn lemma_bare_net(a: IpAddr)
    ensures
        is_entry(crate::ip_show::ip_text(a)),
        net_of(crate::ip_show::ip_text(a)) == Some((a, width_of(a) as u8)),
{
    let e = crate::ip_show::ip_text(a);
    crate::ip_law::law_addresses_are_written_plainly(a);
    crate::ip_law::law_addresses_read_back(a);
    lemma_address_entry(e);
    crate::text::lemma_find(e, '/');
    assert(e.take(e.len() as int) =~= e);
    crate::text::law_trimmed_texts_stay(e);
}

proof fn lemma_net_of_one(e: Seq<char>, a: IpAddr, b: IpAddr)
    requires
        net_of(e) == Some((a, width_of(a) as u8)),
    ensures
        entry_has(e, b) == (b == a),
{
    vstd::arithmetic::power2::lemma2_to64();
    assert(pow2(0) == 1);
    let (x, y) = (number_of(a), number_of(b));
    assert(x / 1 == x && y / 1 == y);
    assert((width_of(a) as u8) as nat == width_of(a));
    assert(net_has((a, width_of(a) as u8), b) == (a is V4 == b is V4 && x == y));
}

/// A watch list of one address watches that address and no other, of either
/// family.
pub proof fn law_a_bare_address_watches_itself(set: IpSet, a: IpAddr, b: IpAddr)
    requires
        set.reads(crate::ip_show::ip_text(a)),
    ensures
        set.has(b) == (b == a),
{
    let e = crate::ip_show::ip_text(a);
    lemma_bare_net(a);
    lemma_entry(e);
    lemma_has(set, e, b);
    lemma_net_of_one(e, a, b);
    lemma_any_one(e, b);
}

/// A watch list of one network watches the addresses of its family that agree with
/// its address in as many leading bits as its prefix says, and no other.
#[verifier::spinoff_prover]
pub proof fn law_a_network_watches_its_prefix(set: IpSet, a: IpAddr, prefix: nat, b: IpAddr)
    requires
        prefix <= (if a is V4 {
            32nat
        } else {
            128nat
        }),
        set.reads(
            crate::ip_show::ip_text(a) + seq!['/'] + crate::text::dec_text(prefix),
        ),
    ensures
        set.has(b) == (match (a, b) {
            (IpAddr::V4(x), IpAddr::V4(y)) => x as int / pow2((32 - prefix) as nat) as int
                == y as int / pow2((32 - prefix) as nat) as int,
            (IpAddr::V6(x), IpAddr::V6(y)) => x as int / pow2((128 - prefix) as nat) as int
                == y as int / pow2((128 - prefix) as nat) as int,
            _ => false,
        }),
{
    let s = crate::ip_show::ip_text(a);
    let d = crate::text::dec_text(prefix);
    let e = s + seq!['/'] + d;
    crate::ip_law::law_addresses_are_written_plainly(a);
    crate::ip_law::law_addresses_read_back(a);
    lemma_address_entry(s);
    crate::text::lemma_dec_text(prefix);
    crate::text::law_decimal_round_trip(prefix, 255);
    let k = s.len() as int;
    assert forall|c: char| e.contains(c) implies c != '\n' && c != '#' && !crate::text::is_white(
        c,
    ) by {
        let i = choose|i: int| 0 <= i < e.len() && e[i] == c;
        if i < k {
            assert(e[i] == s[i]);
            assert(crate::ip_text::hex_digit(s[i]) is Some || s[i] == '.' || s[i] == ':');
        } else if i > k {
            assert(e[i] == d[i - k - 1]);
            assert(crate::text::is_digit(d[i - k - 1]));
        }
    }
    assert(e.contains(e[0]));
    assert(e.contains(e.last()));
    lemma_entry(e);
    lemma_has(set, e, b);
    crate::text::law_pieces_stand_between_separators(s, '/', d);
    crate::text::lemma_find(e, '/');
    assert forall|j: int| 0 <= j < k implies e[j] != '/' by {
        assert(e[j] == s[j]);
        assert(s.contains(s[j]));
    }
    assert(e[k] == '/');
    assert(find(e, '/') == k);
    assert(e.take(k) =~= s);
    assert(e.skip(k + 1) =~= d);
    crate::text::law_trimmed_texts_stay(s);
    assert(crate::text::is_digit(d[0]) && crate::text::is_digit(d[d.len() - 1]));
    crate::text::law_trimmed_texts_stay(d);
    assert(net_of(e) == Some((a, prefix as u8)));
    if prefix == 0 {
        lemma_all_in_zero(a, b);
    }
    lemma_any_one(e, b);
    assert(entry_has(e, b) == set.has(b));
}

proof fn lemma_all_in_zero(a: IpAddr, b: IpAddr)
    ensures
        match (a, b) {
            (IpAddr::V4(x), IpAddr::V4(y)) => x as int / pow2(32) as int == y as int / pow2(
                32,
            ) as int,
            (IpAddr::V6(x), IpAddr::V6(y)) => x as int / pow2(128) as int == y as int / pow2(
                128,
            ) as int,
            _ => true,
        },
{
    vstd::arithmetic::power2::lemma2_to64();
    vstd::arithmetic::power2::lemma2_to64_rest();
    vstd::arithmetic::power2::lemma_pow2_adds(64, 64);
    assert(pow2(32) == 0x1_0000_0000);
    assert(pow2(64) == 0x1_0000_0000_0000_0000);
    assert(pow2(128) == 0x1_0000_0000_0000_0000 * 0x1_0000_0000_0000_0000);
    match (a, b) {
        (IpAddr::V4(x), IpAddr::V4(y)) => {
            vstd::arithmetic::div_mod::lemma_basic_div(x as int, pow2(32) as int);
            vstd::arithmetic::div_mod::lemma_basic_div(y as int, pow2(32) as int);
        },
        (IpAddr::V6(x), IpAddr::V6(y)) => {
            vstd::arithmetic::div_mod::lemma_basic_div(x as int, pow2(128) as int);
            vstd::arithmetic::div_mod::lemma_basic_div(y as int, pow2(128) as int);
        },
        _ => {},
    }
}

/// The lines of a watch list count each on its own: a list watches what its first
/// line watches and what the rest watches.
pub proof fn law_watch_lists_add_up(
    set: IpSet,
    line: Seq<char>,
    one: IpSet,
    rest: Seq<char>,
    others: IpSet,
    a: IpAddr,
)
    requires
        line.len() > 0,
        !line.contains('\n'),
        line.last() != '\r',
        set.reads(line + seq!['\n'] + rest),
        one.reads(line),
        others.reads(rest),
    ensures
        set.has(a) == (one.has(a) || others.has(a)),
{
    let text = line + seq!['\n'] + rest;
    lemma_has(set, text, a);
    lemma_has(one, line, a);
    lemma_has(others, rest, a);
    lemma_entries_add(line, rest);
    lemma_any_add(entries_of(line), entries_of(rest), a);
}

proof fn lemma_any_add(p: Seq<Seq<char>>, q: Seq<Seq<char>>, a: IpAddr)
    ensures
        any_has(p + q, a) == (any_has(p, a) || any_has(q, a)),
{
    let all = p + q;
    if any_has(p, a) {
        let i = choose|i: int| 0 <= i < p.len() && entry_has(#[trigger] p[i], a);
        assert(all[i] == p[i]);
    }
    if any_has(q, a) {
        let i = choose|i: int| 0 <= i < q.len() && entry_has(#[trigger] q[i], a);
        assert(all[p.len() + i] == q[i]);
    }
    if any_has(all, a) {
        let i = choose|i: int| 0 <= i < all.len() && entry_has(#[trigger] all[i], a);
        if i < p.len() {
            assert(p[i] == all[i]);
        } else {
            assert(q[i - p.len()] == all[i]);
        }
    }
}

proof fn lemma_entries_add(line: Seq<char>, rest: Seq<char>)
    requires
        line.len() > 0,
        !line.contains('\n'),
        line.last() != '\r',
    ensures
        entries_of(line + seq!['\n'] + rest) == entries_of(line) + entries_of(rest),
{
    let text = line + seq!['\n'] + rest;
    let keep = |e: Seq<char>| e.len() > 0;
    let f = |l: Seq<char>| entry_of(l);
    crate::text::law_lines_end_at_line_feeds(line, rest);
    let x = lines(line).map_values(f);
    let y = lines(rest).map_values(f);
    assert(lines(text).map_values(f) =~= x + y);
    Seq::filter_distributes_over_add(x, y, keep);
}

/// What follows a `#` on a line, and white space round an entry, make no
/// difference; a line of a comment alone names nothing.
pub proof fn law_comments_say_nothing(
    before: Seq<char>,
    e: Seq<char>,
    after: Seq<char>,
    comment: Seq<char>,
)
    requires
        is_entry(e),
        crate::text::all_white(before),
        crate::text::all_white(after),
    ensures
        entry_of(before + e + after) == e,
        entry_of(before + e + after + seq!['#'] + comment) == e,
        entry_of(before + seq!['#'] + comment).len() == 0,
{
    let s = before + e + after;
    assert(!before.contains('#')) by {
        if before.contains('#') {
            let i = choose|i: int| 0 <= i < before.len() && before[i] == '#';
            assert(crate::text::is_white(before[i]));
        }
    }
    assert(!s.contains('#')) by {
        if s.contains('#') {
            let i = choose|i: int| 0 <= i < s.len() && s[i] == '#';
            if i < before.len() {
                assert(before.contains(before[i]));
            } else if i < before.len() + e.len() {
                assert(e.contains(e[i - before.len()]));
            } else {
                assert(crate::text::is_white(after[i - before.len() - e.len()]));
            }
        }
    }
    crate::text::law_pieces_stand_between_separators(s, '#', comment);
    crate::text::law_pieces_stand_between_separators(before, '#', comment);
    lemma_trim_around(before, e, after);
    lemma_trim_around(before, Seq::empty(), Seq::empty());
    assert(before + Seq::<char>::empty() + Seq::<char>::empty() =~= before);
}

proof fn lemma_trim_around(before: Seq<char>, e: Seq<char>, after: Seq<char>)
    requires
        crate::text::all_white(before),
        crate::text::all_white(after),
        e.len() > 0 ==> !crate::text::is_white(e[0]) && !crate::text::is_white(e.last()),
        e.len() == 0 ==> after.len() == 0,
    ensures
        trimmed(before + e + after) == e,
    decreases before.len() + after.len(),
{
    let s = before + e + after;
    if before.len() > 0 {
        assert(crate::text::is_white(before[0]));
        let b = before.drop_first();
        assert forall|i: int| 0 <= i < b.len() implies crate::text::is_white(#[trigger] b[i]) by {
            assert(b[i] == before[i + 1]);
        }
        assert(s.drop_first() =~= b + e + after);
        lemma_trim_around(b, e, after);
    } else if after.len() > 0 {
        assert(s[0] == e[0]);
        assert(crate::text::is_white(after[after.len() - 1]));
        let t = after.drop_last();
        assert(s.drop_last() =~= before + e + t);
        assert((before + e + t)[0] == e[0]);
        lemma_trim_around(before, e, t);
    } else {
        assert(s =~= e);
    }
}

/// An address's scope follows from its octets: 127, 10, 172.16 to 172.31, 192.168,
/// 169.254 and 224 to 239 of IPv4, and the loopback, unspecified, multicast, unique
/// local and link-local addresses of IPv6.
pub proof fn law_scopes_follow_the_octets(a: u8, b: u8, c: u8, d: u8)
    ensures
        ({
            let v = (a * 0x100_0000 + b * 0x1_0000 + c * 0x100 + d) as u32;
            let scope = scope_of(IpAddr::V4(v));
            &&& a == 127 ==> scope == "Loopback"@
            &&& a == 10 ==> scope == "Private network"@
            &&& a == 172 && 16 <= b <= 31 ==> scope == "Private network"@
            &&& a == 192 && b == 168 ==> scope == "Private network"@
            &&& a == 169 && b == 254 ==> scope == "Link-local"@
            &&& 224 <= a <= 239 ==> scope == "Multicast"@
            &&& v == 0 ==> scope == "Unspecified"@
            &&& !(a == 127 || a == 10 || a == 172 && 16 <= b <= 31 || a == 192 && b == 168 || a
                == 169 && b == 254 || 224 <= a <= 239 || v == 0) ==> scope == "Public internet"@
        }),
{
}

/// The scope of an IPv6 address follows from its first group.
pub proof fn law_scopes_follow_the_first_group(first: u16, rest: u128)
    requires
        rest < 0x1_0000_0000_0000_0000_0000_0000_0000,
    ensures
        ({
            let v = (first * 0x1_0000_0000_0000_0000_0000_0000_0000 + rest) as u128;
            let scope = scope_of(IpAddr::V6(v));
            &&& v == 0 ==> scope == "Unspecified"@
            &&& v == 1 ==> scope == "Loopback"@
            &&& first / 0x100 == 0xff ==> scope == "Multicast"@
            &&& 0xfc00 <= first <= 0xfdff ==> scope == "Private network"@
            &&& 0xfe80 <= first <= 0xfebf ==> scope == "Link-local"@
            &&& v > 1 && first < 0xfc00 || 0xfe00 <= first < 0xfe80 || 0xfec0 <= first < 0xff00
                ==> scope == "Public internet"@
        }),
{
    let v = (first * 0x1_0000_0000_0000_0000_0000_0000_0000 + rest) as u128;
    assert(v as nat / 0x1_0000_0000_0000_0000_0000_0000_0000 == first);
}

} // verus!
