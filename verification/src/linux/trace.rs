//! Who opened a TCP connection: samples of the kernel's state tracepoint.

use crate::bytes::{copy_range, le_bytes, le_nat, le_u16_at, le_u32_at, push_le};
use crate::ip::IpAddr;
use crate::linux::account::FlowKey;
use crate::linux::ct::{AF_INET, AF_INET6, IPPROTO_TCP};
use crate::text::{
    after_prefix, chars_of, find, find_char, lines, lines_of, owned, parse_dec, parsed_dec,
    same_chars, split, split_chars, strip_prefix, trim_chars, trimmed, views, words, words_of,
};
use vstd::arithmetic::power2::pow2;
use vstd::prelude::*;

verus! {

pub const PERF_RECORD_SAMPLE: u32 = 9;

/// How many pages of samples are mapped.
pub const DATA_PAGES: usize = 8;

/// The kind of event that a tracepoint is.
pub const PERF_TYPE_TRACEPOINT: u32 = 2;

/// The length of the attributes.
pub const ATTR_LEN: u32 = 64;

/// Samples hold the thread's process and number.
pub const PERF_SAMPLE_TID: u64 = 2;

/// Samples hold the tracepoint's own bytes.
pub const PERF_SAMPLE_RAW: u64 = 1024;

/// The attributes of a tracepoint of which every event is sampled, and each wakes
/// the reader.
pub open spec fn attributes(event_id: u64) -> Seq<u8> {
    le_bytes(PERF_TYPE_TRACEPOINT as nat, 4) + le_bytes(ATTR_LEN as nat, 4) + le_bytes(
        event_id as nat,
        8,
    ) + le_bytes(1, 8) + le_bytes((PERF_SAMPLE_TID + PERF_SAMPLE_RAW) as nat, 8) + le_bytes(0, 16)
        + le_bytes(1, 4) + le_bytes(0, 12)
}

/// The attributes of a tracepoint.
pub fn perf_attr(event_id: u64) -> (out: Vec<u8>)
    ensures
        out@ == attributes(event_id),
{
    let mut out: Vec<u8> = Vec::new();
    push_le(&mut out, PERF_TYPE_TRACEPOINT as u128, 4);
    assert(out@ =~= le_bytes(PERF_TYPE_TRACEPOINT as nat, 4));
    push_le(&mut out, ATTR_LEN as u128, 4);
    push_le(&mut out, event_id as u128, 8);
    push_le(&mut out, 1, 8);
    push_le(&mut out, PERF_SAMPLE_TID as u128 + PERF_SAMPLE_RAW as u128, 8);
    push_le(&mut out, 0, 16);
    push_le(&mut out, 1, 4);
    push_le(&mut out, 0, 12);
    out
}

/// The bytes to map of a ring of samples: a page of metadata, and the samples.
/// There are none where they are too many to count.
pub fn mapping_len(page: usize) -> (r: Option<usize>)
    ensures
        r == (if page * (1 + DATA_PAGES) <= usize::MAX {
            Some((page * (1 + DATA_PAGES)) as usize)
        } else {
            None::<usize>
        }),
{
    page.checked_mul(1 + DATA_PAGES)
}

/// The number of a tracepoint, from the text of its file.
pub fn tracepoint_id(text: &str) -> (r: Option<u64>)
    ensures
        match r {
            Some(n) => parsed_dec(trimmed(text@), u64::MAX as nat) == Some(n as nat),
            None => parsed_dec(trimmed(text@), u64::MAX as nat) is None,
        },
{
    let c = chars_of(text);
    parse_dec(trim_chars(c.as_slice()), u64::MAX)
}

/// Whether the tracepoint can be heard: a ring on one processor is enough.
pub fn opened(rings: usize) -> (r: Result<(), String>)
    ensures
        r is Ok == (rings > 0),
        r is Err ==> r->Err_0@ == "cannot open the TCP state tracepoint on any CPU"@,
{
    if rings > 0 {
        Ok(())
    } else {
        Err(owned("cannot open the TCP state tracepoint on any CPU"))
    }
}

/// A field of a sample.
#[derive(Debug, Clone, Copy, PartialEq, Eq, Structural)]
pub struct Field {
    pub offset: usize,
    pub size: usize,
}

/// Where the fields of a sample are.
#[derive(Debug, Clone, Copy, PartialEq, Eq, Structural)]
pub struct Fields {
    pub sport: Field,
    pub dport: Field,
    pub family: Field,
    pub protocol: Field,
    pub saddr: Field,
    pub daddr: Field,
    pub saddr_v6: Field,
    pub daddr_v6: Field,
}

/// A sample: the process, and the event's own bytes.
pub open spec fn sample_of(s: Seq<u8>) -> Option<(nat, Seq<u8>)> {
    let pid = le_nat(crate::bytes::at(s, 0, 4));
    let len = le_nat(crate::bytes::at(s, 8, 4)) as int;
    if s.len() >= 12 && 12 + len <= s.len() && pid != 0 {
        Some((pid, s.subrange(12, 12 + len)))
    } else {
        None
    }
}

/// Reads a sample. The process zero is none.
pub fn parse_sample(s: &[u8]) -> (r: Option<(u32, Vec<u8>)>)
    ensures
        match r {
            Some((pid, raw)) => sample_of(s@) == Some((pid as nat, raw@)),
            None => sample_of(s@) is None,
        },
{
    if s.len() < 12 {
        return None;
    }
    let pid: u32 = le_u32_at(s, 0);
    let len: usize = le_u32_at(s, 8) as usize;
    if s.len() - 12 < len || pid == 0 {
        return None;
    }
    assert(s.len() as nat == s@.len());
    Some((pid, copy_range(s, 12, 12 + len)))
}

/// `s` without the asterisks that it starts with.
pub open spec fn no_stars(s: Seq<char>) -> Seq<char>
    decreases s.len(),
{
    if s.len() > 0 && s[0] == '*' {
        no_stars(s.drop_first())
    } else {
        s
    }
}

/// The name that a declaration gives: its last word, without asterisks before it
/// and brackets behind it.
pub open spec fn declared_name(declaration: Seq<char>) -> Option<Seq<char>> {
    let w = words(declaration);
    if w.len() == 0 {
        None
    } else {
        let n = no_stars(w.last());
        Some(n.take(find(n, '[') as int))
    }
}

/// The number behind the first part that starts with `label`.
pub open spec fn labelled(parts: Seq<Seq<char>>, label: Seq<char>) -> Option<nat>
    decreases parts.len(),
{
    if parts.len() == 0 {
        None
    } else {
        match after_prefix(trimmed(parts[0]), label) {
            Some(v) => parsed_dec(trimmed(v), usize::MAX as nat),
            None => labelled(parts.drop_first(), label),
        }
    }
}

/// The field that a line of a format declares, where it is named `name`.
pub open spec fn field_of(line: Seq<char>, name: Seq<char>) -> Option<Field> {
    let parts = split(line, ';');
    match after_prefix(trimmed(line), "field:"@) {
        Some(rest) => {
            let declaration = rest.take(find(rest, ';') as int);
            match (declared_name(declaration), labelled(parts, "offset:"@), labelled(
                parts,
                "size:"@,
            )) {
                (Some(n), Some(offset), Some(size)) if n == name => Some(
                    Field { offset: offset as usize, size: size as usize },
                ),
                _ => None,
            }
        },
        None => None,
    }
}

/// The first field named `name`.
pub open spec fn first_field(ls: Seq<Seq<char>>, name: Seq<char>) -> Option<Field>
    decreases ls.len(),
{
    if ls.len() == 0 {
        None
    } else if field_of(ls[0], name) is Some {
        field_of(ls[0], name)
    } else {
        first_field(ls.drop_first(), name)
    }
}

fn number(line: &[char], label: &str) -> (r: Option<usize>)
    ensures
        match r {
            Some(n) => labelled(split(line@, ';'), label@) == Some(n as nat),
            None => labelled(split(line@, ';'), label@) is None,
        },
{
    let parts = split_chars(line, ';');
    let ghost all = split(line@, ';');
    let mut i: usize = 0;
    assert(all.skip(0) =~= all);
    while i < parts.len()
        invariant
            i <= parts@.len(),
            all == views(parts@),
            all == split(line@, ';'),
            labelled(all.skip(i as int), label@) == labelled(all, label@),
        decreases parts@.len() - i,
    {
        assert(all.skip(i as int)[0] == parts@[i as int]@);
        assert(all.skip(i as int).drop_first() =~= all.skip(i + 1));
        if let Some(v) = strip_prefix(trim_chars(parts[i].as_slice()), label) {
            return match parse_dec(trim_chars(v), usize::MAX as u64) {
                Some(n) => Some(n as usize),
                None => None,
            };
        }
        i += 1;
    }
    None
}

/// Reads a line of a format.
pub fn parse_field(line: &[char], name: &str) -> (r: Option<Field>)
    ensures
        r == field_of(line@, name@),
{
    let rest = match strip_prefix(trim_chars(line), "field:") {
        Some(r) => r,
        None => {
            return None;
        },
    };
    let end: usize = find_char(rest, ';');
    let declaration = vstd::slice::slice_subrange(rest, 0, end);
    assert(declaration@ =~= rest@.take(end as int));
    let w = words_of(declaration);
    let ghost all = words(declaration@);
    assert(all.len() == w@.len());
    if w.len() == 0 {
        return None;
    }
    let last = w[w.len() - 1].as_slice();
    assert(all.last() == last@);
    let mut k: usize = 0;
    assert(last@.skip(0) =~= last@);
    while k < last.len() && last[k] == '*'
        invariant
            k <= last@.len(),
            no_stars(last@.skip(k as int)) == no_stars(last@),
        decreases last@.len() - k,
    {
        assert(last@.skip(k as int).drop_first() =~= last@.skip(k + 1));
        k += 1;
    }
    let bare = vstd::slice::slice_subrange(last, k, last.len());
    assert(bare@ =~= last@.skip(k as int));
    let n: usize = find_char(bare, '[');
    let found = vstd::slice::slice_subrange(bare, 0, n);
    assert(found@ =~= bare@.take(n as int));
    let want = chars_of(name);
    if !same_chars(found, want.as_slice()) {
        return None;
    }
    match (number(line, "offset:"), number(line, "size:")) {
        (Some(offset), Some(size)) => Some(Field { offset, size }),
        _ => None,
    }
}

/// The sentence about a field that a format does not have.
pub open spec fn missing_text(name: Seq<char>) -> Seq<char> {
    "tracepoint field "@ + name + " is missing"@
}

fn find_field(ls: &Vec<Vec<char>>, name: &str) -> (r: Result<Field, String>)
    ensures
        match r {
            Ok(f) => first_field(views(ls@), name@) == Some(f),
            Err(m) => first_field(views(ls@), name@) is None && m@ == missing_text(name@),
        },
{
    let ghost all = views(ls@);
    let mut i: usize = 0;
    assert(all.skip(0) =~= all);
    while i < ls.len()
        invariant
            i <= ls@.len(),
            all == views(ls@),
            first_field(all.skip(i as int), name@) == first_field(all, name@),
        decreases ls@.len() - i,
    {
        assert(all.skip(i as int)[0] == ls@[i as int]@);
        assert(all.skip(i as int).drop_first() =~= all.skip(i + 1));
        if let Some(f) = parse_field(ls[i].as_slice(), name) {
            return Ok(f);
        }
        i += 1;
    }
    let mut m = owned("tracepoint field ");
    m.push_str(name);
    m.push_str(" is missing");
    Err(m)
}

/// The names of the fields, in the order in which they are looked for.
pub open spec fn field_names() -> Seq<Seq<char>> {
    seq![
        "sport"@,
        "dport"@,
        "family"@,
        "protocol"@,
        "saddr"@,
        "daddr"@,
        "saddr_v6"@,
        "daddr_v6"@,
    ]
}

/// Which of the names from the `i`th on is the first that a format lacks.
pub open spec fn first_missing(ls: Seq<Seq<char>>, i: int) -> Option<Seq<char>>
    decreases 8 - i,
{
    if i >= 8 {
        None
    } else if first_field(ls, field_names()[i]) is None {
        Some(field_names()[i])
    } else {
        first_missing(ls, i + 1)
    }
}

impl Fields {
    /// Reads where the fields are from a tracepoint's format. Without one of them
    /// it fails and names the first that is missing.
    pub fn parse(format: &str) -> (r: Result<Fields, String>)
        ensures
            ({
                let ls = lines(format@);
                match r {
                    Ok(f) => first_missing(ls, 0) is None && first_field(ls, "sport"@) == Some(
                        f.sport,
                    ) && first_field(ls, "dport"@) == Some(f.dport) && first_field(
                        ls,
                        "family"@,
                    ) == Some(f.family) && first_field(ls, "protocol"@) == Some(f.protocol)
                        && first_field(ls, "saddr"@) == Some(f.saddr) && first_field(
                        ls,
                        "daddr"@,
                    ) == Some(f.daddr) && first_field(ls, "saddr_v6"@) == Some(f.saddr_v6)
                        && first_field(ls, "daddr_v6"@) == Some(f.daddr_v6),
                    Err(m) => first_missing(ls, 0) is Some && m@ == missing_text(
                        first_missing(ls, 0)->0,
                    ),
                }
            }),
    {
        proof {
            reveal_with_fuel(first_missing, 9);
        }
        let c = chars_of(format);
        let ls = lines_of(c.as_slice());
        let sport = match find_field(&ls, "sport") {
            Ok(f) => f,
            Err(m) => {
                return Err(m);
            },
        };
        let dport = match find_field(&ls, "dport") {
            Ok(f) => f,
            Err(m) => {
                return Err(m);
            },
        };
        let family = match find_field(&ls, "family") {
            Ok(f) => f,
            Err(m) => {
                return Err(m);
            },
        };
        let protocol = match find_field(&ls, "protocol") {
            Ok(f) => f,
            Err(m) => {
                return Err(m);
            },
        };
        let saddr = match find_field(&ls, "saddr") {
            Ok(f) => f,
            Err(m) => {
                return Err(m);
            },
        };
        let daddr = match find_field(&ls, "daddr") {
            Ok(f) => f,
            Err(m) => {
                return Err(m);
            },
        };
        let saddr_v6 = match find_field(&ls, "saddr_v6") {
            Ok(f) => f,
            Err(m) => {
                return Err(m);
            },
        };
        let daddr_v6 = match find_field(&ls, "daddr_v6") {
            Ok(f) => f,
            Err(m) => {
                return Err(m);
            },
        };
        Ok(Fields { sport, dport, family, protocol, saddr, daddr, saddr_v6, daddr_v6 })
    }

    /// The connection that a sample is about.
    pub open spec fn flow_of(&self, raw: Seq<u8>) -> Option<FlowKey> {
        let family = half(raw, self.family);
        match (half(raw, self.protocol), half(raw, self.sport), half(raw, self.dport), family) {
            (Some(proto), Some(sport), Some(dport), Some(family)) => if proto == IPPROTO_TCP
                && sport != 0 && dport != 0 {
                let ends = if family == AF_INET {
                    match (field_bytes(raw, self.saddr, 4), field_bytes(raw, self.daddr, 4)) {
                        (Some(s), Some(d)) => Some((IpAddr::v4_of(s), IpAddr::v4_of(d))),
                        _ => None,
                    }
                } else if family == AF_INET6 {
                    match (field_bytes(raw, self.saddr_v6, 16), field_bytes(
                        raw,
                        self.daddr_v6,
                        16,
                    )) {
                        (Some(s), Some(d)) => Some((IpAddr::v6_of(s), IpAddr::v6_of(d))),
                        _ => None,
                    }
                } else {
                    None
                };
                match ends {
                    Some((s, d)) => Some(
                        FlowKey { local: (s, sport as u16), remote: (d, dport as u16) },
                    ),
                    None => None,
                }
            } else {
                None
            },
            _ => None,
        }
    }

    /// Reads the connection that a sample is about: a TCP connection with both
    /// ports.
    pub fn flow(&self, raw: &[u8]) -> (r: Option<FlowKey>)
        ensures
            r == self.flow_of(raw@),
    {
        let (proto, sport, dport, family) = match (
            read_u16(raw, self.protocol),
            read_u16(raw, self.sport),
            read_u16(raw, self.dport),
            read_u16(raw, self.family),
        ) {
            (Some(a), Some(b), Some(c), Some(d)) => (a, b, c, d),
            _ => {
                return None;
            },
        };
        if proto != IPPROTO_TCP as u16 || sport == 0 || dport == 0 {
            return None;
        }
        if family == AF_INET as u16 {
            match (read_array(raw, self.saddr, 4), read_array(raw, self.daddr, 4)) {
                (Some(s), Some(d)) => Some(
                    FlowKey {
                        local: (IpAddr::from_v4(s), sport),
                        remote: (IpAddr::from_v4(d), dport),
                    },
                ),
                _ => None,
            }
        } else if family == AF_INET6 as u16 {
            match (read_array(raw, self.saddr_v6, 16), read_array(raw, self.daddr_v6, 16)) {
                (Some(s), Some(d)) => Some(
                    FlowKey {
                        local: (IpAddr::from_v6(s), sport),
                        remote: (IpAddr::from_v6(d), dport),
                    },
                ),
                _ => None,
            }
        } else {
            None
        }
    }
}

/// The bytes of a field of a given size.
pub open spec fn field_bytes(raw: Seq<u8>, f: Field, size: nat) -> Option<Seq<u8>> {
    if f.size == size && f.offset + size <= raw.len() {
        Some(raw.subrange(f.offset as int, f.offset + size))
    } else {
        None
    }
}

/// The number in a field of two bytes.
pub open spec fn half(raw: Seq<u8>, f: Field) -> Option<nat> {
    match field_bytes(raw, f, 2) {
        Some(b) => Some(le_nat(b)),
        None => None,
    }
}

fn read_array(raw: &[u8], f: Field, size: usize) -> (r: Option<&[u8]>)
    ensures
        match r {
            Some(b) => field_bytes(raw@, f, size as nat) == Some(b@) && b@.len() == size,
            None => field_bytes(raw@, f, size as nat) is None,
        },
{
    if f.size != size || f.offset > raw.len() || raw.len() - f.offset < size {
        return None;
    }
    assert(raw.len() as nat == raw@.len());
    Some(vstd::slice::slice_subrange(raw, f.offset, f.offset + size))
}

fn read_u16(raw: &[u8], f: Field) -> (r: Option<u16>)
    ensures
        match r {
            Some(v) => half(raw@, f) == Some(v as nat),
            None => half(raw@, f) is None,
        },
{
    match read_array(raw, f, 2) {
        Some(b) => {
            assert(crate::bytes::at(b@, 0, 2) =~= b@);
            Some(le_u16_at(b, 0))
        },
        None => None,
    }
}

/// Whether a ring of samples is one: it has a place, its size is a power of two,
/// and it fits what is mapped.
pub open spec fn ring_fits(offset: nat, size: nat, mapped: nat) -> bool {
    offset != 0 && (exists|n: nat| #[trigger] pow2(n) == size) && offset + size <= mapped
}

fn is_power_of_two(size: usize) -> (r: bool)
    ensures
        r == (exists|n: nat| #[trigger] pow2(n) == size),
{
    if size == 0 {
        assert forall|n: nat| #[trigger] pow2(n) != 0 by {
            vstd::arithmetic::power2::lemma_pow2_pos(n);
        }
        return false;
    }
    let mut rest: usize = size;
    let ghost mut k = 0nat;
    proof {
        vstd::arithmetic::power2::lemma2_to64();
        assert(size == rest * pow2(0)) by (nonlinear_arith)
            requires
                pow2(0) == 1,
                size == rest,
        ;
    }
    while rest % 2 == 0
        invariant
            rest > 0,
            size == rest * pow2(k),
        decreases rest,
    {
        proof {
            let half = rest as int / 2;
            vstd::arithmetic::power2::lemma_pow2_unfold(k + 1);
            assert(half * (2 * pow2(k)) == (2 * half) * pow2(k)) by (nonlinear_arith);
            k = k + 1;
        }
        rest = rest / 2;
    }
    proof {
        if rest == 1 {
            assert(pow2(k) == size) by (nonlinear_arith)
                requires
                    size == rest * pow2(k),
                    rest == 1,
            ;
        } else {
            assert forall|n: nat| #[trigger] pow2(n) != size by {
                lemma_odd_part(n, k, rest as nat, size as nat);
            }
        }
    }
    rest == 1
}

proof fn lemma_odd_part(n: nat, k: nat, rest: nat, size: nat)
    requires
        rest % 2 == 1,
        rest > 1,
        size == rest * pow2(k),
    ensures
        pow2(n) != size,
    decreases n + k,
{
    vstd::arithmetic::power2::lemma2_to64();
    vstd::arithmetic::power2::lemma_pow2_pos(k);
    if n == 0 {
        assert(size > 1) by (nonlinear_arith)
            requires
                size == rest * pow2(k),
                rest > 1,
                pow2(k) > 0,
        ;
    } else if k == 0 {
        vstd::arithmetic::power2::lemma_pow2_unfold(n);
        assert(size == rest) by (nonlinear_arith)
            requires
                size == rest * pow2(k),
                pow2(k) == 1,
        ;
    } else {
        vstd::arithmetic::power2::lemma_pow2_unfold(n);
        vstd::arithmetic::power2::lemma_pow2_unfold(k);
        let smaller = rest * pow2((k - 1) as nat);
        lemma_odd_part((n - 1) as nat, (k - 1) as nat, rest, smaller);
        assert(size == 2 * smaller) by (nonlinear_arith)
            requires
                size == rest * pow2(k),
                pow2(k) == 2 * pow2((k - 1) as nat),
                smaller == rest * pow2((k - 1) as nat),
        ;
    }
}

/// Whether the metadata of a ring of samples is sound.
pub fn valid_ring(offset: usize, size: usize, mapped: usize) -> (r: bool)
    ensures
        r == ring_fits(offset as nat, size as nat, mapped as nat),
{
    offset != 0 && is_power_of_two(size) && offset <= mapped && size <= mapped - offset
}

/// The bytes from a position of a ring on. Positions go round.
pub open spec fn ring_bytes(ring: Seq<u8>, at: nat, n: nat) -> Seq<u8> {
    Seq::new(n, |i: int| ring[(at + i) % (ring.len() as int)])
}

fn copy_from_ring(ring: &[u8], at: u64, n: usize) -> (out: Vec<u8>)
    requires
        ring@.len() > 0,
    ensures
        out@ == ring_bytes(ring@, at as nat, n as nat),
{
    let mut out: Vec<u8> = Vec::new();
    let mut i: usize = 0;
    while i < n
        invariant
            i <= n,
            ring@.len() > 0,
            out@ == ring_bytes(ring@, at as nat, i as nat),
        decreases n - i,
    {
        let k: usize = ((at as u128 + i as u128) % (ring.len() as u128)) as usize;
        out.push(ring[k]);
        i += 1;
        assert(out@ =~= ring_bytes(ring@, at as nat, i as nat));
    }
    out
}

/// The samples between two positions of a ring, up to the first record whose
/// length cannot be.
pub open spec fn samples_between(ring: Seq<u8>, tail: nat, head: nat) -> Seq<Seq<u8>>
    decreases
            (if tail < head {
                head - tail
            } else {
                0
            }),
{
    if tail >= head {
        Seq::empty()
    } else {
        let header = ring_bytes(ring, tail, 8);
        let kind = le_nat(crate::bytes::at(header, 0, 4));
        let size = le_nat(crate::bytes::at(header, 6, 2));
        if size < 8 || size > ring.len() || size > head - tail {
            Seq::empty()
        } else {
            let rest = samples_between(ring, tail + size, head);
            if kind == PERF_RECORD_SAMPLE {
                seq![ring_bytes(ring, tail, size).skip(8)] + rest
            } else {
                rest
            }
        }
    }
}

/// Takes the samples from a ring. Everything up to `head` is then read: that is
/// the new tail, unless the tail is past it already.
pub fn drain(ring: &[u8], head: u64, tail: u64) -> (r: (Vec<Vec<u8>>, u64))
    requires
        ring@.len() > 0,
    ensures
        r.0@.map_values(|v: Vec<u8>| v@) == samples_between(ring@, tail as nat, head as nat),
        r.1 == (if tail < head {
            head
        } else {
            tail
        }),
{
    let mut out: Vec<Vec<u8>> = Vec::new();
    let mut at: u64 = tail;
    let ghost whole = samples_between(ring@, tail as nat, head as nat);
    let ghost seqs = |v: Vec<u8>| v@;
    assert(out@.map_values(seqs) =~= Seq::empty());
    assert(Seq::<Seq<u8>>::empty() + whole =~= whole);
    while at < head
        invariant
            ring@.len() > 0,
            seqs == (|v: Vec<u8>| v@),
            tail < head ==> at <= head,
            tail >= head ==> at == tail,
            whole == samples_between(ring@, tail as nat, head as nat),
            out@.map_values(seqs) + samples_between(ring@, at as nat, head as nat) == whole,
        decreases head - at,
    {
        let ghost done = out@.map_values(seqs);
        let header = copy_from_ring(ring, at, 8);
        let kind: u32 = le_u32_at(header.as_slice(), 0);
        let size: usize = le_u16_at(header.as_slice(), 6) as usize;
        if size < 8 || size > ring.len() || size as u64 > head - at {
            assert(done + Seq::<Seq<u8>>::empty() =~= done);
            return (out, head);
        }
        let ghost rest = samples_between(ring@, (at + size) as nat, head as nat);
        if kind == PERF_RECORD_SAMPLE {
            let record = copy_from_ring(ring, at, size);
            let sample = copy_range(record.as_slice(), 8, size);
            assert(sample@ =~= ring_bytes(ring@, at as nat, size as nat).skip(8));
            out.push(sample);
            assert(out@.map_values(seqs) =~= done.push(sample@));
            assert(done + (seq![sample@] + rest) =~= done.push(sample@) + rest);
        }
        at += size as u64;
    }
    assert(out@.map_values(seqs) + Seq::<Seq<u8>>::empty() =~= out@.map_values(seqs));
    (out, at)
}

/// A record of a ring: its kind, its length and what it holds.
pub open spec fn record(kind: nat, flags: Seq<u8>, payload: Seq<u8>) -> Seq<u8> {
    le_bytes(kind, 4) + flags + le_bytes(8 + payload.len(), 2) + payload
}

/// Whether bytes stand in a ring from a position on.
pub open spec fn stands_at(ring: Seq<u8>, at: nat, bytes: Seq<u8>) -> bool {
    forall|i: int|
        0 <= i < bytes.len() ==> #[trigger] bytes[i] == ring[(at + i) % (ring.len() as int)]
}

/// What was written to a ring is read from it, record by record and round its end:
/// a sample is what its record holds, records of other kinds are passed over, and
/// what follows is read from where the record ends.
pub proof fn law_records_read_back(
    ring: Seq<u8>,
    tail: nat,
    head: nat,
    kind: nat,
    flags: Seq<u8>,
    payload: Seq<u8>,
)
    requires
        ring.len() > 0,
        kind < 0x1_0000_0000,
        flags.len() == 2,
        8 + payload.len() <= ring.len(),
        8 + payload.len() < 0x1_0000,
        tail + 8 + payload.len() <= head,
        stands_at(ring, tail, record(kind, flags, payload)),
    ensures
        samples_between(ring, tail, head) == (if kind == 9 {
            seq![payload]
        } else {
            Seq::empty()
        }) + samples_between(ring, tail + 8 + payload.len(), head),
        samples_between(ring, head, head) == Seq::<Seq<u8>>::empty(),
{
    let n = 8 + payload.len();
    let r = record(kind, flags, payload);
    crate::bytes::lemma_pow256_values();
    crate::bytes::lemma_le_bytes_len(kind, 4);
    crate::bytes::lemma_le_bytes_len(n, 2);
    crate::bytes::law_le_round_trip(kind, 4);
    crate::bytes::law_le_round_trip(n, 2);
    assert forall|i: int| 0 <= i < n implies #[trigger] ring_bytes(ring, tail, n)[i] == r[i] by {}
    assert(ring_bytes(ring, tail, n) =~= r);
    let header = ring_bytes(ring, tail, 8);
    assert forall|i: int| 0 <= i < 8 implies #[trigger] header[i] == r[i] by {
        assert(ring_bytes(ring, tail, n)[i] == r[i]);
    }
    assert(crate::bytes::at(header, 0, 4) =~= le_bytes(kind, 4));
    assert(crate::bytes::at(header, 6, 2) =~= le_bytes(n, 2));
    assert(r.skip(8) =~= payload);
    let rest = samples_between(ring, tail + n, head);
    assert(Seq::<Seq<u8>>::empty() + rest =~= rest);
}

/// A sample names the process it was taken in and holds the tracepoint's bytes; the
/// idle process is nobody's.
pub proof fn law_samples_read_back(pid: u32, thread: Seq<u8>, raw: Seq<u8>, rest: Seq<u8>)
    requires
        thread.len() == 4,
        raw.len() < 0x1_0000_0000,
    ensures
        sample_of(
            le_bytes(pid as nat, 4) + thread + le_bytes(raw.len(), 4) + raw + rest,
        ) == (if pid == 0 {
            None
        } else {
            Some((pid as nat, raw))
        }),
{
    let (p, l) = (le_bytes(pid as nat, 4), le_bytes(raw.len(), 4));
    let s = p + thread + l + raw + rest;
    crate::bytes::lemma_pow256_values();
    crate::bytes::lemma_le_bytes_len(pid as nat, 4);
    crate::bytes::lemma_le_bytes_len(raw.len(), 4);
    crate::bytes::law_le_round_trip(pid as nat, 4);
    crate::bytes::law_le_round_trip(raw.len(), 4);
    assert(crate::bytes::at(s, 0, 4) =~= p);
    assert(crate::bytes::at(s, 8, 4) =~= l);
    assert(s.subrange(12, 12 + raw.len() as int) =~= raw);
}

/// Whether a field of some bytes holds a value.
pub open spec fn holds(raw: Seq<u8>, f: Field, value: Seq<u8>) -> bool {
    &&& f.size == value.len()
    &&& f.offset + f.size <= raw.len()
    &&& raw.subrange(f.offset as int, f.offset + f.size) == value
}

/// The bytes of a tracepoint name the connection whose addresses and ports stand in
/// its fields, for TCP and where neither port is zero; the fields of the other
/// family do not matter.
pub proof fn law_tracepoints_name_their_connection(
    fields: Fields,
    raw: Seq<u8>,
    protocol: u16,
    local: (IpAddr, u16),
    remote: (IpAddr, u16),
)
    requires
        local.0 is V4 == remote.0 is V4,
        holds(raw, fields.protocol, le_bytes(protocol as nat, 2)),
        holds(raw, fields.sport, le_bytes(local.1 as nat, 2)),
        holds(raw, fields.dport, le_bytes(remote.1 as nat, 2)),
        local.0 is V4 ==> holds(raw, fields.family, le_bytes(2, 2)) && holds(
            raw,
            fields.saddr,
            local.0.octets_of(),
        ) && holds(raw, fields.daddr, remote.0.octets_of()),
        local.0 is V6 ==> holds(raw, fields.family, le_bytes(10, 2)) && holds(
            raw,
            fields.saddr_v6,
            local.0.octets_of(),
        ) && holds(raw, fields.daddr_v6, remote.0.octets_of()),
    ensures
        fields.flow_of(raw) == (if protocol == 6 && local.1 != 0 && remote.1 != 0 {
            Some(FlowKey { local, remote })
        } else {
            None
        }),
{
    crate::bytes::lemma_pow256_values();
    lemma_half(protocol);
    lemma_half(local.1);
    lemma_half(remote.1);
    lemma_half(2);
    lemma_half(10);
    crate::ip::law_octets_identify_the_address(local.0);
    crate::ip::law_octets_identify_the_address(remote.0);
}

proof fn lemma_half(n: u16)
    ensures
        le_bytes(n as nat, 2).len() == 2,
        le_nat(le_bytes(n as nat, 2)) == n,
{
    crate::bytes::lemma_pow256_values();
    crate::bytes::lemma_le_bytes_len(n as nat, 2);
    crate::bytes::law_le_round_trip(n as nat, 2);
}

/// The field that is found for a name is that of the first line that declares it.
pub proof fn law_the_first_declaration_counts(
    before: Seq<Seq<char>>,
    line: Seq<char>,
    after: Seq<Seq<char>>,
    name: Seq<char>,
)
    requires
        forall|i: int| 0 <= i < before.len() ==> field_of(#[trigger] before[i], name) is None,
        field_of(line, name) is Some,
    ensures
        first_field(before + seq![line] + after, name) == field_of(line, name),
        first_field(before, name) is None,
    decreases before.len(),
{
    let all = before + seq![line] + after;
    if before.len() > 0 {
        let b = before.drop_first();
        assert forall|i: int| 0 <= i < b.len() implies field_of(#[trigger] b[i], name) is None by {
            assert(b[i] == before[i + 1]);
        }
        assert(field_of(before[0], name) is None);
        law_the_first_declaration_counts(b, line, after, name);
        assert(all.drop_first() =~= b + seq![line] + after);
        assert(all[0] == before[0]);
    } else {
        assert(all[0] == line);
    }
}

/// Whether lines declare every field that is needed.
pub open spec fn all_declared(ls: Seq<Seq<char>>) -> bool {
    &&& first_field(ls, "sport"@) is Some
    &&& first_field(ls, "dport"@) is Some
    &&& first_field(ls, "family"@) is Some
    &&& first_field(ls, "protocol"@) is Some
    &&& first_field(ls, "saddr"@) is Some
    &&& first_field(ls, "daddr"@) is Some
    &&& first_field(ls, "saddr_v6"@) is Some
    &&& first_field(ls, "daddr_v6"@) is Some
}

/// No field is missing where all eight are declared, and the one that is told to be
/// missing is not declared.
pub proof fn law_missing_fields_are_told(ls: Seq<Seq<char>>)
    ensures
        first_missing(ls, 0) is None <==> all_declared(ls),
        first_missing(ls, 0) matches Some(name) ==> first_field(ls, name) is None,
{
    reveal_with_fuel(first_missing, 9);
    let n = field_names();
    assert(n[0] == "sport"@ && n[1] == "dport"@ && n[2] == "family"@ && n[3] == "protocol"@);
    assert(n[4] == "saddr"@ && n[5] == "daddr"@ && n[6] == "saddr_v6"@ && n[7] == "daddr_v6"@);
}

} // verus!
