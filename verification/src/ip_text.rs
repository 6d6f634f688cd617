//! IP addresses as text.

use crate::ip::IpAddr;
use crate::text::{chars_of, dec_value, digit, is_digits, parse_dec, split, split_chars, views};
use vstd::prelude::*;

verus! {

/// The value of a decimal octet: up to three digits, no leading zero.
pub open spec fn octet_of(s: Seq<char>) -> Option<nat> {
    if 1 <= s.len() <= 3 && is_digits(s) && (s.len() == 1 || s[0] != '0') && dec_value(s) <= 255 {
        Some(dec_value(s))
    } else {
        None
    }
}

/// The address that four octets with dots between them spell.
pub open spec fn v4_of_text(s: Seq<char>) -> Option<nat> {
    let p = split(s, '.');
    if p.len() == 4 && octet_of(p[0]) is Some && octet_of(p[1]) is Some && octet_of(p[2]) is Some
        && octet_of(p[3]) is Some {
        Some(
            ((octet_of(p[0])->0 * 256 + octet_of(p[1])->0) * 256 + octet_of(p[2])->0) * 256
                + octet_of(p[3])->0,
        )
    } else {
        None
    }
}

/// The value of a hexadecimal digit.
pub open spec fn hex_digit(c: char) -> Option<nat> {
    let n = c as u32;
    if '0' as u32 <= n <= '9' as u32 {
        Some((n - '0' as u32) as nat)
    } else if 'a' as u32 <= n <= 'f' as u32 {
        Some((n - 'a' as u32 + 10) as nat)
    } else if 'A' as u32 <= n <= 'F' as u32 {
        Some((n - 'A' as u32 + 10) as nat)
    } else {
        None
    }
}

/// Whether every character is a hexadecimal digit.
pub open spec fn is_hex(s: Seq<char>) -> bool {
    forall|i: int| 0 <= i < s.len() ==> hex_digit(#[trigger] s[i]) is Some
}

/// The number that hexadecimal digits spell.
pub open spec fn hex_value(s: Seq<char>) -> nat
    decreases s.len(),
{
    if s.len() == 0 {
        0
    } else {
        16 * hex_value(s.drop_last()) + hex_digit(s.last())->0
    }
}

/// The value of a group: one to four hexadecimal digits.
pub open spec fn group_of(s: Seq<char>) -> Option<nat> {
    if 1 <= s.len() <= 4 && is_hex(s) {
        Some(hex_value(s))
    } else {
        None
    }
}

/// The groups that all the pieces spell.
pub open spec fn groups_of(pieces: Seq<Seq<char>>) -> Option<Seq<nat>>
    decreases pieces.len(),
{
    if pieces.len() == 0 {
        Some(Seq::empty())
    } else {
        match (groups_of(pieces.drop_last()), group_of(pieces.last())) {
            (Some(g), Some(n)) => Some(g.push(n)),
            _ => None,
        }
    }
}

/// The groups before a double colon.
pub open spec fn head_groups(s: Seq<char>) -> Option<Seq<nat>> {
    if s.len() == 0 {
        Some(Seq::empty())
    } else {
        groups_of(split(s, ':'))
    }
}

/// The groups at the end of an address. The last two may be written as an IPv4
/// address.
pub open spec fn tail_groups(s: Seq<char>) -> Option<Seq<nat>> {
    let p = split(s, ':');
    if s.len() == 0 {
        Some(Seq::empty())
    } else if v4_of_text(p.last()) is Some {
        let v = v4_of_text(p.last())->0;
        match groups_of(p.drop_last()) {
            Some(g) => Some(g.push(v / 0x1_0000).push(v % 0x1_0000)),
            None => None,
        }
    } else {
        groups_of(p)
    }
}

/// The position of the first double colon, or the length.
pub open spec fn find_gap(s: Seq<char>) -> nat
    decreases s.len(),
{
    if s.len() == 0 {
        0
    } else if s.len() >= 2 && s[0] == ':' && s[1] == ':' {
        0
    } else {
        1 + find_gap(s.drop_first())
    }
}

/// The groups of an address, where `s` spells one: eight groups, or fewer than
/// eight around a double colon that stands for the zeros between them.
pub open spec fn v6_groups(s: Seq<char>) -> Option<Seq<nat>> {
    let k = find_gap(s);
    if k >= s.len() {
        match tail_groups(s) {
            Some(g) if g.len() == 8 => Some(g),
            _ => None,
        }
    } else {
        match (head_groups(s.take(k as int)), tail_groups(s.skip(k as int + 2))) {
            (Some(h), Some(t)) if h.len() + t.len() <= 7 => Some(
                h + Seq::new((8 - h.len() - t.len()) as nat, |i: int| 0nat) + t,
            ),
            _ => None,
        }
    }
}

/// The number that groups spell.
pub open spec fn groups_value(g: Seq<nat>) -> nat
    decreases g.len(),
{
    if g.len() == 0 {
        0
    } else {
        0x1_0000 * groups_value(g.drop_last()) + g.last()
    }
}

/// The address that `s` spells.
pub open spec fn ip_of_text(s: Seq<char>) -> Option<IpAddr> {
    match v4_of_text(s) {
        Some(v) => Some(IpAddr::V4(v as u32)),
        None => match v6_groups(s) {
            Some(g) => Some(IpAddr::V6(groups_value(g) as u128)),
            None => None,
        },
    }
}

fn octet(s: &[char]) -> (r: Option<u32>)
    ensures
        match r {
            Some(v) => octet_of(s@) == Some(v as nat) && v <= 255,
            None => octet_of(s@) is None,
        },
{
    if s.len() == 0 || s.len() > 3 || (s.len() > 1 && s[0] == '0') {
        return None;
    }
    if !digit(s[0]) {
        assert(!crate::text::is_digit(s@[0]));
        return None;
    }
    assert(s@[0] != '+');
    match parse_dec(s, 255) {
        Some(v) => Some(v as u32),
        None => None,
    }
}

fn parse_v4(s: &[char]) -> (r: Option<u32>)
    ensures
        match r {
            Some(v) => v4_of_text(s@) == Some(v as nat),
            None => v4_of_text(s@) is None,
        },
{
    let parts = split_chars(s, '.');
    let ghost p = split(s@, '.');
    assert(p.len() == parts@.len());
    if parts.len() != 4 {
        return None;
    }
    assert(p[0] == parts@[0]@ && p[1] == parts@[1]@ && p[2] == parts@[2]@ && p[3] == parts@[3]@);
    match (
        octet(parts[0].as_slice()),
        octet(parts[1].as_slice()),
        octet(parts[2].as_slice()),
        octet(parts[3].as_slice()),
    ) {
        (Some(a), Some(b), Some(c), Some(d)) => Some(((a * 256 + b) * 256 + c) * 256 + d),
        _ => None,
    }
}

fn hex(c: char) -> (r: Option<u32>)
    ensures
        match r {
            Some(v) => hex_digit(c) == Some(v as nat) && v < 16,
            None => hex_digit(c) is None,
        },
{
    let n: u32 = c as u32;
    if 48 <= n && n <= 57 {
        Some(n - 48)
    } else if 97 <= n && n <= 102 {
        Some(n - 87)
    } else if 65 <= n && n <= 70 {
        Some(n - 55)
    } else {
        None
    }
}

fn group(s: &[char]) -> (r: Option<u32>)
    ensures
        match r {
            Some(v) => group_of(s@) == Some(v as nat) && v < 0x1_0000,
            None => group_of(s@) is None,
        },
{
    if s.len() == 0 || s.len() > 4 {
        return None;
    }
    let mut v: u32 = 0;
    let mut i: usize = 0;
    while i < s.len()
        invariant
            i <= s@.len() <= 4,
            forall|j: int| 0 <= j < i ==> hex_digit(#[trigger] s@[j]) is Some,
            v == hex_value(s@.take(i as int)),
            i == 0 ==> v < 1,
            i == 1 ==> v < 0x10,
            i == 2 ==> v < 0x100,
            i == 3 ==> v < 0x1000,
            i == 4 ==> v < 0x1_0000,
        decreases s@.len() - i,
    {
        assert(s@.take(i + 1).drop_last() =~= s@.take(i as int));
        match hex(s[i]) {
            Some(d) => {
                v = v * 16 + d;
            },
            None => {
                assert(hex_digit(s@[i as int]) is None);
                return None;
            },
        }
        i += 1;
    }
    assert(s@.take(i as int) =~= s@);
    Some(v)
}

/// The groups' values.
pub open spec fn group_values(g: Seq<u32>) -> Seq<nat> {
    g.map_values(|n: u32| n as nat)
}

proof fn lemma_groups_of_prefix(pieces: Seq<Seq<char>>, i: int)
    requires
        0 <= i <= pieces.len(),
        groups_of(pieces.take(i)) is None,
    ensures
        groups_of(pieces) is None,
    decreases pieces.len() - i,
{
    if i < pieces.len() {
        assert(pieces.take(i + 1).drop_last() =~= pieces.take(i));
        lemma_groups_of_prefix(pieces, i + 1);
    } else {
        assert(pieces.take(i) =~= pieces);
    }
}

fn groups(pieces: &Vec<Vec<char>>, n: usize) -> (r: Option<Vec<u32>>)
    requires
        n <= pieces@.len(),
    ensures
        match r {
            Some(g) => groups_of(views(pieces@).take(n as int)) == Some(group_values(g@)) && g@.len()
                == n && forall|j: int| 0 <= j < n ==> #[trigger] g@[j] < 0x1_0000,
            None => groups_of(views(pieces@).take(n as int)) is None,
        },
{
    let mut out: Vec<u32> = Vec::new();
    let ghost all = views(pieces@).take(n as int);
    assert(all.take(0) =~= Seq::empty());
    assert(group_values(out@) =~= Seq::empty());
    let mut i: usize = 0;
    while i < n
        invariant
            i <= n <= pieces@.len(),
            all == views(pieces@).take(n as int),
            groups_of(all.take(i as int)) == Some(group_values(out@)),
            out@.len() == i,
            forall|j: int| 0 <= j < i ==> #[trigger] out@[j] < 0x1_0000,
        decreases n - i,
    {
        assert(all.take(i + 1).drop_last() =~= all.take(i as int));
        assert(all[i as int] == pieces@[i as int]@);
        match group(pieces[i].as_slice()) {
            Some(v) => {
                let ghost before = out@;
                out.push(v);
                assert(group_values(out@) =~= group_values(before).push(v as nat));
            },
            None => {
                proof {
                    lemma_groups_of_prefix(all, i + 1);
                }
                return None;
            },
        }
        i += 1;
    }
    assert(all.take(n as int) =~= all);
    Some(out)
}

fn head(s: &[char]) -> (r: Option<Vec<u32>>)
    ensures
        match r {
            Some(g) => head_groups(s@) == Some(group_values(g@)) && forall|j: int|
                0 <= j < g@.len() ==> #[trigger] g@[j] < 0x1_0000,
            None => head_groups(s@) is None,
        },
{
    if s.len() == 0 {
        let out: Vec<u32> = Vec::new();
        assert(group_values(out@) =~= Seq::empty());
        return Some(out);
    }
    let pieces = split_chars(s, ':');
    assert(views(pieces@).take(pieces@.len() as int) =~= views(pieces@));
    groups(&pieces, pieces.len())
}

fn tail(s: &[char]) -> (r: Option<Vec<u32>>)
    ensures
        match r {
            Some(g) => tail_groups(s@) == Some(group_values(g@)) && forall|j: int|
                0 <= j < g@.len() ==> #[trigger] g@[j] < 0x1_0000,
            None => tail_groups(s@) is None,
        },
{
    if s.len() == 0 {
        let out: Vec<u32> = Vec::new();
        assert(group_values(out@) =~= Seq::empty());
        return Some(out);
    }
    let pieces = split_chars(s, ':');
    let ghost p = split(s@, ':');
    assert(p.len() == pieces@.len() && p.len() > 0);
    assert(p.last() == pieces@.last()@);
    match parse_v4(pieces[pieces.len() - 1].as_slice()) {
        Some(v) => {
            assert(views(pieces@).take(pieces@.len() - 1) =~= p.drop_last());
            match groups(&pieces, pieces.len() - 1) {
                Some(mut g) => {
                    let ghost before = group_values(g@);
                    g.push(v / 0x1_0000);
                    g.push(v % 0x1_0000);
                    assert(group_values(g@) =~= before.push(v as nat / 0x1_0000).push(
                        v as nat % 0x1_0000,
                    ));
                    Some(g)
                },
                None => None,
            }
        },
        None => {
            assert(views(pieces@).take(pieces@.len() as int) =~= p);
            groups(&pieces, pieces.len())
        },
    }
}

fn gap(s: &[char]) -> (k: usize)
    ensures
        k == find_gap(s@),
        k <= s@.len(),
        k < s@.len() ==> k + 2 <= s@.len(),
{
    let mut k: usize = 0;
    assert(s@.skip(0) =~= s@);
    while k < s.len()
        invariant
            k <= s@.len(),
            find_gap(s@) == k + find_gap(s@.skip(k as int)),
        decreases s@.len() - k,
    {
        let ghost rest = s@.skip(k as int);
        assert(rest.drop_first() =~= s@.skip(k + 1));
        if s.len() - k >= 2 && s[k] == ':' && s[k + 1] == ':' {
            assert(rest[0] == ':' && rest[1] == ':');
            return k;
        }
        k += 1;
    }
    k
}

proof fn lemma_groups_value_bound(g: Seq<nat>)
    requires
        g.len() <= 8,
        forall|j: int| 0 <= j < g.len() ==> #[trigger] g[j] < 0x1_0000,
    ensures
        groups_value(g) < crate::bytes::pow256(2 * g.len()),
    decreases g.len(),
{
    if g.len() > 0 {
        lemma_groups_value_bound(g.drop_last());
        reveal_with_fuel(crate::bytes::pow256, 3);
    }
}

fn join_groups(g: &Vec<u32>) -> (v: u128)
    requires
        g@.len() <= 8,
        forall|j: int| 0 <= j < g@.len() ==> #[trigger] g@[j] < 0x1_0000,
    ensures
        v == groups_value(group_values(g@)),
{
    let ghost all = group_values(g@);
    let mut v: u128 = 0;
    let mut i: usize = 0;
    while i < g.len()
        invariant
            i <= g@.len() <= 8,
            all == group_values(g@),
            forall|j: int| 0 <= j < g@.len() ==> #[trigger] g@[j] < 0x1_0000,
            v == groups_value(all.take(i as int)),
        decreases g@.len() - i,
    {
        proof {
            assert(all.take(i + 1).drop_last() =~= all.take(i as int));
            assert forall|j: int| 0 <= j < i + 1 implies #[trigger] all.take(i + 1)[j] < 0x1_0000 by {
                assert(g@[j] < 0x1_0000);
            }
            lemma_groups_value_bound(all.take(i + 1));
            crate::bytes::lemma_pow256_monotone((2 * (i + 1)) as nat, 16);
            crate::bytes::lemma_pow256_values();
        }
        v = v * 0x1_0000 + g[i] as u128;
        i += 1;
    }
    assert(all.take(i as int) =~= all);
    v
}

fn parse_v6(s: &[char]) -> (r: Option<u128>)
    ensures
        match r {
            Some(v) => v6_groups(s@) is Some && v == groups_value(v6_groups(s@)->0),
            None => v6_groups(s@) is None,
        },
{
    let k: usize = gap(s);
    if k == s.len() {
        return match tail(s) {
            Some(g) => if g.len() == 8 {
                Some(join_groups(&g))
            } else {
                None
            },
            None => None,
        };
    }
    let before = vstd::slice::slice_subrange(s, 0, k);
    let after = vstd::slice::slice_subrange(s, k + 2, s.len());
    assert(before@ =~= s@.take(k as int));
    assert(after@ =~= s@.skip(k as int + 2));
    match (head(before), tail(after)) {
        (Some(h), Some(t)) => {
            if h.len() > 7 || t.len() > 7 - h.len() {
                return None;
            }
            let ghost hs = group_values(h@);
            let ghost ts = group_values(t@);
            let ghost n = (8 - h@.len() - t@.len()) as nat;
            let mut all: Vec<u32> = Vec::new();
            let mut i: usize = 0;
            while i < h.len()
                invariant
                    i <= h@.len(),
                    all@ == h@.take(i as int),
                decreases h@.len() - i,
            {
                all.push(h[i]);
                i += 1;
                assert(h@.take(i as int) =~= h@.take(i - 1).push(h@[i - 1]));
            }
            assert(h@.take(i as int) =~= h@);
            while all.len() < 8 - t.len()
                invariant
                    h@.len() + t@.len() <= 7,
                    h@.len() <= all@.len() <= 8 - t@.len(),
                    all@ == h@ + Seq::new((all@.len() - h@.len()) as nat, |i: int| 0u32),
                decreases 8 - all@.len(),
            {
                all.push(0);
                assert(all@ =~= h@ + Seq::new((all@.len() - h@.len()) as nat, |i: int| 0u32));
            }
            let ghost mid = all@;
            let mut j: usize = 0;
            while j < t.len()
                invariant
                    j <= t@.len(),
                    all@ == mid + t@.take(j as int),
                decreases t@.len() - j,
            {
                all.push(t[j]);
                j += 1;
                assert(t@.take(j as int) =~= t@.take(j - 1).push(t@[j - 1]));
            }
            assert(t@.take(j as int) =~= t@);
            assert(group_values(all@) =~= hs + Seq::new(n, |i: int| 0nat) + ts);
            assert forall|x: int| 0 <= x < all@.len() implies #[trigger] all@[x] < 0x1_0000 by {
                if x >= mid.len() {
                    assert(all@[x] == t@[x - mid.len()]);
                } else if x < h@.len() {
                    assert(all@[x] == h@[x]);
                }
            }
            Some(join_groups(&all))
        },
        _ => None,
    }
}

impl IpAddr {
    /// The address that a text spells.
    pub fn parse(s: &str) -> (r: Option<IpAddr>)
        ensures
            r == ip_of_text(s@),
    {
        let c = chars_of(s);
        IpAddr::parse_chars(c.as_slice())
    }

    /// The address that a text spells.
    pub fn parse_chars(s: &[char]) -> (r: Option<IpAddr>)
        ensures
            r == ip_of_text(s@),
    {
        match parse_v4(s) {
            Some(v) => Some(IpAddr::V4(v)),
            None => match parse_v6(s) {
                Some(v) => Some(IpAddr::V6(v)),
                None => None,
            },
        }
    }
}

} // verus!
