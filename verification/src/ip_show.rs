//! IP addresses written as text.

use crate::ip::IpAddr;
use crate::text::{dec_text, push_dec};
use vstd::prelude::*;

verus! {

/// Pieces with a separator between them.
pub open spec fn joined_by(pieces: Seq<Seq<char>>, sep: char) -> Seq<char>
    decreases pieces.len(),
{
    if pieces.len() == 0 {
        Seq::empty()
    } else if pieces.len() == 1 {
        pieces[0]
    } else {
        joined_by(pieces.drop_last(), sep).push(sep) + pieces.last()
    }
}

/// The octets of an IPv4 address, in decimal.
pub open spec fn v4_text(v: nat) -> Seq<char> {
    joined_by(
        seq![
            dec_text(v / 0x100_0000 % 256),
            dec_text(v / 0x1_0000 % 256),
            dec_text(v / 0x100 % 256),
            dec_text(v % 256),
        ],
        '.',
    )
}

/// The character of a hexadecimal digit.
pub open spec fn hex_char(d: nat) -> char {
    if d < 10 {
        ('0' as u32 + d) as char
    } else {
        ('a' as u32 + d - 10) as char
    }
}

/// A number in hexadecimal, without leading zeros.
pub open spec fn hex_text(n: nat) -> Seq<char>
    decreases n,
{
    if n < 16 {
        seq![hex_char(n)]
    } else {
        hex_text(n / 16).push(hex_char(n % 16))
    }
}

/// The low `n` groups of sixteen bits of a number, most significant first.
pub open spec fn groups_from(v: nat, n: nat) -> Seq<nat>
    decreases n,
{
    if n == 0 {
        Seq::empty()
    } else {
        groups_from(v / 0x1_0000, (n - 1) as nat).push(v % 0x1_0000)
    }
}

/// How many zeros follow each other from `i` on.
pub open spec fn zeros_from(g: Seq<nat>, i: int) -> nat
    decreases g.len() - i,
{
    if 0 <= i < g.len() && g[i] == 0 {
        1 + zeros_from(g, i + 1)
    } else {
        0
    }
}

/// Where, among the first `n` positions, the longest run of zeros starts; of runs
/// as long, the first one.
pub open spec fn longest_run(g: Seq<nat>, n: int) -> int
    decreases n,
{
    if n <= 1 {
        0
    } else {
        let before = longest_run(g, n - 1);
        if zeros_from(g, n - 1) > zeros_from(g, before) {
            n - 1
        } else {
            before
        }
    }
}

/// Groups in hexadecimal, with colons between them.
pub open spec fn groups_text(g: Seq<nat>) -> Seq<char> {
    joined_by(g.map_values(|n: nat| hex_text(n)), ':')
}

/// An IPv6 address: its groups, with a double colon for the longest run of two or
/// more zeros. One with an IPv4 address in it ends in that address.
pub open spec fn v6_text(v: nat) -> Seq<char> {
    if v / 0x1_0000_0000 == 0xffff {
        "::ffff:"@ + v4_text(v % 0x1_0000_0000)
    } else {
        let g = groups_from(v, 8);
        let at = longest_run(g, 8);
        let n = zeros_from(g, at) as int;
        if n > 1 {
            groups_text(g.take(at)) + "::"@ + groups_text(g.skip(at + n))
        } else {
            groups_text(g)
        }
    }
}

/// The text of an address.
pub open spec fn ip_text(a: IpAddr) -> Seq<char> {
    match a {
        IpAddr::V4(v) => v4_text(v as nat),
        IpAddr::V6(v) => v6_text(v as nat),
    }
}

proof fn lemma_joined_push(pieces: Seq<Seq<char>>, p: Seq<char>, sep: char)
    ensures
        joined_by(pieces.push(p), sep) == (if pieces.len() == 0 {
            p
        } else {
            joined_by(pieces, sep).push(sep) + p
        }),
{
    assert(pieces.push(p).drop_last() =~= pieces);
}

fn push_v4(out: &mut String, v: u32)
    ensures
        final(out)@ == old(out)@ + v4_text(v as nat),
{
    let ghost start = out@;
    let ghost a = dec_text((v / 0x100_0000 % 256) as nat);
    let ghost b = dec_text((v / 0x1_0000 % 256) as nat);
    let ghost c = dec_text((v / 0x100 % 256) as nat);
    let ghost d = dec_text((v % 256) as nat);
    push_dec(out, (v / 0x100_0000 % 256) as u64);
    out.push('.');
    push_dec(out, (v / 0x1_0000 % 256) as u64);
    out.push('.');
    push_dec(out, (v / 0x100 % 256) as u64);
    out.push('.');
    push_dec(out, (v % 256) as u64);
    proof {
        let none = Seq::<Seq<char>>::empty();
        let p1 = none.push(a);
        let p2 = p1.push(b);
        let p3 = p2.push(c);
        lemma_joined_push(none, a, '.');
        lemma_joined_push(p1, b, '.');
        lemma_joined_push(p2, c, '.');
        lemma_joined_push(p3, d, '.');
        assert(p3.push(d) =~= seq![a, b, c, d]);
        assert(out@ =~= start + v4_text(v as nat));
    }
}

fn hex_digit_char(d: u32) -> (c: char)
    requires
        d < 16,
    ensures
        c == hex_char(d as nat),
{
    if d < 10 {
        (48 + d as u8) as char
    } else {
        (87 + d as u8) as char
    }
}

/// Appends a number in hexadecimal.
pub fn push_hex(out: &mut String, n: u64)
    ensures
        final(out)@ == old(out)@ + hex_text(n as nat),
    decreases n,
{
    if n >= 16 {
        push_hex(out, n / 16);
        out.push(hex_digit_char((n % 16) as u32));
        assert(out@ =~= old(out)@ + hex_text(n as nat));
    } else {
        out.push(hex_digit_char(n as u32));
        assert(out@ =~= old(out)@ + hex_text(n as nat));
    }
}

/// The groups' values.
pub open spec fn values(g: Seq<u32>) -> Seq<nat> {
    g.map_values(|n: u32| n as nat)
}

fn groups(v: u128, n: usize) -> (g: Vec<u32>)
    ensures
        values(g@) == groups_from(v as nat, n as nat),
        g@.len() == n,
    decreases n,
{
    if n == 0 {
        let g: Vec<u32> = Vec::new();
        assert(values(g@) =~= Seq::empty());
        g
    } else {
        let mut g = groups(v / 0x1_0000, n - 1);
        let ghost was = values(g@);
        g.push((v % 0x1_0000) as u32);
        assert(values(g@) =~= was.push(v as nat % 0x1_0000));
        g
    }
}

fn run_of_zeros(g: &Vec<u32>, i: usize) -> (n: usize)
    requires
        i <= g@.len(),
    ensures
        n == zeros_from(values(g@), i as int),
        i + n <= g@.len(),
    decreases g@.len() - i,
{
    if i < g.len() && g[i] == 0 {
        1 + run_of_zeros(g, i + 1)
    } else {
        0
    }
}

fn push_groups(out: &mut String, g: &Vec<u32>, from: usize, to: usize)
    requires
        from <= to <= g@.len(),
    ensures
        final(out)@ == old(out)@ + groups_text(values(g@).subrange(from as int, to as int)),
{
    let ghost start = out@;
    let ghost all = values(g@).subrange(from as int, to as int).map_values(|n: nat| hex_text(n));
    let mut i: usize = from;
    assert(all.take(0) =~= Seq::empty());
    assert(out@ =~= start + joined_by(all.take(0), ':'));
    while i < to
        invariant
            from <= i <= to <= g@.len(),
            all == values(g@).subrange(from as int, to as int).map_values(|n: nat| hex_text(n)),
            out@ == start + joined_by(all.take(i - from), ':'),
        decreases to - i,
    {
        proof {
            let k = i - from;
            assert(all.take(k + 1) =~= all.take(k).push(all[k]));
            lemma_joined_push(all.take(k), all[k], ':');
            assert(all[k] == hex_text(g@[i as int] as nat));
        }
        if i > from {
            out.push(':');
        }
        push_hex(out, g[i] as u64);
        assert(out@ =~= start + joined_by(all.take(i - from + 1), ':'));
        i += 1;
    }
    assert(all.take(to - from) =~= all);
}

impl IpAddr {
    /// Appends the address's text.
    pub fn push_text(&self, out: &mut String)
        ensures
            final(out)@ == old(out)@ + ip_text(*self),
    {
        let ghost start = out@;
        match self {
            IpAddr::V4(v) => push_v4(out, *v),
            IpAddr::V6(v) => {
                let v: u128 = *v;
                if v / 0x1_0000_0000 == 0xffff {
                    out.push_str("::ffff:");
                    push_v4(out, (v % 0x1_0000_0000) as u32);
                    assert(out@ =~= start + v6_text(v as nat));
                    return;
                }
                let g = groups(v, 8);
                let ghost all = groups_from(v as nat, 8);
                let mut at: usize = 0;
                let mut longest: usize = run_of_zeros(&g, 0);
                let mut n: usize = 1;
                while n < 8
                    invariant
                        1 <= n <= 8,
                        g@.len() == 8,
                        all == values(g@),
                        at == longest_run(all, n as int),
                        at < n,
                        longest == zeros_from(all, at as int),
                        at + longest <= 8,
                    decreases 8 - n,
                {
                    let run: usize = run_of_zeros(&g, n);
                    if run > longest {
                        at = n;
                        longest = run;
                    }
                    n += 1;
                }
                if longest > 1 {
                    push_groups(out, &g, 0, at);
                    out.push_str("::");
                    push_groups(out, &g, at + longest, 8);
                    proof {
                        assert(all.subrange(0, at as int) =~= all.take(at as int));
                        assert(all.subrange(at + longest, 8) =~= all.skip(at + longest));
                        assert(out@ =~= start + v6_text(v as nat));
                    }
                } else {
                    push_groups(out, &g, 0, 8);
                    assert(all.subrange(0, 8) =~= all);
                }
            },
        }
    }

    /// The address's text.
    pub fn to_text(&self) -> (s: String)
        ensures
            s@ == ip_text(*self),
    {
        let mut s = String::new();
        self.push_text(&mut s);
        assert(s@ =~= ip_text(*self));
        s
    }
}

} // verus!
