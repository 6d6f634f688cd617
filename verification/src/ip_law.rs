//! The text of an address reads as the address.

use crate::ip::IpAddr;
use crate::ip_show::{
    groups_from, groups_text, hex_char, hex_text, ip_text, joined_by, longest_run, v4_text, v6_text,
    zeros_from,
};
use crate::ip_text::{
    find_gap, group_of, groups_of, groups_value, head_groups, hex_digit, hex_value, ip_of_text,
    is_hex, octet_of, tail_groups, v4_of_text, v6_groups,
};
use crate::text::{dec_text, find, is_digit, lemma_dec_text, lemma_find, split};
use vstd::prelude::*;

verus! {

/// Whether a text is without a character.
spec fn lacks(s: Seq<char>, c: char) -> bool {
    forall|i: int| 0 <= i < s.len() ==> #[trigger] s[i] != c
}

/// Whether all pieces are without a character.
spec fn all_lack(pieces: Seq<Seq<char>>, c: char) -> bool {
    forall|i: int| 0 <= i < pieces.len() ==> lacks(#[trigger] pieces[i], c)
}

proof fn lemma_find_end(s: Seq<char>, c: char)
    requires
        lacks(s, c),
    ensures
        split(s, c) == seq![s],
{
    lemma_find(s, c);
}

proof fn lemma_joined_first(pieces: Seq<Seq<char>>, sep: char)
    requires
        pieces.len() >= 2,
    ensures
        joined_by(pieces, sep) == pieces[0].push(sep) + joined_by(pieces.drop_first(), sep),
    decreases pieces.len(),
{
    let rest = pieces.drop_first();
    let front = pieces.drop_last();
    if pieces.len() == 2 {
        assert(joined_by(front, sep) == pieces[0]);
        assert(joined_by(rest, sep) == pieces[1]);
    } else {
        lemma_joined_first(front, sep);
        assert(front.drop_first() =~= rest.drop_last());
        let middle = joined_by(rest.drop_last(), sep);
        assert((pieces[0].push(sep) + middle).push(sep) + pieces.last() =~= pieces[0].push(sep) + (
        middle.push(sep) + pieces.last()));
    }
}

proof fn lemma_split_joined(pieces: Seq<Seq<char>>, sep: char)
    requires
        pieces.len() > 0,
        all_lack(pieces, sep),
    ensures
        split(joined_by(pieces, sep), sep) == pieces,
    decreases pieces.len(),
{
    assert(lacks(pieces[0], sep));
    if pieces.len() == 1 {
        lemma_find_end(pieces[0], sep);
        assert(pieces =~= seq![pieces[0]]);
    } else {
        let rest = pieces.drop_first();
        let s = joined_by(pieces, sep);
        let k = pieces[0].len() as int;
        lemma_joined_first(pieces, sep);
        assert forall|i: int| 0 <= i < rest.len() implies lacks(#[trigger] rest[i], sep) by {
            assert(rest[i] == pieces[i + 1]);
        }
        lemma_split_joined(rest, sep);
        lemma_find(s, sep);
        assert(s[k] == sep);
        assert forall|j: int| 0 <= j < k implies s[j] != sep by {
            assert(s[j] == pieces[0][j]);
        }
        assert(find(s, sep) == k);
        assert(s.take(k) =~= pieces[0]);
        assert(s.skip(k + 1) =~= joined_by(rest, sep));
        assert(seq![pieces[0]] + rest =~= pieces);
    }
}

proof fn lemma_joined_lacks(pieces: Seq<Seq<char>>, sep: char, c: char)
    requires
        c != sep,
        all_lack(pieces, c),
    ensures
        lacks(joined_by(pieces, sep), c),
    decreases pieces.len(),
{
    if pieces.len() == 1 {
        assert(lacks(pieces[0], c));
    } else if pieces.len() > 1 {
        let front = pieces.drop_last();
        assert forall|i: int| 0 <= i < front.len() implies lacks(#[trigger] front[i], c) by {
            assert(front[i] == pieces[i]);
        }
        lemma_joined_lacks(front, sep, c);
        assert(lacks(pieces[pieces.len() - 1], c));
    }
}

proof fn lemma_octet(n: nat)
    requires
        n <= 255,
    ensures
        octet_of(dec_text(n)) == Some(n),
        lacks(dec_text(n), '.'),
        lacks(dec_text(n), ':'),
{
    lemma_dec_text(n);
    reveal_with_fuel(dec_text, 4);
    assert forall|i: int| 0 <= i < dec_text(n).len() implies #[trigger] dec_text(n)[i] != '.'
        && dec_text(n)[i] != ':' by {
        assert(is_digit(dec_text(n)[i]));
    }
}

proof fn lemma_v4_back(v: nat)
    requires
        v < 0x1_0000_0000,
    ensures
        v4_of_text(v4_text(v)) == Some(v),
        lacks(v4_text(v), ':'),
{
    let (a, b, c, d) = (v / 0x100_0000 % 256, v / 0x1_0000 % 256, v / 0x100 % 256, v % 256);
    let pieces = seq![dec_text(a), dec_text(b), dec_text(c), dec_text(d)];
    lemma_octet(a);
    lemma_octet(b);
    lemma_octet(c);
    lemma_octet(d);
    assert(all_lack(pieces, '.') && all_lack(pieces, ':'));
    lemma_split_joined(pieces, '.');
    lemma_joined_lacks(pieces, '.', ':');
    assert(((a * 256 + b) * 256 + c) * 256 + d == v);
}

proof fn lemma_hex_back(n: nat)
    ensures
        hex_text(n).len() > 0,
        is_hex(hex_text(n)),
        hex_value(hex_text(n)) == n,
        lacks(hex_text(n), ':'),
        lacks(hex_text(n), '.'),
    decreases n,
{
    let s = hex_text(n);
    assert(hex_digit(hex_char(n % 16)) == Some(n % 16));
    if n < 16 {
        assert(s.drop_last() =~= Seq::empty());
        assert(hex_value(Seq::<char>::empty()) == 0);
    } else {
        lemma_hex_back(n / 16);
        assert(s.drop_last() =~= hex_text(n / 16));
        assert forall|i: int| 0 <= i < s.len() implies hex_digit(#[trigger] s[i]) is Some by {
            if i < s.len() - 1 {
                assert(s[i] == hex_text(n / 16)[i]);
            }
        }
    }
    assert forall|i: int| 0 <= i < s.len() implies #[trigger] s[i] != ':' && s[i] != '.' by {
        assert(hex_digit(s[i]) is Some);
    }
}

proof fn lemma_group_back(n: nat)
    requires
        n < 0x1_0000,
    ensures
        group_of(hex_text(n)) == Some(n),
{
    lemma_hex_back(n);
    reveal_with_fuel(hex_text, 5);
}

/// Whether all groups have sixteen bits.
spec fn short(g: Seq<nat>) -> bool {
    forall|i: int| 0 <= i < g.len() ==> #[trigger] g[i] < 0x1_0000
}

/// Groups in hexadecimal.
spec fn pieces_of(g: Seq<nat>) -> Seq<Seq<char>> {
    g.map_values(|n: nat| hex_text(n))
}

proof fn lemma_pieces(g: Seq<nat>)
    requires
        short(g),
    ensures
        groups_of(pieces_of(g)) == Some(g),
        all_lack(pieces_of(g), ':'),
        all_lack(pieces_of(g), '.'),
    decreases g.len(),
{
    let p = pieces_of(g);
    if g.len() > 0 {
        lemma_pieces(g.drop_last());
        assert(p.drop_last() =~= pieces_of(g.drop_last()));
        lemma_group_back(g[g.len() - 1]);
        assert(g.drop_last().push(g.last()) =~= g);
    } else {
        assert(g =~= Seq::empty());
    }
    assert forall|i: int| 0 <= i < p.len() implies lacks(#[trigger] p[i], ':') && lacks(p[i], '.') by {
        lemma_hex_back(g[i]);
    }
}

/// Whether no two colons follow each other, and none is at an end.
spec fn single(s: Seq<char>) -> bool {
    &&& s.len() > 0 ==> s[0] != ':' && s.last() != ':'
    &&& forall|j: int| 0 <= j < s.len() - 1 ==> !(#[trigger] s[j] == ':' && s[j + 1] == ':')
}

proof fn lemma_groups_single(g: Seq<nat>)
    ensures
        single(groups_text(g)),
        (groups_text(g).len() == 0) == (g.len() == 0),
    decreases g.len(),
{
    let p = pieces_of(g);
    let s = groups_text(g);
    if g.len() == 1 {
        lemma_hex_back(g[0]);
        assert(s == hex_text(g[0]));
    } else if g.len() > 1 {
        let front = groups_text(g.drop_last());
        lemma_groups_single(g.drop_last());
        assert(p.drop_last() =~= pieces_of(g.drop_last()));
        let last = hex_text(g[g.len() - 1]);
        lemma_hex_back(g[g.len() - 1]);
        assert(s == front.push(':') + last);
        let n = front.len() as int;
        assert(s[0] == front[0]);
        assert(s.last() == last.last());
        assert forall|j: int| 0 <= j < s.len() - 1 implies !(#[trigger] s[j] == ':' && s[j + 1]
            == ':') by {
            if j < n - 1 {
                assert(s[j] == front[j] && s[j + 1] == front[j + 1]);
            } else if j == n - 1 {
                assert(s[j] == front.last());
            } else if j == n {
                assert(s[j + 1] == last[0]);
            } else {
                assert(s[j] == last[j - n - 1]);
            }
        }
    }
}

proof fn lemma_gap_none(s: Seq<char>)
    requires
        forall|j: int| 0 <= j < s.len() - 1 ==> !(#[trigger] s[j] == ':' && s[j + 1] == ':'),
    ensures
        find_gap(s) == s.len(),
    decreases s.len(),
{
    if s.len() > 0 {
        let rest = s.drop_first();
        assert forall|j: int| 0 <= j < rest.len() - 1 implies !(#[trigger] rest[j] == ':' && rest[j
            + 1] == ':') by {
            assert(rest[j] == s[j + 1] && rest[j + 1] == s[j + 2]);
        }
        lemma_gap_none(rest);
        if s.len() >= 2 {
            assert(s[0] != ':' || s[1] != ':');
        }
    }
}

proof fn lemma_gap_at(s: Seq<char>, k: int)
    requires
        0 <= k < s.len() - 1,
        s[k] == ':' && s[k + 1] == ':',
        forall|j: int| 0 <= j < k ==> !(#[trigger] s[j] == ':' && s[j + 1] == ':'),
    ensures
        find_gap(s) == k,
    decreases k,
{
    if k > 0 {
        let rest = s.drop_first();
        assert forall|j: int| 0 <= j < k - 1 implies !(#[trigger] rest[j] == ':' && rest[j + 1]
            == ':') by {
            assert(rest[j] == s[j + 1] && rest[j + 1] == s[j + 2]);
        }
        lemma_gap_at(rest, k - 1);
        assert(s[0] != ':' || s[1] != ':');
    }
}

proof fn lemma_ends(g: Seq<nat>)
    requires
        short(g),
    ensures
        head_groups(groups_text(g)) == Some(g),
        tail_groups(groups_text(g)) == Some(g),
        lacks(groups_text(g), '.'),
{
    let p = pieces_of(g);
    lemma_pieces(g);
    lemma_groups_single(g);
    lemma_joined_lacks(p, ':', '.');
    if g.len() == 0 {
        assert(g =~= Seq::empty());
    } else {
        lemma_split_joined(p, ':');
        assert(lacks(p[p.len() - 1], '.'));
        lemma_find_end(p.last(), '.');
    }
}

proof fn lemma_groups_from(v: nat, n: nat)
    ensures
        groups_from(v, n).len() == n,
        short(groups_from(v, n)),
    decreases n,
{
    if n > 0 {
        lemma_groups_from(v / 0x1_0000, (n - 1) as nat);
    }
}

proof fn lemma_value_back(v: nat)
    requires
        v <= u128::MAX,
    ensures
        groups_value(groups_from(v, 8)) == v,
{
    lemma_value_step(v, 8);
    let w1 = v / 0x1_0000;
    lemma_value_step(w1, 7);
    let w2 = w1 / 0x1_0000;
    lemma_value_step(w2, 6);
    let w3 = w2 / 0x1_0000;
    lemma_value_step(w3, 5);
    let w4 = w3 / 0x1_0000;
    lemma_value_step(w4, 4);
    let w5 = w4 / 0x1_0000;
    lemma_value_step(w5, 3);
    let w6 = w5 / 0x1_0000;
    lemma_value_step(w6, 2);
    let w7 = w6 / 0x1_0000;
    lemma_value_step(w7, 1);
    assert(groups_value(groups_from(w7 / 0x1_0000, 0)) == 0);
}

proof fn lemma_value_step(v: nat, n: nat)
    requires
        n > 0,
    ensures
        groups_value(groups_from(v, n)) == 0x1_0000 * groups_value(
            groups_from(v / 0x1_0000, (n - 1) as nat),
        ) + v % 0x1_0000,
{
    let before = groups_from(v / 0x1_0000, (n - 1) as nat);
    assert(groups_from(v, n).drop_last() =~= before);
}

proof fn lemma_zeros(g: Seq<nat>, i: int)
    requires
        0 <= i <= g.len(),
    ensures
        i + zeros_from(g, i) <= g.len(),
        forall|j: int| i <= j < i + zeros_from(g, i) ==> #[trigger] g[j] == 0,
    decreases g.len() - i,
{
    if i < g.len() && g[i] == 0 {
        lemma_zeros(g, i + 1);
    }
}

proof fn lemma_longest_run(g: Seq<nat>, n: int)
    ensures
        0 <= longest_run(g, n),
        longest_run(g, n) < n || n <= 1 && longest_run(g, n) == 0,
    decreases n,
{
    if n > 1 {
        lemma_longest_run(g, n - 1);
    }
}

proof fn lemma_mapped_back(v: nat)
    requires
        v / 0x1_0000_0000 == 0xffff,
    ensures
        v4_of_text(v6_text(v)) is None,
        v6_groups(v6_text(v)) is Some,
        groups_value(v6_groups(v6_text(v))->0) == v,
{
    let low = v % 0x1_0000_0000;
    let dotted = v4_text(low);
    let s = v6_text(v);
    lemma_v4_back(low);
    reveal_strlit("::ffff:");
    assert(s =~= "::ffff:"@ + dotted);
    // not four octets
    lemma_find(s, '.');
    assert(s[0] == ':' && s[1] == ':');
    let at = find(s, '.') as int;
    assert(at > 0);
    assert(split(s, '.')[0][0] == ':') by {
        if at < s.len() {
            assert(s.take(at)[0] == s[0]);
        }
    }
    assert(!is_digit(split(s, '.')[0][0]));
    assert(octet_of(split(s, '.')[0]) is None);
    // two colons, a group, and the octets
    assert(find_gap(s) == 0);
    assert(s.take(0) =~= Seq::empty());
    let f = hex_text(0xffff);
    lemma_hex_back(0xffff);
    lemma_group_back(0xffff);
    reveal_with_fuel(hex_text, 5);
    let ffff = seq!['f', 'f', 'f', 'f'];
    assert(f =~= ffff);
    let pieces = seq![f, dotted];
    assert(all_lack(pieces, ':'));
    lemma_split_joined(pieces, ':');
    lemma_joined_first(pieces, ':');
    assert(pieces.drop_first() =~= seq![dotted]);
    assert(joined_by(pieces, ':') =~= f.push(':') + dotted);
    assert(s.skip(2) =~= f.push(':') + dotted);
    assert(pieces.drop_last() =~= seq![f]);
    let one = seq![f];
    assert(one.drop_last() =~= Seq::empty());
    assert(groups_of(one.drop_last()) == Some(Seq::<nat>::empty()));
    assert(groups_of(one) == Some(Seq::<nat>::empty().push(0xffff)));
    let t = Seq::<nat>::empty().push(0xffff).push(low / 0x1_0000).push(low % 0x1_0000);
    assert(tail_groups(s.skip(2)) == Some(t));
    let zeros = Seq::new(5nat, |i: int| 0nat);
    let g = Seq::<nat>::empty() + zeros + t;
    assert(v6_groups(s) == Some(g));
    lemma_zeros_value(zeros);
    assert(g.drop_last() =~= zeros.push(0xffff).push(low / 0x1_0000));
    assert(g.drop_last().drop_last() =~= zeros.push(0xffff));
    assert(g.drop_last().drop_last().drop_last() =~= zeros);
    assert(groups_value(g.drop_last().drop_last()) == 0xffff);
    assert(groups_value(g.drop_last()) == 0x1_0000 * 0xffff + low / 0x1_0000);
    assert(groups_value(g) == 0x1_0000 * (0x1_0000 * 0xffff + low / 0x1_0000) + low % 0x1_0000);
}

proof fn lemma_zeros_value(g: Seq<nat>)
    requires
        forall|i: int| 0 <= i < g.len() ==> #[trigger] g[i] == 0,
    ensures
        groups_value(g) == 0,
    decreases g.len(),
{
    if g.len() > 0 {
        assert forall|i: int| 0 <= i < g.drop_last().len() implies #[trigger] g.drop_last()[i]
            == 0 by {
            assert(g.drop_last()[i] == g[i]);
        }
        lemma_zeros_value(g.drop_last());
        assert(g[g.len() - 1] == 0);
    }
}

proof fn lemma_v6_back(v: nat)
    requires
        v <= u128::MAX,
        v / 0x1_0000_0000 != 0xffff,
    ensures
        v4_of_text(v6_text(v)) is None,
        v6_groups(v6_text(v)) == Some(groups_from(v, 8)),
{
    let g = groups_from(v, 8);
    let s = v6_text(v);
    let at = longest_run(g, 8);
    let n = zeros_from(g, at) as int;
    lemma_groups_from(v, 8);
    lemma_longest_run(g, 8);
    lemma_zeros(g, at);
    if n > 1 {
        let (h, t) = (g.take(at), g.skip(at + n));
        let (head, tail) = (groups_text(h), groups_text(t));
        assert(short(h)) by {
            assert forall|i: int| 0 <= i < h.len() implies #[trigger] h[i] < 0x1_0000 by {
                assert(h[i] == g[i]);
            }
        }
        assert(short(t)) by {
            assert forall|i: int| 0 <= i < t.len() implies #[trigger] t[i] < 0x1_0000 by {
                assert(t[i] == g[at + n + i]);
            }
        }
        lemma_ends(h);
        lemma_ends(t);
        lemma_groups_single(h);
        reveal_strlit("::");
        assert(s =~= head + "::"@ + tail);
        let k = head.len() as int;
        assert(s[k] == ':' && s[k + 1] == ':');
        assert forall|j: int| 0 <= j < k implies !(#[trigger] s[j] == ':' && s[j + 1] == ':') by {
            assert(s[j] == head[j]);
            if j < k - 1 {
                assert(s[j + 1] == head[j + 1]);
            } else {
                assert(s[j] == head.last());
            }
        }
        lemma_gap_at(s, k);
        assert(s.take(k) =~= head);
        assert(s.skip(k + 2) =~= tail);
        assert(h + Seq::new((8 - h.len() - t.len()) as nat, |i: int| 0nat) + t =~= g);
        assert(lacks(s, '.')) by {
            assert forall|i: int| 0 <= i < s.len() implies #[trigger] s[i] != '.' by {
                if i < k {
                    assert(s[i] == head[i]);
                } else if i >= k + 2 {
                    assert(s[i] == tail[i - k - 2]);
                }
            }
        }
    } else {
        lemma_ends(g);
        lemma_groups_single(g);
        lemma_gap_none(s);
    }
    lemma_find_end(s, '.');
}

/// The text of an address reads as the address.
pub proof fn law_addresses_read_back(a: IpAddr)
    ensures
        ip_of_text(ip_text(a)) == Some(a),
{
    match a {
        IpAddr::V4(v) => {
            lemma_v4_back(v as nat);
        },
        IpAddr::V6(v) => {
            if v as nat / 0x1_0000_0000 == 0xffff {
                lemma_mapped_back(v as nat);
            } else {
                lemma_v6_back(v as nat);
                lemma_value_back(v as nat);
            }
        },
    }
}

/// Whether a text holds only what addresses are written with.
pub open spec fn address_chars(s: Seq<char>) -> bool {
    forall|i: int|
        0 <= i < s.len() ==> hex_digit(#[trigger] s[i]) is Some || s[i] == '.' || s[i] == ':'
}

proof fn lemma_chars_joined(pieces: Seq<Seq<char>>, sep: char)
    requires
        sep == '.' || sep == ':',
        forall|i: int| 0 <= i < pieces.len() ==> address_chars(#[trigger] pieces[i]),
    ensures
        address_chars(joined_by(pieces, sep)),
    decreases pieces.len(),
{
    if pieces.len() == 1 {
        assert(address_chars(pieces[0]));
    } else if pieces.len() > 1 {
        let front = pieces.drop_last();
        assert forall|i: int| 0 <= i < front.len() implies address_chars(#[trigger] front[i]) by {
            assert(front[i] == pieces[i]);
        }
        lemma_chars_joined(front, sep);
        assert(address_chars(pieces[pieces.len() - 1]));
        let (x, y) = (joined_by(front, sep).push(sep), pieces.last());
        assert forall|i: int| 0 <= i < (x + y).len() implies hex_digit(#[trigger] (x + y)[i]) is Some
            || (x + y)[i] == '.' || (x + y)[i] == ':' by {
            if i < x.len() - 1 {
                assert((x + y)[i] == joined_by(front, sep)[i]);
            } else if i >= x.len() {
                assert((x + y)[i] == y[i - x.len()]);
            }
        }
    }
}

proof fn lemma_chars_dec(n: nat)
    ensures
        address_chars(dec_text(n)),
{
    lemma_dec_text(n);
    assert forall|i: int| 0 <= i < dec_text(n).len() implies hex_digit(
        #[trigger] dec_text(n)[i],
    ) is Some || dec_text(n)[i] == '.' || dec_text(n)[i] == ':' by {
        assert(is_digit(dec_text(n)[i]));
    }
}

proof fn lemma_chars_v4(v: nat)
    ensures
        address_chars(v4_text(v)),
        v4_text(v).len() > 0,
{
    let (a, b, c, d) = (v / 0x100_0000 % 256, v / 0x1_0000 % 256, v / 0x100 % 256, v % 256);
    let pieces = seq![dec_text(a), dec_text(b), dec_text(c), dec_text(d)];
    lemma_chars_dec(a);
    lemma_chars_dec(b);
    lemma_chars_dec(c);
    lemma_chars_dec(d);
    lemma_chars_joined(pieces, '.');
}

proof fn lemma_chars_groups(g: Seq<nat>)
    ensures
        address_chars(groups_text(g)),
{
    let p = pieces_of(g);
    assert forall|i: int| 0 <= i < p.len() implies address_chars(#[trigger] p[i]) by {
        lemma_hex_back(g[i]);
    }
    lemma_chars_joined(p, ':');
}

/// The text of an address holds only hexadecimal digits, dots and colons.
pub proof fn law_addresses_are_written_plainly(a: IpAddr)
    ensures
        address_chars(ip_text(a)),
        ip_text(a).len() > 0,
{
    match a {
        IpAddr::V4(v) => {
            lemma_chars_v4(v as nat);
        },
        IpAddr::V6(v) => {
            let v = v as nat;
            let s = v6_text(v);
            if v / 0x1_0000_0000 == 0xffff {
                let low = v % 0x1_0000_0000;
                lemma_chars_v4(low);
                reveal_strlit("::ffff:");
                let head = "::ffff:"@;
                assert forall|i: int| 0 <= i < s.len() implies hex_digit(#[trigger] s[i]) is Some
                    || s[i] == '.' || s[i] == ':' by {
                    if i >= 7 {
                        assert(s[i] == v4_text(low)[i - 7]);
                    } else {
                        assert(s[i] == head[i]);
                    }
                }
            } else {
                let g = groups_from(v, 8);
                let at = longest_run(g, 8);
                let n = zeros_from(g, at) as int;
                lemma_groups_from(v, 8);
                if n > 1 {
                    let (h, t) = (groups_text(g.take(at)), groups_text(g.skip(at + n)));
                    lemma_chars_groups(g.take(at));
                    lemma_chars_groups(g.skip(at + n));
                    reveal_strlit("::");
                    let k = h.len() as int;
                    assert forall|i: int| 0 <= i < s.len() implies hex_digit(
                        #[trigger] s[i],
                    ) is Some || s[i] == '.' || s[i] == ':' by {
                        if i < k {
                            assert(s[i] == h[i]);
                        } else if i >= k + 2 {
                            assert(s[i] == t[i - k - 2]);
                        } else {
                            assert(s[i] == "::"@[i - k]);
                        }
                    }
                } else {
                    lemma_chars_groups(g);
                    lemma_groups_single(g);
                }
            }
        },
    }
}

proof fn lemma_octets(a: u8, b: u8, c: u8, d: u8)
    ensures
        ({
            let v = a * 0x100_0000 + b * 0x1_0000 + c * 0x100 + d;
            &&& 0 <= v <= u32::MAX
            &&& v / 0x100_0000 % 256 == a
            &&& v / 0x1_0000 % 256 == b
            &&& v / 0x100 % 256 == c
            &&& v % 256 == d
        }),
{
}

/// Four octets with dots between them are an IPv4 address, the most significant
/// octet first.
pub proof fn law_octets_are_written_in_order(a: u8, b: u8, c: u8, d: u8)
    ensures
        ({
            let pieces = seq![
                dec_text(a as nat),
                dec_text(b as nat),
                dec_text(c as nat),
                dec_text(d as nat),
            ];
            let v = a * 0x100_0000 + b * 0x1_0000 + c * 0x100 + d;
            &&& ip_text(IpAddr::V4(v as u32)) == joined_by(pieces, '.')
            &&& ip_of_text(joined_by(pieces, '.')) == Some(IpAddr::V4(v as u32))
        }),
{
    let v = (a * 0x100_0000 + b * 0x1_0000 + c * 0x100 + d) as u32;
    lemma_octets(a, b, c, d);
    law_addresses_read_back(IpAddr::V4(v));
    assert(ip_text(IpAddr::V4(v)) == v4_text(v as nat));
}

/// Eight groups with colons between them are an IPv6 address, the most significant
/// group first, however many of them are zero.
pub proof fn law_groups_are_written_in_order(g: Seq<nat>)
    requires
        g.len() == 8,
        forall|i: int| 0 <= i < 8 ==> #[trigger] g[i] < 0x1_0000,
    ensures
        ({
            let pieces = g.map_values(|n: nat| hex_text(n));
            let v = g[0] * 0x1_0000_0000_0000_0000_0000_0000_0000 + g[1]
                * 0x1_0000_0000_0000_0000_0000_0000 + g[2] * 0x1_0000_0000_0000_0000_0000 + g[3]
                * 0x1_0000_0000_0000_0000 + g[4] * 0x1_0000_0000_0000 + g[5] * 0x1_0000_0000 + g[6]
                * 0x1_0000 + g[7];
            ip_of_text(joined_by(pieces, ':')) == Some(IpAddr::V6(v as u128))
        }),
{
    let s = groups_text(g);
    assert(pieces_of(g) =~= g.map_values(|n: nat| hex_text(n)));
    lemma_ends(g);
    lemma_groups_single(g);
    lemma_gap_none(s);
    lemma_find_end(s, '.');
    reveal_with_fuel(groups_value, 9);
    let g7 = g.drop_last();
    let g6 = g7.drop_last();
    let g5 = g6.drop_last();
    let g4 = g5.drop_last();
    let g3 = g4.drop_last();
    let g2 = g3.drop_last();
    let g1 = g2.drop_last();
    assert(groups_value(g1) == g[0]);
    assert(groups_value(g2) == g[0] * 0x1_0000 + g[1]);
    assert(groups_value(g3) == g[0] * 0x1_0000_0000 + g[1] * 0x1_0000 + g[2]);
    assert(groups_value(g4) == g[0] * 0x1_0000_0000_0000 + g[1] * 0x1_0000_0000 + g[2] * 0x1_0000
        + g[3]);
}

/// An IPv4 address is read from its own spelling alone: four numbers up to 255,
/// without leading zeros.
pub proof fn law_v4_addresses_have_one_spelling(s: Seq<char>, v: u32)
    requires
        ip_of_text(s) == Some(IpAddr::V4(v)),
    ensures
        s == ip_text(IpAddr::V4(v)),
{
    let p = crate::text::split(s, '.');
    let n = v4_of_text(s)->0;
    let (a, b) = (octet_of(p[0])->0, octet_of(p[1])->0);
    let (c, d) = (octet_of(p[2])->0, octet_of(p[3])->0);
    lemma_spelled(p[0]);
    lemma_spelled(p[1]);
    lemma_spelled(p[2]);
    lemma_spelled(p[3]);
    lemma_octets(a as u8, b as u8, c as u8, d as u8);
    assert(n == a * 0x100_0000 + b * 0x1_0000 + c * 0x100 + d);
    assert(v == n);
    lemma_joined_split(s, '.');
    assert(p =~= seq![dec_text(a), dec_text(b), dec_text(c), dec_text(d)]);
    assert(ip_text(IpAddr::V4(v)) == v4_text(n));
}

proof fn lemma_same_char(c: char, d: char)
    requires
        c as u32 == d as u32,
    ensures
        c == d,
{
    let (x, y) = (c as int, d as int);
    assert(x == c as u32 as int && y == d as u32 as int);
    assert(x == y);
}

proof fn lemma_spelled(s: Seq<char>)
    requires
        s.len() > 0,
        crate::text::is_digits(s),
        s.len() == 1 || s[0] != '0',
    ensures
        dec_text(crate::text::dec_value(s)) == s,
        s[0] != '0' ==> crate::text::dec_value(s) > 0,
    decreases s.len(),
{
    let d = s.last();
    assert(crate::text::is_digit(s[s.len() - 1]));
    let k = (d as u32 - '0' as u32) as nat;
    let c = ('0' as u32 + k) as char;
    lemma_same_char(c, d);
    let f = s.drop_last();
    if s.len() == 1 {
        assert(crate::text::dec_value(f) == 0);
        assert(s =~= seq![d]);
    } else {
        assert forall|i: int| 0 <= i < f.len() implies crate::text::is_digit(#[trigger] f[i]) by {
            assert(f[i] == s[i]);
        }
        assert(f[0] == s[0]);
        lemma_spelled(f);
        let n = crate::text::dec_value(s);
        assert(n / 10 == crate::text::dec_value(f) && n % 10 == k);
        assert(s =~= f.push(d));
    }
}

proof fn lemma_joined_split(s: Seq<char>, sep: char)
    ensures
        joined_by(crate::text::split(s, sep), sep) == s,
        crate::text::split(s, sep).len() > 0,
    decreases s.len(),
{
    lemma_find(s, sep);
    let i = crate::text::find(s, sep) as int;
    let all = crate::text::split(s, sep);
    if i < s.len() {
        let rest = s.skip(i + 1);
        lemma_joined_split(rest, sep);
        assert(all.drop_first() =~= crate::text::split(rest, sep));
        lemma_joined_first(all, sep);
        assert(s.take(i).push(sep) + rest =~= s);
    }
}

} // verus!
