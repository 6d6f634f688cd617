//! Text in sixteen-bit units.

use crate::text::{chars_of, text_of};
use vstd::prelude::*;

verus! {

/// Whether a number is a Unicode scalar value.
pub open spec fn is_scalar(n: u32) -> bool {
    n <= 0xd7ff || 0xe000 <= n <= 0x10ffff
}

/// Claims of `char::from_u32` that it gives the character of a number, where the
/// number is a Unicode scalar value.
pub assume_specification[ char::from_u32 ](i: u32) -> (r: Option<char>)
    ensures
        match r {
            Some(c) => c as u32 == i,
            None => !is_scalar(i),
        },
;

/// A character's number.
pub open spec fn code(c: char) -> int {
    c as u32 as int
}

/// The character of a Unicode scalar value.
pub open spec fn char_of(n: int) -> char {
    choose|c: char| #[trigger] code(c) == n
}

proof fn lemma_char_of(c: char)
    ensures
        char_of(code(c)) == c,
{
    let d = char_of(code(c));
    assert(code(c) == code(c));
    assert(code(d) == code(c));
}

/// The character in place of what is no text.
pub open spec fn unknown() -> char {
    char_of(0xfffd)
}

/// Whether a unit is the first of two.
pub open spec fn is_high(u: u16) -> bool {
    0xd800 <= u <= 0xdbff
}

/// Whether a unit is the second of two.
pub open spec fn is_low(u: u16) -> bool {
    0xdc00 <= u <= 0xdfff
}

/// The units of a character.
pub open spec fn units(c: char) -> Seq<u16> {
    let n = c as u32;
    if n < 0x1_0000 {
        seq![n as u16]
    } else {
        seq![
            (0xd800 + (n - 0x1_0000) / 0x400) as u16,
            (0xdc00 + (n - 0x1_0000) % 0x400) as u16,
        ]
    }
}

/// The units of a text.
pub open spec fn encoded(s: Seq<char>) -> Seq<u16>
    decreases s.len(),
{
    if s.len() == 0 {
        Seq::empty()
    } else {
        units(s[0]) + encoded(s.drop_first())
    }
}

/// The character of two units.
pub open spec fn paired(high: u16, low: u16) -> char {
    char_of(0x1_0000 + (high - 0xd800) * 0x400 + (low - 0xdc00))
}

/// The text of units; a unit of a pair that stands alone is unknown.
pub open spec fn decoded(u: Seq<u16>) -> Seq<char>
    decreases u.len(),
{
    if u.len() == 0 {
        Seq::empty()
    } else if is_high(u[0]) && u.len() > 1 && is_low(u[1]) {
        seq![paired(u[0], u[1])] + decoded(u.skip(2))
    } else if is_high(u[0]) || is_low(u[0]) {
        seq![unknown()] + decoded(u.drop_first())
    } else {
        seq![char_of(u[0] as int)] + decoded(u.drop_first())
    }
}

/// The units of a text, and a zero.
pub fn wide(s: &str) -> (out: Vec<u16>)
    ensures
        out@ == encoded(s@).push(0),
{
    let chars = chars_of(s);
    let mut out: Vec<u16> = Vec::new();
    let mut i: usize = 0;
    assert(chars@.skip(0) =~= chars@);
    assert(out@ + encoded(chars@) =~= encoded(chars@));
    while i < chars.len()
        invariant
            i <= chars@.len(),
            out@ + encoded(chars@.skip(i as int)) == encoded(chars@),
        decreases chars@.len() - i,
    {
        let ghost before = out@;
        let ghost rest = chars@.skip(i as int);
        assert(rest.drop_first() =~= chars@.skip(i + 1));
        let n: u32 = chars[i] as u32;
        if n < 0x1_0000 {
            out.push(n as u16);
        } else {
            out.push((0xd800 + (n - 0x1_0000) / 0x400) as u16);
            out.push((0xdc00 + (n - 0x1_0000) % 0x400) as u16);
        }
        assert(out@ =~= before + units(chars@[i as int]));
        i += 1;
        assert(out@ + encoded(chars@.skip(i as int)) =~= before + encoded(rest));
    }
    assert(encoded(chars@.skip(i as int)) =~= Seq::empty());
    assert(out@ =~= encoded(chars@));
    out.push(0);
    out
}

/// The text of units.
pub fn lossy(u: &[u16]) -> (out: String)
    ensures
        out@ == decoded(u@),
{
    let mut out: Vec<char> = Vec::new();
    let mut i: usize = 0;
    assert(u@.skip(0) =~= u@);
    assert(out@ + decoded(u@) =~= decoded(u@));
    while i < u.len()
        invariant
            i <= u@.len(),
            out@ + decoded(u@.skip(i as int)) == decoded(u@),
        decreases u@.len() - i,
    {
        let ghost before = out@;
        let ghost rest = u@.skip(i as int);
        assert(rest.drop_first() =~= u@.skip(i + 1));
        let a: u16 = u[i];
        let high: bool = 0xd800 <= a && a <= 0xdbff;
        let low: bool = 0xdc00 <= a && a <= 0xdfff;
        if high && u.len() - i > 1 && 0xdc00 <= u[i + 1] && u[i + 1] <= 0xdfff {
            let n: u32 = 0x1_0000 + (a as u32 - 0xd800) * 0x400 + (u[i + 1] as u32 - 0xdc00);
            let c = char::from_u32(n).unwrap();
            proof {
                lemma_char_of(c);
            }
            assert(c == paired(a, u@[i + 1]));
            out.push(c);
            assert(rest.skip(2) =~= u@.skip(i + 2));
            i += 2;
        } else if high || low {
            let c = char::from_u32(0xfffd).unwrap();
            proof {
                lemma_char_of(c);
            }
            assert(c == unknown());
            out.push(c);
            i += 1;
        } else {
            let c = char::from_u32(a as u32).unwrap();
            proof {
                lemma_char_of(c);
            }
            assert(c == char_of(a as int));
            out.push(c);
            i += 1;
        }
        assert(out@ + decoded(u@.skip(i as int)) =~= before + decoded(rest));
    }
    assert(decoded(u@.skip(i as int)) =~= Seq::empty());
    assert(out@ =~= decoded(u@));
    text_of(out.as_slice())
}

/// Text survives its units.
pub proof fn law_text_reads_back(s: Seq<char>)
    ensures
        decoded(encoded(s)) == s,
    decreases s.len(),
{
    if s.len() > 0 {
        law_text_reads_back(s.drop_first());
        let rest = encoded(s.drop_first());
        let all = encoded(s);
        let n = s[0] as u32;
        lemma_char_of(s[0]);
        if n < 0x1_0000 {
            assert(all.drop_first() =~= rest);
            assert(char_of(all[0] as int) == s[0]);
        } else {
            assert(all.skip(2) =~= rest);
            assert(paired(all[0], all[1]) == s[0]);
        }
        assert(decoded(all) =~= s);
    }
}

} // verus!
