//! Fixed-width integers in byte strings, big- and little-endian.

use vstd::prelude::*;

verus! {

/// `256` to the power `n`.
pub open spec fn pow256(n: nat) -> nat
    decreases n,
{
    if n == 0 {
        1
    } else {
        256 * pow256((n - 1) as nat)
    }
}

/// The number that `s` spells, most significant byte first.
pub open spec fn be_nat(s: Seq<u8>) -> nat
    decreases s.len(),
{
    if s.len() == 0 {
        0
    } else {
        256 * be_nat(s.drop_last()) + s.last() as nat
    }
}

/// The number that `s` spells, least significant byte first.
pub open spec fn le_nat(s: Seq<u8>) -> nat
    decreases s.len(),
{
    if s.len() == 0 {
        0
    } else {
        256 * le_nat(s.drop_first()) + s[0] as nat
    }
}

/// The low `n` bytes of `v`, most significant first.
pub open spec fn be_bytes(v: nat, n: nat) -> Seq<u8>
    decreases n,
{
    if n == 0 {
        Seq::empty()
    } else {
        be_bytes(v / 256, (n - 1) as nat).push((v % 256) as u8)
    }
}

/// The low `n` bytes of `v`, least significant first.
pub open spec fn le_bytes(v: nat, n: nat) -> Seq<u8>
    decreases n,
{
    if n == 0 {
        Seq::empty()
    } else {
        seq![(v % 256) as u8] + le_bytes(v / 256, (n - 1) as nat)
    }
}

pub proof fn lemma_be_bytes_len(v: nat, n: nat)
    ensures
        be_bytes(v, n).len() == n,
    decreases n,
{
    if n > 0 {
        lemma_be_bytes_len(v / 256, (n - 1) as nat);
    }
}

pub proof fn lemma_le_bytes_len(v: nat, n: nat)
    ensures
        le_bytes(v, n).len() == n,
    decreases n,
{
    if n > 0 {
        lemma_le_bytes_len(v / 256, (n - 1) as nat);
    }
}

pub proof fn lemma_be_nat_bound(s: Seq<u8>)
    ensures
        be_nat(s) < pow256(s.len()),
    decreases s.len(),
{
    if s.len() > 0 {
        lemma_be_nat_bound(s.drop_last());
    }
}

pub proof fn lemma_le_nat_bound(s: Seq<u8>)
    ensures
        le_nat(s) < pow256(s.len()),
    decreases s.len(),
{
    if s.len() > 0 {
        lemma_le_nat_bound(s.drop_first());
    }
}

/// Writing a number in `n` bytes and reading it back gives the number, as long
/// as it fits, big-endian.
pub proof fn law_be_round_trip(v: nat, n: nat)
    requires
        v < pow256(n),
    ensures
        be_nat(be_bytes(v, n)) == v,
    decreases n,
{
    if n > 0 {
        law_be_round_trip(v / 256, (n - 1) as nat);
        let b = be_bytes(v, n);
        assert(b.drop_last() =~= be_bytes(v / 256, (n - 1) as nat));
    }
}

/// Writing a number in `n` bytes and reading it back gives the number, as long
/// as it fits, little-endian.
pub proof fn law_le_round_trip(v: nat, n: nat)
    requires
        v < pow256(n),
    ensures
        le_nat(le_bytes(v, n)) == v,
    decreases n,
{
    if n > 0 {
        law_le_round_trip(v / 256, (n - 1) as nat);
        let b = le_bytes(v, n);
        assert(b.drop_first() =~= le_bytes(v / 256, (n - 1) as nat));
    }
}

/// Reading bytes and writing the number gives the bytes back, big-endian.
pub proof fn law_be_bytes_of_nat(s: Seq<u8>)
    ensures
        be_bytes(be_nat(s), s.len()) == s,
    decreases s.len(),
{
    if s.len() > 0 {
        law_be_bytes_of_nat(s.drop_last());
        assert(be_nat(s) / 256 == be_nat(s.drop_last()));
        assert(be_bytes(be_nat(s), s.len()) =~= s);
    }
}

/// Reading bytes and writing the number gives the bytes back, little-endian.
pub proof fn law_le_bytes_of_nat(s: Seq<u8>)
    ensures
        le_bytes(le_nat(s), s.len()) == s,
    decreases s.len(),
{
    if s.len() > 0 {
        law_le_bytes_of_nat(s.drop_first());
        assert(le_nat(s) / 256 == le_nat(s.drop_first()));
        assert(le_bytes(le_nat(s), s.len()) =~= s);
    }
}

pub proof fn lemma_pow256_values()
    ensures
        pow256(0) == 1,
        pow256(1) == 0x100,
        pow256(2) == 0x1_0000,
        pow256(3) == 0x100_0000,
        pow256(4) == 0x1_0000_0000,
        pow256(8) == 0x1_0000_0000_0000_0000,
        pow256(16) == 0x1_0000_0000_0000_0000_0000_0000_0000_0000,
{
    reveal_with_fuel(pow256, 17);
}

pub proof fn lemma_pow256_monotone(a: nat, b: nat)
    requires
        a <= b,
    ensures
        pow256(a) <= pow256(b),
    decreases b,
{
    if a < b {
        lemma_pow256_monotone(a, (b - 1) as nat);
    }
}

/// Reads at most sixteen bytes as a big-endian number.
pub fn read_be(b: &[u8]) -> (v: u128)
    requires
        b@.len() <= 16,
    ensures
        v == be_nat(b@),
        v < pow256(b@.len()),
{
    let mut v: u128 = 0;
    let mut i: usize = 0;
    proof {
        lemma_pow256_values();
    }
    while i < b.len()
        invariant
            i <= b@.len() <= 16,
            v == be_nat(b@.take(i as int)),
            v < pow256(i as nat),
        decreases b@.len() - i,
    {
        proof {
            lemma_pow256_monotone((i + 1) as nat, 16);
            lemma_pow256_values();
            assert(b@.take(i + 1).drop_last() =~= b@.take(i as int));
            lemma_be_nat_bound(b@.take(i + 1));
        }
        v = v * 256 + b[i] as u128;
        i += 1;
    }
    assert(b@.take(i as int) =~= b@);
    v
}

/// Reads at most sixteen bytes as a little-endian number.
pub fn read_le(b: &[u8]) -> (v: u128)
    requires
        b@.len() <= 16,
    ensures
        v == le_nat(b@),
        v < pow256(b@.len()),
{
    let mut v: u128 = 0;
    let mut i: usize = b.len();
    proof {
        lemma_pow256_values();
    }
    assert(b@.skip(i as int) =~= Seq::<u8>::empty());
    while i > 0
        invariant
            i <= b@.len() <= 16,
            v == le_nat(b@.skip(i as int)),
            v < pow256((b@.len() - i) as nat),
        decreases i,
    {
        proof {
            lemma_pow256_monotone((b@.len() - i + 1) as nat, 16);
            lemma_pow256_values();
            assert(b@.skip(i - 1).drop_first() =~= b@.skip(i as int));
            lemma_le_nat_bound(b@.skip(i - 1));
        }
        i -= 1;
        v = v * 256 + b[i] as u128;
    }
    assert(b@.skip(0) =~= b@);
    v
}

/// The part of `s` of length `n` that starts at `at`.
pub open spec fn at(s: Seq<u8>, at: int, n: int) -> Seq<u8> {
    s.subrange(at, at + n)
}

/// The big-endian `u16` at `at`.
pub fn be_u16_at(b: &[u8], at: usize) -> (v: u16)
    requires
        at + 2 <= b@.len(),
    ensures
        v == be_nat(self::at(b@, at as int, 2)),
{
    proof {
        lemma_pow256_values();
    }
    assert(b.len() as nat == b@.len());
    let part = vstd::slice::slice_subrange(b, at, at + 2);
    read_be(part) as u16
}

/// The big-endian `u32` at `at`.
pub fn be_u32_at(b: &[u8], at: usize) -> (v: u32)
    requires
        at + 4 <= b@.len(),
    ensures
        v == be_nat(self::at(b@, at as int, 4)),
{
    proof {
        lemma_pow256_values();
    }
    assert(b.len() as nat == b@.len());
    let part = vstd::slice::slice_subrange(b, at, at + 4);
    read_be(part) as u32
}

/// The big-endian `u64` at `at`.
pub fn be_u64_at(b: &[u8], at: usize) -> (v: u64)
    requires
        at + 8 <= b@.len(),
    ensures
        v == be_nat(self::at(b@, at as int, 8)),
{
    proof {
        lemma_pow256_values();
    }
    assert(b.len() as nat == b@.len());
    let part = vstd::slice::slice_subrange(b, at, at + 8);
    read_be(part) as u64
}

/// The big-endian `u128` at `at`.
pub fn be_u128_at(b: &[u8], at: usize) -> (v: u128)
    requires
        at + 16 <= b@.len(),
    ensures
        v == be_nat(self::at(b@, at as int, 16)),
{
    assert(b.len() as nat == b@.len());
    let part = vstd::slice::slice_subrange(b, at, at + 16);
    read_be(part)
}

/// The little-endian `u16` at `at`.
pub fn le_u16_at(b: &[u8], at: usize) -> (v: u16)
    requires
        at + 2 <= b@.len(),
    ensures
        v == le_nat(self::at(b@, at as int, 2)),
{
    proof {
        lemma_pow256_values();
    }
    assert(b.len() as nat == b@.len());
    let part = vstd::slice::slice_subrange(b, at, at + 2);
    read_le(part) as u16
}

/// The little-endian `u32` at `at`.
pub fn le_u32_at(b: &[u8], at: usize) -> (v: u32)
    requires
        at + 4 <= b@.len(),
    ensures
        v == le_nat(self::at(b@, at as int, 4)),
{
    proof {
        lemma_pow256_values();
    }
    assert(b.len() as nat == b@.len());
    let part = vstd::slice::slice_subrange(b, at, at + 4);
    read_le(part) as u32
}

/// The little-endian `u64` at `at`.
pub fn le_u64_at(b: &[u8], at: usize) -> (v: u64)
    requires
        at + 8 <= b@.len(),
    ensures
        v == le_nat(self::at(b@, at as int, 8)),
{
    proof {
        lemma_pow256_values();
    }
    assert(b.len() as nat == b@.len());
    let part = vstd::slice::slice_subrange(b, at, at + 8);
    read_le(part) as u64
}

/// Appends the bytes of `more`.
pub fn append(out: &mut Vec<u8>, more: &[u8])
    ensures
        final(out)@ == old(out)@ + more@,
{
    let mut i: usize = 0;
    while i < more.len()
        invariant
            i <= more@.len(),
            out@ == old(out)@ + more@.take(i as int),
        decreases more@.len() - i,
    {
        out.push(more[i]);
        i += 1;
        assert(more@.take(i as int) =~= more@.take(i - 1).push(more@[i - 1]));
    }
    assert(more@.take(i as int) =~= more@);
}

/// Appends `n` bytes of `v`, least significant first.
pub fn push_le(out: &mut Vec<u8>, v: u128, n: usize)
    ensures
        final(out)@ == old(out)@ + le_bytes(v as nat, n as nat),
{
    let mut rest: u128 = v;
    let mut i: usize = 0;
    while i < n
        invariant
            i <= n,
            out@ + le_bytes(rest as nat, (n - i) as nat) == old(out)@ + le_bytes(v as nat, n as nat),
        decreases n - i,
    {
        let ghost before = out@;
        out.push((rest % 256) as u8);
        proof {
            let k = (n - i) as nat;
            assert(le_bytes(rest as nat, k) == seq![(rest % 256) as u8] + le_bytes(
                rest as nat / 256,
                (k - 1) as nat,
            ));
            assert(out@ + le_bytes(rest as nat / 256, (k - 1) as nat) =~= before + le_bytes(
                rest as nat,
                k,
            ));
        }
        rest = rest / 256;
        i += 1;
    }
    assert(out@ + Seq::<u8>::empty() =~= out@);
}

/// The low `n` bytes of `v`, most significant first.
pub fn to_be(v: u128, n: usize) -> (out: Vec<u8>)
    ensures
        out@ == be_bytes(v as nat, n as nat),
    decreases n,
{
    if n == 0 {
        Vec::new()
    } else {
        let mut out = to_be(v / 256, n - 1);
        out.push((v % 256) as u8);
        out
    }
}

/// A copy of part of a byte string.
pub fn copy_range(b: &[u8], from: usize, to: usize) -> (out: Vec<u8>)
    requires
        from <= to <= b@.len(),
    ensures
        out@ == b@.subrange(from as int, to as int),
{
    let mut out: Vec<u8> = Vec::new();
    let part = vstd::slice::slice_subrange(b, from, to);
    append(&mut out, part);
    assert(out@ =~= b@.subrange(from as int, to as int));
    out
}

/// Whether two byte strings are equal.
pub fn same_bytes(a: &[u8], b: &[u8]) -> (r: bool)
    ensures
        r == (a@ == b@),
{
    if a.len() != b.len() {
        return false;
    }
    let mut i: usize = 0;
    while i < a.len()
        invariant
            i <= a@.len(),
            a@.len() == b@.len(),
            a@.take(i as int) == b@.take(i as int),
        decreases a@.len() - i,
    {
        if a[i] != b[i] {
            assert(a@[i as int] != b@[i as int]);
            return false;
        }
        i += 1;
        assert(a@.take(i as int) =~= a@.take(i - 1).push(a@[i - 1]));
        assert(b@.take(i as int) =~= b@.take(i - 1).push(b@[i - 1]));
    }
    assert(a@.take(i as int) =~= a@);
    assert(b@.take(i as int) =~= b@);
    true
}

/// A big-endian number has its most significant byte first, and a little-endian one
/// its least significant.
pub proof fn law_bytes_have_their_weight(b: u8, s: Seq<u8>)
    ensures
        be_nat(seq![b] + s) == b * pow256(s.len()) + be_nat(s),
        le_nat(seq![b] + s) == b + 256 * le_nat(s),
        pow256(s.len() + 1) == 256 * pow256(s.len()),
        be_nat(seq![b]) == b,
        le_nat(seq![b]) == b,
    decreases s.len(),
{
    let t = seq![b] + s;
    reveal_with_fuel(be_nat, 2);
    reveal_with_fuel(le_nat, 2);
    assert(t.drop_first() =~= s);
    if s.len() > 0 {
        let u = s.drop_last();
        law_bytes_have_their_weight(b, u);
        assert(t.drop_last() =~= seq![b] + u);
        assert(t.last() == s.last());
        let p = pow256(u.len());
        assert(256 * (b * p) == b * (256 * p)) by (nonlinear_arith);
        assert(pow256(s.len()) == 256 * p);
        assert(be_nat(t) == 256 * be_nat(seq![b] + u) + s.last() as nat);
    } else {
        assert(t =~= seq![b]);
        assert(pow256(0) == 1);
    }
}

} // verus!
