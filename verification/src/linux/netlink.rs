//! Netlink framing.
//!
//! A datagram holds messages, each a sixteen-byte header and a payload; a
//! payload holds attributes, each a four-byte header and a value. Both are
//! padded to four bytes. Header fields are in host order, and the supported
//! hosts are little-endian.

use crate::bytes::{append, copy_range, le_u16_at, le_u32_at, push_le};
use vstd::prelude::*;

verus! {

broadcast use {vstd::seq_lib::group_seq_properties};

pub const NLMSG_NOOP: u16 = 1;

pub const NLMSG_ERROR: u16 = 2;

pub const NLMSG_DONE: u16 = 3;

pub const NLM_F_REQUEST: u16 = 0x001;

pub const NLM_F_ACK: u16 = 0x004;

pub const NLM_F_DUMP: u16 = 0x300;

/// The length of a message's header.
pub const HEADER_LEN: usize = 16;

/// The least multiple of four that is at least `n`.
pub open spec fn aligned(n: nat) -> nat {
    (n + 3) / 4 * 4
}

/// Rounds a length up to netlink's alignment.
pub fn align4(len: usize) -> (r: usize)
    requires
        len <= usize::MAX - 3,
    ensures
        r == aligned(len as nat),
        r % 4 == 0,
        len <= r < len + 4,
{
    (len + 3) / 4 * 4
}

/// One attribute: its type and its value.
pub struct Attr {
    pub ty: u16,
    pub value: Vec<u8>,
}

/// An attribute as its contracts see it.
pub ghost struct AttrView {
    pub ty: nat,
    pub value: Seq<u8>,
}

impl View for Attr {
    type V = AttrView;

    open spec fn view(&self) -> AttrView {
        AttrView { ty: self.ty as nat, value: self.value@ }
    }
}

/// The views of a run of attributes.
pub open spec fn attr_views(attrs: Seq<Attr>) -> Seq<AttrView> {
    attrs.map_values(|a: Attr| a@)
}

/// The attributes that `data` holds, in order. The walk ends at the first header
/// that does not fit: one that is cut off, shorter than itself, or longer than
/// what is left.
pub open spec fn attrs_of(data: Seq<u8>) -> Seq<AttrView>
    decreases data.len(),
{
    if data.len() < 4 {
        Seq::empty()
    } else {
        let len = le16(data, 0);
        if len < 4 || len > data.len() {
            Seq::empty()
        } else {
            let first = AttrView { ty: le16(data, 2), value: data.subrange(4, len as int) };
            if aligned(len) >= data.len() {
                seq![first]
            } else {
                seq![first] + attrs_of(data.skip(aligned(len) as int))
            }
        }
    }
}

/// The little-endian sixteen-bit field at `at`.
pub open spec fn le16(s: Seq<u8>, at: int) -> nat {
    crate::bytes::le_nat(crate::bytes::at(s, at, 2))
}

/// The little-endian thirty-two-bit field at `at`.
pub open spec fn le32(s: Seq<u8>, at: int) -> nat {
    crate::bytes::le_nat(crate::bytes::at(s, at, 4))
}

/// The attributes in a netlink payload.
pub fn for_each_attr(data: &[u8]) -> (attrs: Vec<Attr>)
    ensures
        attr_views(attrs@) == attrs_of(data@),
{
    let mut out: Vec<Attr> = Vec::new();
    let mut off: usize = 0;
    assert(data@.skip(0) =~= data@);
    assert(attr_views(out@) + attrs_of(data@) =~= attrs_of(data@));
    while data.len() - off >= 4
        invariant_except_break
            attr_views(out@) + attrs_of(data@.skip(off as int)) == attrs_of(data@),
        invariant
            off <= data@.len(),
        ensures
            attr_views(out@) == attrs_of(data@),
        decreases data@.len() - off,
    {
        let ghost rest = data@.skip(off as int);
        let ghost done = attr_views(out@);
        assert(data.len() as nat == data@.len());
        let len: usize = le_u16_at(data, off) as usize;
        let ty: u16 = le_u16_at(data, off + 2);
        assert(crate::bytes::at(rest, 0, 2) =~= crate::bytes::at(data@, off as int, 2));
        assert(crate::bytes::at(rest, 2, 2) =~= crate::bytes::at(data@, off + 2, 2));
        if len < 4 || len > data.len() - off {
            assert(done + Seq::<AttrView>::empty() =~= done);
            break;
        }
        let value = copy_range(data, off + 4, off + len);
        let ghost first = AttrView { ty: ty as nat, value: value@ };
        assert(value@ =~= rest.subrange(4, len as int));
        out.push(Attr { ty, value });
        assert(attr_views(out@) =~= done.push(first));
        let advance: usize = align4(len);
        if advance >= data.len() - off {
            assert(done + seq![first] =~= done.push(first));
            break;
        }
        proof {
            assert(rest.skip(advance as int) =~= data@.skip(off + advance));
            let tail = attrs_of(data@.skip(off + advance));
            assert(done + (seq![first] + tail) =~= done.push(first) + tail);
        }
        off += advance;
    }
    out
}

/// How a datagram of a multipart reply ends.
#[derive(Clone, Copy, PartialEq, Eq, Structural, Debug)]
pub enum DumpEnd {
    /// The reply goes on in the next datagram.
    More,
    /// The reply is complete.
    Done,
    /// The kernel refused the request with this `errno`.
    Failed(i32),
}

/// A datagram, walked: its data messages and how it ended.
pub ghost struct WalkView {
    pub messages: Seq<AttrView>,
    pub end: DumpEnd,
}

/// The `errno` of an error message whose payload starts with `code`: the kernel
/// sends it negated.
pub open spec fn errno_of(code: nat) -> i32 {
    if code == 0x8000_0000 {
        i32::MIN
    } else if code > 0x8000_0000 {
        (0x1_0000_0000 - code) as i32
    } else {
        -(code as int) as i32
    }
}

/// What the messages from `off` to `len` in `buf` say. A message that does not
/// fit ends the datagram; an error with code zero is an acknowledgement.
pub open spec fn walk_of(buf: Seq<u8>, off: int, len: int) -> WalkView
    decreases len + 4 - off,
    when 0 <= off && len + 4 <= buf.len()
{
    let end = |end: DumpEnd| WalkView { messages: Seq::empty(), end };
    if off + 16 > len {
        end(DumpEnd::More)
    } else {
        let n = le32(buf, off);
        let ty = le16(buf, off + 4);
        if n < 16 || off + n > len {
            end(DumpEnd::More)
        } else if ty == NLMSG_DONE {
            end(DumpEnd::Done)
        } else if ty == NLMSG_ERROR {
            let code = le32(buf, off + 16);
            if code == 0 {
                end(DumpEnd::Done)
            } else {
                end(DumpEnd::Failed(errno_of(code)))
            }
        } else {
            let rest = walk_of(buf, off + aligned(n), len);
            if ty == NLMSG_NOOP {
                rest
            } else {
                let m = AttrView { ty, value: buf.subrange(off + 16, off + n) };
                WalkView { messages: seq![m] + rest.messages, end: rest.end }
            }
        }
    }
}

/// A datagram's data messages and how it ended.
pub struct Walk {
    pub messages: Vec<Attr>,
    pub end: DumpEnd,
}

impl View for Walk {
    type V = WalkView;

    open spec fn view(&self) -> WalkView {
        WalkView { messages: attr_views(self.messages@), end: self.end }
    }
}

/// Walks the datagram of `len` bytes at the start of `buf`. The buffer keeps
/// four bytes beyond it, so that the code of a cut-off error message can be read.
pub fn recv_dump(buf: &[u8], len: usize) -> (walk: Walk)
    requires
        len + 4 <= buf@.len(),
    ensures
        walk@ == walk_of(buf@, 0, len as int),
{
    let mut out: Vec<Attr> = Vec::new();
    let mut off: usize = 0;
    let mut end: DumpEnd = DumpEnd::More;
    assert(buf.len() as nat == buf@.len());
    let ghost whole = walk_of(buf@, 0, len as int);
    assert(attr_views(out@) + whole.messages =~= whole.messages);
    while off <= len && len - off >= 16
        invariant_except_break
            end == DumpEnd::More,
        invariant
            len + 4 <= buf@.len(),
            buf.len() as nat == buf@.len(),
            whole == walk_of(buf@, 0, len as int),
            0 <= off,
            attr_views(out@) + walk_of(buf@, off as int, len as int).messages == whole.messages,
            walk_of(buf@, off as int, len as int).end == whole.end,
        ensures
            whole.messages == attr_views(out@),
            whole.end == end,
        decreases len + 4 - off,
    {
        let ghost here = walk_of(buf@, off as int, len as int);
        let ghost done = attr_views(out@);
        let n: usize = le_u32_at(buf, off) as usize;
        let ty: u16 = le_u16_at(buf, off + 4);
        if n < 16 || n > len - off {
            assert(done + Seq::<AttrView>::empty() =~= done);
            break;
        }
        if ty == NLMSG_DONE {
            assert(done + Seq::<AttrView>::empty() =~= done);
            end = DumpEnd::Done;
            break;
        }
        if ty == NLMSG_ERROR {
            let code: u32 = le_u32_at(buf, off + 16);
            assert(done + Seq::<AttrView>::empty() =~= done);
            if code == 0 {
                end = DumpEnd::Done;
            } else {
                end = DumpEnd::Failed(errno(code));
            }
            break;
        }
        let ghost rest = walk_of(buf@, off + aligned(n as nat), len as int);
        if ty != NLMSG_NOOP {
            let value = copy_range(buf, off + 16, off + n);
            let ghost m = AttrView { ty: ty as nat, value: value@ };
            out.push(Attr { ty, value });
            assert(attr_views(out@) =~= done.push(m));
            assert(done + (seq![m] + rest.messages) =~= done.push(m) + rest.messages);
        }
        off += align4(n);
    }
    assert(attr_views(out@) + Seq::<AttrView>::empty() =~= attr_views(out@));
    Walk { messages: out, end }
}

/// The `errno` that an error code stands for.
fn errno(code: u32) -> (e: i32)
    ensures
        e == errno_of(code as nat),
{
    if code == 0x8000_0000 {
        i32::MIN
    } else if code > 0x8000_0000 {
        (0xffff_ffff - code) as i32 + 1
    } else {
        -(code as i32)
    }
}

/// One attribute on the wire, without its padding.
pub open spec fn attr_bytes(ty: nat, payload: Seq<u8>) -> Seq<u8> {
    crate::bytes::le_bytes(4 + payload.len(), 2) + crate::bytes::le_bytes(ty, 2) + payload
}

/// `s`, filled up with zeros to a multiple of four.
pub open spec fn padded(s: Seq<u8>) -> Seq<u8> {
    s + Seq::new((aligned(s.len()) - s.len()) as nat, |i: int| 0u8)
}

/// Appends one attribute and fills the buffer up to four bytes. The length field
/// has sixteen bits.
pub fn push_attr(buf: &mut Vec<u8>, ty: u16, payload: &[u8])
    ensures
        final(buf)@ == padded(old(buf)@ + attr_bytes(ty as nat, payload@)),
{
    assert(payload.len() as nat == payload@.len());
    push_le(buf, (4 + payload.len() as u128), 2);
    push_le(buf, ty as u128, 2);
    append(buf, payload);
    let ghost content = old(buf)@ + attr_bytes(ty as nat, payload@);
    assert(buf@ =~= content);
    while buf.len() % 4 != 0
        invariant
            content.len() <= buf@.len() <= aligned(content.len()),
            buf@ == content + Seq::new((buf@.len() - content.len()) as nat, |i: int| 0u8),
        decreases aligned(content.len()) - buf@.len(),
    {
        buf.push(0);
        assert(buf@ =~= content + Seq::new((buf@.len() - content.len()) as nat, |i: int| 0u8));
    }
}

/// Attributes one after another, each padded.
pub open spec fn encoded(attrs: Seq<AttrView>) -> Seq<u8>
    decreases attrs.len(),
{
    if attrs.len() == 0 {
        Seq::empty()
    } else {
        encoded(attrs.drop_last()) + padded(attr_bytes(attrs.last().ty, attrs.last().value))
    }
}

/// Whether an attribute fits its header's sixteen-bit fields.
pub open spec fn attr_fits(a: AttrView) -> bool {
    a.ty < 0x1_0000 && a.value.len() <= 0xffff - 4
}

/// Attributes that fit their headers are read back as they were written.
pub proof fn law_attrs_round_trip(attrs: Seq<AttrView>)
    requires
        forall|i: int| 0 <= i < attrs.len() ==> attr_fits(#[trigger] attrs[i]),
    ensures
        attrs_of(encoded(attrs)) == attrs,
    decreases attrs.len(),
{
    if attrs.len() > 0 {
        let rest = attrs.drop_first();
        assert forall|i: int| 0 <= i < rest.len() implies attr_fits(#[trigger] rest[i]) by {
            assert(rest[i] == attrs[i + 1]);
        }
        law_attrs_round_trip(rest);
        lemma_encoded_first(attrs);
        lemma_attrs_of_first(attrs[0], encoded(rest));
        assert(seq![attrs[0]] + rest =~= attrs);
    }
}

/// Writing starts with the first attribute.
pub proof fn lemma_encoded_first(attrs: Seq<AttrView>)
    requires
        attrs.len() > 0,
    ensures
        encoded(attrs) == padded(attr_bytes(attrs[0].ty, attrs[0].value)) + encoded(
            attrs.drop_first(),
        ),
        encoded(attrs).len() % 4 == 0,
    decreases attrs.len(),
{
    let first = padded(attr_bytes(attrs[0].ty, attrs[0].value));
    if attrs.len() == 1 {
        assert(attrs.drop_last() =~= Seq::empty());
        assert(attrs.drop_first() =~= Seq::empty());
        assert(encoded(attrs.drop_last()) == Seq::<u8>::empty());
        assert(encoded(attrs.drop_first()) == Seq::<u8>::empty());
        assert(attrs.last() == attrs[0]);
        assert(encoded(attrs) =~= first + Seq::<u8>::empty());
    } else {
        lemma_encoded_first(attrs.drop_last());
        assert(attrs.drop_last().drop_first() =~= attrs.drop_first().drop_last());
        let last = padded(attr_bytes(attrs.last().ty, attrs.last().value));
        assert(attrs.drop_first().last() == attrs.last());
        assert(encoded(attrs) =~= first + (encoded(attrs.drop_first().drop_last()) + last));
    }
}

/// Reading starts with the first attribute.
pub proof fn lemma_attrs_of_first(a: AttrView, rest: Seq<u8>)
    requires
        attr_fits(a),
    ensures
        attrs_of(padded(attr_bytes(a.ty, a.value)) + rest) == seq![a] + attrs_of(rest),
{
    let n = 4 + a.value.len();
    let data = padded(attr_bytes(a.ty, a.value)) + rest;
    crate::bytes::lemma_pow256_values();
    crate::bytes::lemma_le_bytes_len(n, 2);
    crate::bytes::lemma_le_bytes_len(a.ty, 2);
    crate::bytes::law_le_round_trip(n, 2);
    crate::bytes::law_le_round_trip(a.ty, 2);
    assert(attr_bytes(a.ty, a.value).len() == n);
    assert(crate::bytes::at(data, 0, 2) =~= crate::bytes::le_bytes(n, 2));
    assert(crate::bytes::at(data, 2, 2) =~= crate::bytes::le_bytes(a.ty, 2));
    assert(data.subrange(4, n as int) =~= a.value);
    if aligned(n) >= data.len() {
        assert(rest =~= Seq::empty());
        assert(seq![a] + attrs_of(rest) =~= seq![a]);
    } else {
        assert(data.skip(aligned(n) as int) =~= rest);
    }
}

/// Appending an attribute to written attributes writes one more.
pub proof fn lemma_push_encodes(attrs: Seq<AttrView>, a: AttrView)
    ensures
        padded(encoded(attrs) + attr_bytes(a.ty, a.value)) == encoded(attrs.push(a)),
        encoded(attrs.push(a)).len() == encoded(attrs).len() + aligned(4 + a.value.len()),
        encoded(attrs).len() % 4 == 0,
{
    if attrs.len() > 0 {
        lemma_encoded_first(attrs);
    }
    crate::bytes::lemma_le_bytes_len(4 + a.value.len(), 2);
    crate::bytes::lemma_le_bytes_len(a.ty, 2);
    assert(attrs.push(a).drop_last() =~= attrs);
    let whole = encoded(attrs) + attr_bytes(a.ty, a.value);
    assert(aligned(whole.len()) == encoded(attrs).len() + aligned(attr_bytes(a.ty, a.value).len()));
    assert(padded(whole) =~= encoded(attrs) + padded(attr_bytes(a.ty, a.value)));
}

/// Messages are read in the order in which they stand. One that does nothing is
/// passed over, one that ends the answer ends it, and an error ends it with the
/// number that stands negated in it, or well where that is zero.
pub proof fn law_messages_are_read_in_order(
    ty: nat,
    middle: Seq<u8>,
    payload: Seq<u8>,
    rest: Seq<u8>,
    tail: Seq<u8>,
)
    requires
        ty < 0x1_0000,
        middle.len() == 10,
        payload.len() < 0x1_0000_0000 - 16,
        tail.len() >= 4,
    ensures
        ({
            let m = padded(
                crate::bytes::le_bytes(16 + payload.len(), 4) + crate::bytes::le_bytes(ty, 2)
                    + middle + payload,
            );
            let all = walk_of(m + rest + tail, 0, (m.len() + rest.len()) as int);
            let others = walk_of(rest + tail, 0, rest.len() as int);
            &&& ty == 1 ==> all == others
            &&& ty == 3 ==> all == (WalkView { messages: Seq::empty(), end: DumpEnd::Done })
            &&& ty == 2 && payload == crate::bytes::le_bytes(0, 4) ==> all == (WalkView {
                messages: Seq::empty(),
                end: DumpEnd::Done,
            })
            &&& ty == 2 ==> forall|e: int|
                #![trigger crate::bytes::le_bytes((0x1_0000_0000 - e) as nat, 4)]
                0 < e < 0x8000_0000 && payload == crate::bytes::le_bytes(
                    (0x1_0000_0000 - e) as nat,
                    4,
                ) ==> all == (WalkView {
                    messages: Seq::empty(),
                    end: DumpEnd::Failed(e as i32),
                })
            &&& !(1 <= ty <= 3) ==> all == (WalkView {
                messages: seq![AttrView { ty, value: payload }] + others.messages,
                end: others.end,
            })
        }),
{
    let n = 16 + payload.len();
    let bare = crate::bytes::le_bytes(n, 4) + crate::bytes::le_bytes(ty, 2) + middle + payload;
    let m = padded(bare);
    let buf = m + rest + tail;
    let len = (m.len() + rest.len()) as int;
    crate::bytes::lemma_pow256_values();
    crate::bytes::lemma_le_bytes_len(n, 4);
    crate::bytes::lemma_le_bytes_len(ty, 2);
    crate::bytes::law_le_round_trip(n, 4);
    crate::bytes::law_le_round_trip(ty, 2);
    assert(crate::bytes::at(buf, 0, 4) =~= crate::bytes::le_bytes(n, 4));
    assert(crate::bytes::at(buf, 4, 2) =~= crate::bytes::le_bytes(ty, 2));
    assert(buf.subrange(16, n as int) =~= payload);
    assert(m.len() == aligned(n));
    if ty == 2 {
        assert forall|e: nat|
            #![trigger crate::bytes::le_bytes(e, 4)]
            e < 0x1_0000_0000 && payload == crate::bytes::le_bytes(e, 4) implies le32(buf, 16)
            == e by {
            crate::bytes::lemma_le_bytes_len(e, 4);
            crate::bytes::law_le_round_trip(e, 4);
            assert(crate::bytes::at(buf, 16, 4) =~= payload);
        }
    } else if ty != 3 {
        assert(buf =~= m + (rest + tail));
        lemma_walk_shift(m, rest + tail, 0, rest.len() as int);
    }
}

proof fn lemma_walk_shift(front: Seq<u8>, s: Seq<u8>, off: int, len: int)
    requires
        0 <= off,
        len + 4 <= s.len(),
    ensures
        walk_of(front + s, off + front.len(), len + front.len()) == walk_of(s, off, len),
    decreases len + 4 - off,
{
    let k = front.len() as int;
    let t = front + s;
    if off + 16 <= len {
        assert(crate::bytes::at(t, off + k, 4) =~= crate::bytes::at(s, off, 4));
        assert(crate::bytes::at(t, off + k + 4, 2) =~= crate::bytes::at(s, off + 4, 2));
        assert(crate::bytes::at(t, off + k + 16, 4) =~= crate::bytes::at(s, off + 16, 4));
        let n = le32(s, off);
        if n >= 16 && off + n <= len {
            assert(t.subrange(off + k + 16, off + k + n) =~= s.subrange(off + 16, off + n));
            lemma_walk_shift(front, s, off + aligned(n), len);
        }
    }
}

/// An attribute is laid out as its length with its four bytes of header, its type, and
/// what it holds, in the order of the machine's bytes; what follows it starts at the
/// next multiple of four.
pub proof fn law_attributes_are_laid_out(ty: u16, value: Seq<u8>)
    requires
        value.len() <= 0xffff - 4,
    ensures
        ({
            let b = padded(attr_bytes(ty as nat, value));
            let n = 4 + value.len();
            &&& b[0] == n % 256 && b[1] == n / 256
            &&& b[2] == ty as nat % 256 && b[3] == ty as nat / 256
            &&& b.subrange(4, n as int) == value
            &&& b.len() % 4 == 0
            &&& n <= b.len() < n + 4
            &&& forall|i: int| n <= i < b.len() ==> #[trigger] b[i] == 0
        }),
{
    let n = 4 + value.len();
    let b = padded(attr_bytes(ty as nat, value));
    lemma_two(n);
    lemma_two(ty as nat);
    assert(b.subrange(4, n as int) =~= value);
}

proof fn lemma_two(n: nat)
    requires
        n < 0x1_0000,
    ensures
        crate::bytes::le_bytes(n, 2) == seq![(n % 256) as u8, (n / 256) as u8],
{
    reveal_with_fuel(crate::bytes::le_bytes, 3);
    assert(crate::bytes::le_bytes(n, 2) =~= seq![(n % 256) as u8, (n / 256) as u8]);
}

} // verus!
