//! Frames: a length of four bytes, least significant first, and that many bytes.

use crate::bytes::{
    append, copy_range, law_le_round_trip, le_bytes, le_nat, le_u32_at, lemma_le_bytes_len,
    lemma_pow256_values, push_le,
};
use crate::text::{dec_text, owned, push_dec};
use vstd::prelude::*;

verus! {

/// The most bytes that a frame may carry.
pub const MAX_FRAME_LEN: u32 = 8_388_608;

/// Why a frame could not be written or read.
#[derive(Debug, PartialEq, Eq)]
pub enum CodecError {
    /// The stream failed, or ended inside a frame.
    Io(String),
    /// The bytes of a frame are no message.
    Bincode(String),
    /// A length beyond the limit.
    FrameTooLarge(u32),
}

impl CodecError {
    /// The sentence that an error is reported with.
    pub open spec fn sentence(self) -> Seq<char> {
        match self {
            CodecError::Io(m) => "io: "@ + m@,
            CodecError::Bincode(m) => "encode/decode: "@ + m@,
            CodecError::FrameTooLarge(n) => "frame length "@ + dec_text(n as nat) + " exceeds max "@
                + dec_text(MAX_FRAME_LEN as nat),
        }
    }

    /// The sentence that an error is reported with.
    pub fn message(&self) -> (s: String)
        ensures
            s@ == self.sentence(),
    {
        match self {
            CodecError::Io(m) => {
                let mut s = owned("io: ");
                s.push_str(m.as_str());
                s
            },
            CodecError::Bincode(m) => {
                let mut s = owned("encode/decode: ");
                s.push_str(m.as_str());
                s
            },
            CodecError::FrameTooLarge(n) => {
                let mut s = owned("frame length ");
                push_dec(&mut s, *n as u64);
                s.push_str(" exceeds max ");
                push_dec(&mut s, MAX_FRAME_LEN as u64);
                s
            },
        }
    }
}

/// What reading a frame from the front of a stream comes to: its bytes and those
/// that follow it, nothing where the stream has ended, or the reason why there is
/// none. A stream that ends inside a frame, be it inside the length, is short.
pub ghost enum Read {
    Frame { payload: Seq<u8>, rest: Seq<u8> },
    End,
    Short,
    TooLarge(nat),
}

/// The frame that carries `payload`.
pub open spec fn frame(payload: Seq<u8>) -> Seq<u8> {
    le_bytes(payload.len(), 4) + payload
}

/// The frames of `payloads`, one after the other.
pub open spec fn frames(payloads: Seq<Seq<u8>>) -> Seq<u8>
    decreases payloads.len(),
{
    if payloads.len() == 0 {
        Seq::empty()
    } else {
        frame(payloads[0]) + frames(payloads.drop_first())
    }
}

/// What reading a frame from the front of `stream` comes to.
pub open spec fn read(stream: Seq<u8>) -> Read {
    if stream.len() == 0 {
        Read::End
    } else if stream.len() < 4 {
        Read::Short
    } else {
        let n = le_nat(stream.take(4));
        if n > MAX_FRAME_LEN {
            Read::TooLarge(n)
        } else if stream.len() < 4 + n {
            Read::Short
        } else {
            Read::Frame {
                payload: stream.subrange(4, 4 + n as int),
                rest: stream.skip(4 + n as int),
            }
        }
    }
}

/// The payloads of the frames at the front of `stream`, up to its end or to the
/// first that cannot be read.
pub open spec fn read_all(stream: Seq<u8>) -> Seq<Seq<u8>>
    decreases stream.len(),
{
    match read(stream) {
        Read::Frame { payload, rest } => seq![payload] + read_all(rest),
        _ => Seq::empty(),
    }
}

/// The frame that carries `payload`, or the length that is beyond the limit.
pub fn encode(payload: &[u8]) -> (r: Result<Vec<u8>, CodecError>)
    ensures
        r is Ok == (payload@.len() <= MAX_FRAME_LEN),
        r is Ok ==> r->Ok_0@ == frame(payload@),
        r is Err ==> r->Err_0 == CodecError::FrameTooLarge(
            (payload@.len() % 0x1_0000_0000) as u32,
        ),
{
    let len: usize = payload.len();
    assert(len as nat == payload@.len());
    if len as u64 > MAX_FRAME_LEN as u64 {
        return Err(CodecError::FrameTooLarge((len as u64 % 0x1_0000_0000) as u32));
    }
    let mut out: Vec<u8> = Vec::new();
    push_le(&mut out, len as u128, 4);
    append(&mut out, payload);
    assert(out@ =~= frame(payload@));
    Ok(out)
}

/// Appends the frame that carries `payload` to a stream; nothing where it is too
/// large.
pub fn write_frame(w: &mut Vec<u8>, payload: &[u8]) -> (r: Result<(), CodecError>)
    ensures
        r is Ok == (payload@.len() <= MAX_FRAME_LEN),
        r is Ok ==> final(w)@ == old(w)@ + frame(payload@),
        r is Err ==> final(w)@ == old(w)@ && r->Err_0 == CodecError::FrameTooLarge(
            (payload@.len() % 0x1_0000_0000) as u32,
        ),
{
    match encode(payload) {
        Ok(f) => {
            append(w, f.as_slice());
            Ok(())
        },
        Err(e) => Err(e),
    }
}

/// The bytes that follow a length, or the length that is beyond the limit.
pub fn payload_len(prefix: &[u8]) -> (r: Result<usize, CodecError>)
    requires
        prefix@.len() == 4,
    ensures
        r is Ok == (le_nat(prefix@) <= MAX_FRAME_LEN),
        r is Ok ==> r->Ok_0 == le_nat(prefix@),
        r is Err ==> r->Err_0 == CodecError::FrameTooLarge(le_nat(prefix@) as u32),
{
    let n: u32 = le_u32_at(prefix, 0);
    assert(crate::bytes::at(prefix@, 0, 4) =~= prefix@);
    if n > MAX_FRAME_LEN {
        Err(CodecError::FrameTooLarge(n))
    } else {
        Ok(n as usize)
    }
}

/// A stream of bytes, and how far it has been read.
#[derive(Debug)]
pub struct Source {
    pub bytes: Vec<u8>,
    pub at: usize,
}

impl Source {
    /// The bytes that are still to be read.
    pub open spec fn ahead(&self) -> Seq<u8> {
        self.bytes@.skip(self.at as int)
    }

    pub open spec fn wf(&self) -> bool {
        self.at <= self.bytes@.len()
    }

    /// The stream of `bytes`, from its start.
    pub fn new(bytes: Vec<u8>) -> (r: Source)
        ensures
            r.wf(),
            r.ahead() == bytes@,
    {
        let r = Source { bytes, at: 0 };
        assert(r.ahead() =~= bytes@);
        r
    }
}

/// The next frame's bytes. There are none where the stream ends between two
/// frames; one that ends inside a frame is an error. A length beyond the limit is
/// refused before what it claims is read.
pub fn read_frame(r: &mut Source) -> (out: Result<Option<Vec<u8>>, CodecError>)
    requires
        old(r).wf(),
    ensures
        final(r).wf(),
        final(r).bytes == old(r).bytes,
        match read(old(r).ahead()) {
            Read::Frame { payload, rest } => out matches Ok(Some(p)) && p@ == payload
                && final(r).ahead() == rest,
            Read::End => out matches Ok(None) && final(r).ahead().len() == 0,
            Read::Short => out matches Err(CodecError::Io(m)) && m@ == "failed to fill whole buffer"@
                && final(r).ahead().len() == 0,
            Read::TooLarge(n) => out matches Err(CodecError::FrameTooLarge(m)) && m == n
                && final(r).ahead() == old(r).ahead().skip(4),
        },
{
    let ghost ahead = r.ahead();
    let len: usize = r.bytes.len();
    if r.at == len {
        return Ok(None);
    }
    if len - r.at < 4 {
        r.at = len;
        return Err(CodecError::Io(owned("failed to fill whole buffer")));
    }
    let prefix = copy_range(r.bytes.as_slice(), r.at, r.at + 4);
    assert(prefix@ =~= ahead.take(4));
    r.at = r.at + 4;
    assert(r.ahead() =~= ahead.skip(4));
    proof {
        lemma_pow256_values();
        crate::bytes::lemma_le_nat_bound(prefix@);
    }
    match payload_len(prefix.as_slice()) {
        Err(e) => Err(e),
        Ok(n) => {
            if len - r.at < n {
                r.at = len;
                return Err(CodecError::Io(owned("failed to fill whole buffer")));
            }
            let payload = copy_range(r.bytes.as_slice(), r.at, r.at + n);
            assert(payload@ =~= ahead.subrange(4, 4 + n as int));
            r.at = r.at + n;
            assert(r.ahead() =~= ahead.skip(4 + n as int));
            Ok(Some(payload))
        },
    }
}

/// What is read from a frame is what was written into it, and what follows the
/// frame is left.
pub proof fn law_frames_read_back(payload: Seq<u8>, rest: Seq<u8>)
    requires
        payload.len() <= MAX_FRAME_LEN,
    ensures
        read(frame(payload) + rest) == (Read::Frame { payload, rest }),
{
    lemma_le_bytes_len(payload.len(), 4);
    lemma_pow256_values();
    law_le_round_trip(payload.len(), 4);
    let s = frame(payload) + rest;
    assert(s.take(4) =~= le_bytes(payload.len(), 4));
    assert(s.subrange(4, 4 + payload.len() as int) =~= payload);
    assert(s.skip(4 + payload.len() as int) =~= rest);
}

/// Frames are read back in the order in which they were written.
pub proof fn law_frames_keep_their_order(payloads: Seq<Seq<u8>>)
    requires
        forall|i: int| 0 <= i < payloads.len() ==> #[trigger] payloads[i].len() <= MAX_FRAME_LEN,
    ensures
        read_all(frames(payloads)) == payloads,
    decreases payloads.len(),
{
    if payloads.len() > 0 {
        law_frames_read_back(payloads[0], frames(payloads.drop_first()));
        law_frames_keep_their_order(payloads.drop_first());
        assert(payloads =~= seq![payloads[0]] + payloads.drop_first());
    }
}

/// A stream that is cut off inside a frame is never taken for one that has ended.
pub proof fn law_cut_frames_are_not_the_end(payload: Seq<u8>, n: int)
    requires
        payload.len() <= MAX_FRAME_LEN,
        0 < n < frame(payload).len(),
    ensures
        read(frame(payload).take(n)) == Read::Short,
{
    lemma_le_bytes_len(payload.len(), 4);
    lemma_pow256_values();
    law_le_round_trip(payload.len(), 4);
    if n >= 4 {
        assert(frame(payload).take(n).take(4) =~= le_bytes(payload.len(), 4));
    }
}

/// A length beyond the limit is refused whatever follows it, however much or
/// little that is.
pub proof fn law_long_lengths_are_refused(n: nat, rest: Seq<u8>)
    requires
        MAX_FRAME_LEN < n <= u32::MAX,
    ensures
        read(le_bytes(n, 4) + rest) == Read::TooLarge(n),
{
    lemma_le_bytes_len(n, 4);
    lemma_pow256_values();
    law_le_round_trip(n, 4);
    assert((le_bytes(n, 4) + rest).take(4) =~= le_bytes(n, 4));
}

} // verus!
