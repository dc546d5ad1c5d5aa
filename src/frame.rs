//! WebSocket frames: the steps of reading an inbound (client) frame, and the
//! header of an outbound (server) frame.

use vstd::prelude::*;
use crate::codec::{be, be_val, get_be, put_be, pow256, lemma_be_len, lemma_be_round_trip};

verus! {

/// The largest payload, in bytes, that an inbound frame may declare.
pub const PAYLOAD_SIZE_CAP: u64 = 128;

/// Why a frame could not be read.
#[derive(Debug, Clone, Copy, PartialEq, Eq, Structural)]
pub enum FrameError {
    /// The bytes break the framing rules; the connection must be dropped.
    Violation,
    /// More bytes are needed to finish the frame.
    Incomplete,
}

/// The first two bytes of a frame, taken apart.
#[derive(Debug, Clone, Copy, PartialEq, Eq, Structural)]
pub struct FrameHead {
    pub fin: bool,
    pub opcode: u8,
    pub len7: u8,
}

/// A frame as the reader sees it.
#[derive(Debug, Clone, PartialEq, Eq)]
pub enum IncomingFrame {
    Data { payload: Vec<u8>, fin: bool },
    Ping,
    Pong,
    Close,
}

pub enum FrameView {
    Data { payload: Seq<u8>, fin: bool },
    Ping,
    Pong,
    Close,
}

impl View for IncomingFrame {
    type V = FrameView;

    open spec fn view(&self) -> FrameView {
        match self {
            IncomingFrame::Data { payload, fin } => FrameView::Data { payload: payload@, fin: *fin },
            IncomingFrame::Ping => FrameView::Ping,
            IncomingFrame::Pong => FrameView::Pong,
            IncomingFrame::Close => FrameView::Close,
        }
    }
}

/// How many extended-length bytes follow a 7-bit length.
pub open spec fn ext_size(len7: u8) -> nat {
    if len7 == 126 {
        2
    } else if len7 == 127 {
        8
    } else {
        0
    }
}

/// The payload length a frame declares, read from its first bytes.
pub open spec fn declared_len(s: Seq<u8>) -> nat {
    let len7 = s[1] % 128;
    if len7 == 126 {
        be_val(s.subrange(2, 4))
    } else if len7 == 127 {
        be_val(s.subrange(2, 10))
    } else {
        len7 as nat
    }
}

/// `p` with each byte XORed with the masking key, cycling through it.
pub open spec fn unmasked(p: Seq<u8>, key: Seq<u8>) -> Seq<u8> {
    Seq::new(p.len(), |i: int| p[i] ^ key[i % 4])
}

/// What an opcode makes of an unmasked payload; `None` for an opcode that is
/// not accepted (text frames among them).
pub open spec fn classify_spec(opcode: u8, fin: bool, payload: Seq<u8>) -> Option<FrameView> {
    if opcode == 0x9 {
        Some(FrameView::Ping)
    } else if opcode == 0xA {
        Some(FrameView::Pong)
    } else if opcode == 0x2 || opcode == 0x0 {
        Some(FrameView::Data { payload, fin })
    } else if opcode == 0x8 {
        Some(FrameView::Close)
    } else {
        None
    }
}

/// Reading one inbound frame from the front of `s`: the frame and the number
/// of bytes it took.
pub open spec fn parse_frame_spec(s: Seq<u8>, cap: u64) -> Result<(FrameView, nat), FrameError> {
    if s.len() < 2 {
        Err(FrameError::Incomplete)
    } else if s[1] < 128 {
        Err(FrameError::Violation)
    } else {
        let e = ext_size(s[1] % 128);
        if s.len() < 6 + e {
            Err(FrameError::Incomplete)
        } else {
            let n = declared_len(s);
            if n > cap {
                Err(FrameError::Violation)
            } else if s.len() < 6 + e + n {
                Err(FrameError::Incomplete)
            } else {
                let key = s.subrange(2 + e as int, 6 + e as int);
                let p = unmasked(s.subrange(6 + e as int, 6 + e + n as int), key);
                match classify_spec(s[0] % 16, s[0] >= 128, p) {
                    None => Err(FrameError::Violation),
                    Some(f) => Ok((f, 6 + e + n)),
                }
            }
        }
    }
}

/// Takes apart the first two bytes of an inbound frame. Inbound frames must
/// be masked: a clear mask bit is a violation.
pub fn parse_head(b0: u8, b1: u8) -> (r: Result<FrameHead, FrameError>)
    ensures
        r is Err <==> b1 < 128,
        r matches Err(e) ==> e == FrameError::Violation,
        r matches Ok(h) ==> h.fin == (b0 >= 128) && h.opcode == b0 % 16 && h.len7 == b1 % 128,
{
    if b1 & 0x80 == 0 {
        assert(b1 & 0x80 == 0 ==> b1 < 128) by (bit_vector);
        return Err(FrameError::Violation);
    }
    assert(b1 & 0x80 != 0 ==> b1 >= 128) by (bit_vector);
    assert(b0 & 0x80 != 0 <==> b0 >= 128) by (bit_vector);
    assert(b0 & 0x0f == b0 % 16) by (bit_vector);
    assert(b1 & 0x7f == b1 % 128) by (bit_vector);
    Ok(FrameHead { fin: b0 & 0x80 != 0, opcode: b0 & 0x0f, len7: b1 & 0x7f })
}

/// How many extended-length bytes follow the first two.
pub fn ext_len_size(h: &FrameHead) -> (r: usize)
    ensures
        r == ext_size(h.len7),
{
    if h.len7 == 126 {
        2
    } else if h.len7 == 127 {
        8
    } else {
        0
    }
}

/// The payload length, from the 7-bit length and the extended-length bytes.
pub fn payload_len(h: &FrameHead, ext: &[u8]) -> (r: u64)
    requires
        ext@.len() == ext_size(h.len7),
    ensures
        r == (if h.len7 == 126 || h.len7 == 127 { be_val(ext@) } else { h.len7 as nat }),
{
    let n = ext_len_size(h);
    if n == 0 {
        h.len7 as u64
    } else {
        let r = get_be(ext, 0, n);
        assert(ext@.subrange(0, n as int) =~= ext@);
        r
    }
}

/// Whether a declared payload length is within the cap; a frame over it is
/// refused before any payload byte is read.
pub fn within_cap(len: u64, cap: u64) -> (r: bool)
    ensures
        r == (len <= cap),
{
    len <= cap
}

/// Removes the mask from a payload in place.
pub fn unmask(payload: &mut Vec<u8>, key: [u8; 4])
    ensures
        final(payload)@ == unmasked(old(payload)@, key@),
{
    let ghost orig = payload@;
    let mut i: usize = 0;
    while i < payload.len()
        invariant
            i <= payload@.len(),
            payload@.len() == orig.len(),
            key@.len() == 4,
            forall|j: int| 0 <= j < i ==> payload@[j] == orig[j] ^ key@[j % 4],
            forall|j: int| i <= j < payload@.len() ==> payload@[j] == orig[j],
        decreases payload@.len() - i,
    {
        let b = payload[i] ^ key[i % 4];
        payload.set(i, b);
        i = i + 1;
    }
    assert(payload@ =~= unmasked(orig, key@));
}

/// Turns an unmasked payload into a frame by its opcode.
pub fn classify(h: &FrameHead, payload: Vec<u8>) -> (r: Result<IncomingFrame, FrameError>)
    ensures
        r is Err <==> classify_spec(h.opcode, h.fin, payload@) is None,
        r matches Err(e) ==> e == FrameError::Violation,
        r matches Ok(f) ==> classify_spec(h.opcode, h.fin, payload@) == Some(f@),
{
    if h.opcode == 0x9 {
        Ok(IncomingFrame::Ping)
    } else if h.opcode == 0xA {
        Ok(IncomingFrame::Pong)
    } else if h.opcode == 0x2 || h.opcode == 0x0 {
        Ok(IncomingFrame::Data { payload, fin: h.fin })
    } else if h.opcode == 0x8 {
        Ok(IncomingFrame::Close)
    } else {
        Err(FrameError::Violation)
    }
}

/// The bytes of `s` from `from` up to `to`.
pub(crate) fn copy_range(s: &[u8], from: usize, to: usize) -> (r: Vec<u8>)
    requires
        from <= to <= s@.len(),
    ensures
        r@ == s@.subrange(from as int, to as int),
{
    let mut out: Vec<u8> = Vec::new();
    let mut i: usize = from;
    while i < to
        invariant
            from <= i <= to <= s@.len(),
            out@ == s@.subrange(from as int, i as int),
        decreases to - i,
    {
        out.push(s[i]);
        i = i + 1;
        assert(out@ =~= s@.subrange(from as int, i as int));
    }
    out
}

/// Reads one inbound frame from the front of a buffer, checking the mask
/// bit, then the length cap, then the opcode.
pub fn parse_frame(s: &[u8], cap: u64) -> (r: Result<(IncomingFrame, usize), FrameError>)
    ensures
        r matches Ok((f, n)) ==> parse_frame_spec(s@, cap) == Ok::<(FrameView, nat), FrameError>((f@, n as nat)),
        r matches Err(e) ==> parse_frame_spec(s@, cap) == Err::<(FrameView, nat), FrameError>(e),
{
    if s.len() < 2 {
        return Err(FrameError::Incomplete);
    }
    let h = parse_head(s[0], s[1])?;
    let e = ext_len_size(&h);
    if s.len() - 2 < e + 4 {
        return Err(FrameError::Incomplete);
    }
    let ext = copy_range(s, 2, 2 + e);
    let n = payload_len(&h, ext.as_slice());
    proof {
        assert(ext@ =~= s@.subrange(2, 2 + e as int));
    }
    if !within_cap(n, cap) {
        return Err(FrameError::Violation);
    }
    let start = 6 + e;
    let avail: u64 = (s.len() - start) as u64;
    if avail < n {
        return Err(FrameError::Incomplete);
    }
    let n = n as usize;
    let key: [u8; 4] = [s[2 + e], s[3 + e], s[4 + e], s[5 + e]];
    let mut payload = copy_range(s, start, start + n);
    unmask(&mut payload, key);
    proof {
        assert(key@ =~= s@.subrange(2 + e as int, 6 + e as int));
    }
    let f = classify(&h, payload)?;
    Ok((f, start + n))
}

/// The header of an outbound frame: final, binary, unmasked, with the length
/// in one byte up to 125, in two extended bytes up to 65535, else in eight.
pub open spec fn out_header(len: nat) -> Seq<u8> {
    if len <= 125 {
        seq![0x82u8, len as u8]
    } else if len <= 65535 {
        seq![0x82u8, 126u8] + be(len, 2)
    } else {
        seq![0x82u8, 127u8] + be(len, 8)
    }
}

/// Builds the header of an outbound frame carrying `len` payload bytes.
pub fn frame_header(len: usize) -> (r: Vec<u8>)
    requires
        len <= u64::MAX,
    ensures
        r@ == out_header(len as nat),
{
    let mut h: Vec<u8> = Vec::new();
    h.push(0x82);
    reveal_with_fuel(pow256, 9);
    if len <= 125 {
        h.push(len as u8);
    } else if len <= 65535 {
        h.push(126);
        put_be(&mut h, len as u64, 2);
    } else {
        h.push(127);
        put_be(&mut h, len as u64, 8);
    }
    assert(h@ =~= out_header(len as nat));
    h
}

/// The close frame the server sends: final, opcode close, empty.
pub fn close_frame() -> (r: Vec<u8>)
    ensures
        r@ == seq![0x88u8, 0x00u8],
{
    let mut v: Vec<u8> = Vec::new();
    v.push(0x88);
    v.push(0x00);
    v
}

/// An inbound frame whose mask bit is clear is a violation, whatever its
/// payload.
pub proof fn lemma_unmasked_rejected(s: Seq<u8>, cap: u64)
    requires
        s.len() >= 2,
        s[1] < 128,
    ensures
        parse_frame_spec(s, cap) == Err::<(FrameView, nat), FrameError>(FrameError::Violation),
{
}

/// A frame that declares more payload than the cap is a violation as soon
/// as its header and masking key are in, with none of its payload read.
pub proof fn lemma_over_cap_rejected(s: Seq<u8>, cap: u64, rest: Seq<u8>)
    requires
        s.len() >= 2,
        s[1] >= 128,
        s.len() == 6 + ext_size(s[1] % 128),
        declared_len(s) > cap,
    ensures
        parse_frame_spec(s, cap) == Err::<(FrameView, nat), FrameError>(FrameError::Violation),
        parse_frame_spec(s + rest, cap) == Err::<(FrameView, nat), FrameError>(FrameError::Violation),
{
    let t = s + rest;
    assert(t.subrange(2, 4) =~= s.subrange(2, 4));
    assert(s.len() >= 10 ==> t.subrange(2, 10) =~= s.subrange(2, 10));
}

/// An outbound header uses the 8-byte length form exactly when the payload
/// is over 65535 bytes, and its length reads back as the payload length.
pub proof fn lemma_out_header_length(len: nat)
    requires
        len < 0x1_0000_0000_0000_0000,
    ensures
        (out_header(len).len() == 10) <==> len > 65535,
        len > 65535 ==> out_header(len)[1] == 127,
        out_header(len).len() == 2 + ext_size(out_header(len)[1] % 128),
        declared_len(out_header(len)) == len,
{
    let h = out_header(len);
    reveal_with_fuel(pow256, 9);
    if len <= 125 {
    } else if len <= 65535 {
        lemma_be_len(len, 2);
        lemma_be_round_trip(len, 2);
        assert(h.subrange(2, 4) =~= be(len, 2));
    } else {
        lemma_be_len(len, 8);
        lemma_be_round_trip(len, 8);
        assert(h.subrange(2, 10) =~= be(len, 8));
    }
}

} // verus!
