//! The decisions of a client stream: reassembling fragments into one
//! payload, answering a close, and shutting down once.

use vstd::prelude::*;
use crate::codec::DecodeError;
use crate::frame::{FrameView, IncomingFrame};
use crate::schema::{Message, Schema, decode_message, decode_message_spec};

verus! {

/// How many inbound frames shutdown reads at most while waiting for the
/// peer's close.
pub const SHUTDOWN_DRAIN_LIMIT: usize = 10;

/// What the reader does after one frame.
#[derive(Debug, Clone, PartialEq, Eq)]
pub enum ReadStep {
    /// Read another frame.
    Continue,
    /// The peer closed: send a close in reply; the read ends with no message.
    Closed,
    /// The payload is complete.
    Complete(Vec<u8>),
}

/// The state a client stream keeps between frames.
pub struct StreamState {
    /// Bytes of the data fragments received so far for the current message.
    pub buf: Vec<u8>,
    /// Set once a close frame has been received or sent.
    pub closed: bool,
}

/// The payload that a sequence of frames reassembles into: the data frames
/// up to and including the first final one, concatenated; `None` when a
/// close frame comes first (end of stream) or no final data frame comes.
pub open spec fn reassembled(frames: Seq<FrameView>) -> Option<Seq<u8>>
    decreases frames.len(),
{
    if frames.len() == 0 {
        None
    } else {
        match frames[0] {
            FrameView::Data { payload, fin } => {
                if fin {
                    Some(payload)
                } else {
                    match reassembled(frames.drop_first()) {
                        None => None,
                        Some(rest) => Some(payload + rest),
                    }
                }
            },
            FrameView::Close => None,
            _ => reassembled(frames.drop_first()),
        }
    }
}

/// The state change of a shutdown: the stream is closed afterwards, and a
/// close is sent only when it was open.
pub open spec fn shutdown_step(closed: bool) -> (bool, bool) {
    (true, !closed)
}

/// A second shutdown does nothing: it sends nothing and leaves the stream
/// as the first one left it.
pub proof fn lemma_shutdown_idempotent(closed: bool)
    ensures
        shutdown_step(shutdown_step(closed).0) == (true, false),
{
}

/// A close frame ends the read with no message, whatever frames follow it,
/// including data that has already been partly received.
pub proof fn lemma_close_ends_read(before: Seq<u8>, rest: Seq<FrameView>)
    ensures
        reassembled(seq![FrameView::Close] + rest) is None,
        reassembled(seq![FrameView::Data { payload: before, fin: false }, FrameView::Close] + rest) is None,
{
    let a = seq![FrameView::Close] + rest;
    let b = seq![FrameView::Data { payload: before, fin: false }, FrameView::Close] + rest;
    assert(b.drop_first() =~= a);
}

/// A payload sent in two fragments reassembles to the same bytes as when it
/// is sent in one.
pub proof fn lemma_fragments_join(a: Seq<u8>, b: Seq<u8>)
    ensures
        reassembled(
            seq![FrameView::Data { payload: a, fin: false }, FrameView::Data { payload: b, fin: true }],
        ) == reassembled(seq![FrameView::Data { payload: a + b, fin: true }]),
{
    let two = seq![FrameView::Data { payload: a, fin: false }, FrameView::Data { payload: b, fin: true }];
    let last = seq![FrameView::Data { payload: b, fin: true }];
    assert(two.drop_first() =~= last);
    assert(reassembled(last) == Some(b));
    assert(reassembled(two) == Some(a + b));
}

fn append_bytes(buf: &mut Vec<u8>, b: &[u8])
    ensures
        final(buf)@ == old(buf)@ + b@,
{
    let ghost start = buf@;
    let mut i: usize = 0;
    while i < b.len()
        invariant
            i <= b@.len(),
            buf@ == start + b@.subrange(0, i as int),
        decreases b@.len() - i,
    {
        buf.push(b[i]);
        i = i + 1;
        assert(buf@ =~= start + b@.subrange(0, i as int));
    }
    assert(b@.subrange(0, i as int) =~= b@);
}

/// The bytes gathered so far followed by what the rest reassembles into.
pub open spec fn then_bytes(done: Seq<u8>, rest: Option<Seq<u8>>) -> Option<Seq<u8>> {
    match rest {
        None => None,
        Some(r) => Some(done + r),
    }
}

pub open spec fn frames_view(frames: Seq<IncomingFrame>) -> Seq<FrameView> {
    frames.map_values(|f: IncomingFrame| f@)
}

/// Reassembles the payload of one message from the frames read in turn.
pub fn reassemble(frames: &Vec<IncomingFrame>) -> (r: Option<Vec<u8>>)
    ensures
        r is Some <==> reassembled(frames_view(frames@)) is Some,
        r matches Some(p) ==> reassembled(frames_view(frames@)) == Some(p@),
{
    let ghost all = frames_view(frames@);
    let mut st = StreamState::new();
    let mut i: usize = 0;
    assert(all.subrange(0, all.len() as int) =~= all);
    assert(st.buf@ + Seq::<u8>::empty() =~= st.buf@);
    while i < frames.len()
        invariant
            i <= frames@.len(),
            all == frames_view(frames@),
            reassembled(all) == then_bytes(st.buf@, reassembled(all.subrange(i as int, all.len() as int))),
        decreases frames@.len() - i,
    {
        let ghost rest = all.subrange(i as int, all.len() as int);
        assert(rest[0] == frames@[i as int]@);
        assert(rest.drop_first() =~= all.subrange(i + 1, all.len() as int));
        let ghost before = st.buf@;
        let step = st.on_frame(&frames[i]);
        i = i + 1;
        match step {
            ReadStep::Complete(p) => {
                return Some(p);
            },
            ReadStep::Closed => {
                assert(reassembled(rest) is None);
                return None;
            },
            ReadStep::Continue => {
                proof {
                    let r = reassembled(all.subrange(i as int, all.len() as int));
                    if r is Some {
                        match rest[0] {
                            FrameView::Data { payload, fin } => {
                                assert(before + (payload + r.unwrap()) =~= (before + payload) + r.unwrap());
                            },
                            _ => {},
                        }
                    }
                }
            },
        }
    }
    assert(all.subrange(i as int, all.len() as int) =~= Seq::<FrameView>::empty());
    None
}

/// Reads one message from the frames read in turn: their reassembled
/// payload decoded by the schema, or nothing when either step fails.
pub fn read_message(schema: &Schema, frames: &Vec<IncomingFrame>) -> (r: Option<Message>)
    ensures
        r is Some <==> (reassembled(frames_view(frames@)) matches Some(p)
            && decode_message_spec(schema.kinds(), p) is Some),
        r matches Some(m) ==> (reassembled(frames_view(frames@)) matches Some(p)
            && decode_message_spec(schema.kinds(), p) == Some((m.opcode, m.values()))),
{
    match reassemble(frames) {
        None => None,
        Some(p) => match decode_message(schema, p.as_slice()) {
            Ok(m) => Some(m),
            Err(_) => None,
        },
    }
}

/// Whether shutdown stops reading after `drained` frames were read and the
/// latest read gave `latest` (`None` for a failed read).
pub fn drain_done(latest: Option<&IncomingFrame>, drained: usize) -> (r: bool)
    ensures
        r == (latest is None || (latest matches Some(f) && f@ is Close) || drained >= SHUTDOWN_DRAIN_LIMIT),
{
    match latest {
        None => true,
        Some(IncomingFrame::Close) => true,
        Some(_) => drained >= SHUTDOWN_DRAIN_LIMIT,
    }
}

impl StreamState {
    pub fn new() -> (r: StreamState)
        ensures
            r.buf@.len() == 0,
            !r.closed,
    {
        StreamState { buf: Vec::new(), closed: false }
    }

    /// Starts a shutdown: returns whether a close must be sent and the peer
    /// drained, which is only when the stream was still open.
    pub fn begin_shutdown(&mut self) -> (r: bool)
        ensures
            (final(self).closed, r) == shutdown_step(old(self).closed),
            final(self).buf@ == old(self).buf@,
    {
        if self.closed {
            false
        } else {
            self.closed = true;
            true
        }
    }

    /// Takes in one frame: pings and pongs are dropped, a close marks the
    /// stream closed, asks for a close in reply and ends the read, data is
    /// appended, and a final data frame completes the payload.
    pub fn on_frame(&mut self, f: &IncomingFrame) -> (r: ReadStep)
        ensures
            match f@ {
                FrameView::Data { payload, fin } => {
                    &&& final(self).closed == old(self).closed
                    &&& if fin {
                        &&& r matches ReadStep::Complete(v) && v@ == old(self).buf@ + payload
                        &&& final(self).buf@.len() == 0
                    } else {
                        &&& r is Continue
                        &&& final(self).buf@ == old(self).buf@ + payload
                    }
                },
                FrameView::Close => {
                    &&& r is Closed
                    &&& final(self).closed
                    &&& final(self).buf@ == old(self).buf@
                },
                _ => {
                    &&& r is Continue
                    &&& final(self).closed == old(self).closed
                    &&& final(self).buf@ == old(self).buf@
                },
            },
    {
        match f {
            IncomingFrame::Ping => ReadStep::Continue,
            IncomingFrame::Pong => ReadStep::Continue,
            IncomingFrame::Close => {
                self.closed = true;
                ReadStep::Closed
            },
            IncomingFrame::Data { payload, fin } => {
                append_bytes(&mut self.buf, payload.as_slice());
                if *fin {
                    let mut done: Vec<u8> = Vec::new();
                    std::mem::swap(&mut done, &mut self.buf);
                    ReadStep::Complete(done)
                } else {
                    ReadStep::Continue
                }
            },
        }
    }
}

} // verus!
