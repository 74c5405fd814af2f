//! The streaming response format, and the decisions of the loop that writes it.
//!
//! Each frame is a 4-byte little-endian header, whose top bit marks the final
//! frame and whose other 31 bits give the payload's length, followed by the
//! payload.
use vstd::prelude::*;
use crate::request::Status;

verus! {

/// The header bit that marks the final frame.
pub const FINAL_FLAG: u32 = 0x8000_0000;

/// A payload must be shorter than this to fit the 31-bit length field.
pub const PAYLOAD_LIMIT: usize = 0x8000_0000;

/// The header's value as an integer.
pub open spec fn header_value(len: nat, done: bool) -> nat {
    if done { len + 0x8000_0000 } else { len }
}

/// The four bytes of `v`, least significant first.
pub open spec fn le_bytes(v: nat) -> Seq<u8> {
    seq![
        (v % 256) as u8,
        ((v / 256) % 256) as u8,
        ((v / 65536) % 256) as u8,
        ((v / 16777216) % 256) as u8,
    ]
}

/// One frame on the wire.
pub open spec fn frame_bytes(payload: Seq<u8>, done: bool) -> Seq<u8> {
    le_bytes(header_value(payload.len(), done)) + payload
}

/// The header of a frame whose payload is `len` bytes long.
pub fn frame_header(len: usize, done: bool) -> (r: [u8; 4])
    requires
        len < PAYLOAD_LIMIT,
    ensures
        r@ == le_bytes(header_value(len as nat, done)),
{
    let v: u32 = if done { len as u32 + FINAL_FLAG } else { len as u32 };
    let r = [
        (v % 256) as u8,
        ((v / 256) % 256) as u8,
        ((v / 65536) % 256) as u8,
        ((v / 16777216) % 256) as u8,
    ];
    assert(r@ =~= le_bytes(header_value(len as nat, done)));
    r
}

/// A frame: its header, then its payload.
pub fn encode_frame(payload: &[u8], done: bool) -> (r: Vec<u8>)
    requires
        payload@.len() < PAYLOAD_LIMIT,
    ensures
        r@ == frame_bytes(payload@, done),
{
    let h = frame_header(payload.len(), done);
    let mut out: Vec<u8> = Vec::new();
    out.push(h[0]);
    out.push(h[1]);
    out.push(h[2]);
    out.push(h[3]);
    let mut i: usize = 0;
    while i < payload.len()
        invariant
            i <= payload@.len(),
            out@ == h@ + payload@.subrange(0, i as int),
        decreases payload@.len() - i,
    {
        out.push(payload[i]);
        proof {
            assert(payload@.subrange(0, i + 1) =~= payload@.subrange(0, i as int).push(payload@[i as int]));
        }
        i = i + 1;
    }
    assert(payload@.subrange(0, payload@.len() as int) =~= payload@);
    assert(out@ =~= h@ + payload@);
    out
}

/// What one poll of a streaming call reported to the transport.
#[derive(Clone, Copy, Debug, PartialEq, Eq, Structural)]
pub enum StreamPoll {
    /// Not ready yet; the transport waits to be woken.
    Pending,
    /// The call failed: nothing is sent for this attempt.
    Failed,
    /// A chunk is in the buffer; `true` when it is the last one.
    Ready(bool),
}

/// What the transport does after a poll.
#[derive(Debug)]
pub enum StreamAction {
    /// Wait and poll again.
    Wait,
    /// An empty, non-final chunk: send nothing and poll again.
    Skip,
    /// Send this non-final frame and poll again.
    Send(Vec<u8>),
    /// Send this final frame and end the stream.
    Finish(Vec<u8>),
    /// The chunk is too long for a frame: reset the stream with an internal
    /// error and end it.
    Reset,
    /// End the loop without writing.
    Stop,
}

/// The decision for one poll, without the frame bytes that `Send` and
/// `Finish` carry.
pub enum StepKind {
    Wait,
    Skip,
    Send,
    Finish,
    Reset,
    Stop,
}

pub open spec fn step_kind(reset: bool, poll: StreamPoll, len: nat) -> StepKind {
    if reset {
        StepKind::Stop
    } else {
        match poll {
            StreamPoll::Pending => StepKind::Wait,
            StreamPoll::Failed => StepKind::Stop,
            StreamPoll::Ready(done) => if len >= 0x8000_0000 {
                StepKind::Reset
            } else if done {
                StepKind::Finish
            } else if len == 0 {
                StepKind::Skip
            } else {
                StepKind::Send
            },
        }
    }
}

/// Decides what the transport does after one poll of a streaming call. `reset`
/// is whether the peer reset the stream first; `chunk` is what the poll put in
/// the buffer.
pub fn stream_step(reset: bool, poll: StreamPoll, chunk: &[u8]) -> (r: StreamAction)
    ensures
        match step_kind(reset, poll, chunk@.len()) {
            StepKind::Wait => r is Wait,
            StepKind::Skip => r is Skip,
            StepKind::Send => r matches StreamAction::Send(f) && f@ == frame_bytes(chunk@, false),
            StepKind::Finish => r matches StreamAction::Finish(f) && f@ == frame_bytes(chunk@, true),
            StepKind::Reset => r is Reset,
            StepKind::Stop => r is Stop,
        },
{
    if reset {
        return StreamAction::Stop;
    }
    match poll {
        StreamPoll::Pending => StreamAction::Wait,
        StreamPoll::Failed => StreamAction::Stop,
        StreamPoll::Ready(done) => {
            if chunk.len() >= PAYLOAD_LIMIT {
                StreamAction::Reset
            } else if done {
                StreamAction::Finish(encode_frame(chunk, true))
            } else if chunk.len() == 0 {
                StreamAction::Skip
            } else {
                StreamAction::Send(encode_frame(chunk, false))
            }
        },
    }
}

/// The bytes that the transport writes for a run of ready chunks, each with
/// its final flag, in the order they were produced: empty non-final chunks
/// are skipped, and nothing is written after the final chunk.
pub open spec fn stream_body(chunks: Seq<(Seq<u8>, bool)>) -> Seq<u8>
    decreases chunks.len(),
{
    if chunks.len() == 0 {
        Seq::empty()
    } else {
        let (payload, done) = chunks[0];
        if done {
            frame_bytes(payload, true)
        } else if payload.len() == 0 {
            stream_body(chunks.drop_first())
        } else {
            frame_bytes(payload, false) + stream_body(chunks.drop_first())
        }
    }
}

/// The frames, as (payload, final flag), that the transport writes for a run
/// of ready chunks.
pub open spec fn stream_frames(chunks: Seq<(Seq<u8>, bool)>) -> Seq<(Seq<u8>, bool)>
    decreases chunks.len(),
{
    if chunks.len() == 0 {
        Seq::empty()
    } else {
        let (payload, done) = chunks[0];
        if done {
            seq![(payload, true)]
        } else if payload.len() == 0 {
            stream_frames(chunks.drop_first())
        } else {
            seq![(payload, false)] + stream_frames(chunks.drop_first())
        }
    }
}

/// A handler that yields `k` values, each encoding to at least one byte, and
/// then completes, gives exactly `k` non-final frames that carry the yielded
/// values in order, then one final frame with the returned value; whatever
/// would be polled after that writes nothing.
pub proof fn lemma_stream_termination(yields: Seq<Seq<u8>>, ret: Seq<u8>, after: Seq<(Seq<u8>, bool)>)
    requires
        forall|i: int| 0 <= i < yields.len() ==> #[trigger] yields[i].len() > 0,
    ensures
        ({
            let chunks = yields.map_values(|y: Seq<u8>| (y, false)).push((ret, true)) + after;
            let frames = stream_frames(chunks);
            &&& frames.len() == yields.len() + 1
            &&& forall|i: int| 0 <= i < yields.len() ==> #[trigger] frames[i] == (yields[i], false)
            &&& frames[yields.len() as int] == (ret, true)
        }),
    decreases yields.len(),
{
    let chunks = yields.map_values(|y: Seq<u8>| (y, false)).push((ret, true)) + after;
    if yields.len() == 0 {
        assert(chunks[0] == (ret, true));
    } else {
        let rest = yields.drop_first();
        lemma_stream_termination(rest, ret, after);
        let rest_chunks = rest.map_values(|y: Seq<u8>| (y, false)).push((ret, true)) + after;
        assert(chunks.drop_first() =~= rest_chunks);
        assert(chunks[0] == (yields[0], false));
        let frames = stream_frames(chunks);
        let rest_frames = stream_frames(rest_chunks);
        assert(frames =~= seq![(yields[0], false)] + rest_frames);
        assert forall|i: int| 0 <= i < yields.len() implies #[trigger] frames[i] == (yields[i], false) by {
            if i > 0 {
                assert(frames[i] == rest_frames[i - 1]);
                assert(rest[i - 1] == yields[i]);
            }
        }
    }
}

/// The stream's bytes are its frames, each written as header then payload.
pub proof fn lemma_stream_body_is_frames(chunks: Seq<(Seq<u8>, bool)>)
    ensures
        stream_body(chunks) == frames_concat(stream_frames(chunks)),
    decreases chunks.len(),
{
    if chunks.len() > 0 {
        lemma_stream_body_is_frames(chunks.drop_first());
        let (payload, done) = chunks[0];
        if done {
            let f = seq![(payload, true)];
            assert(f.drop_first() =~= Seq::<(Seq<u8>, bool)>::empty());
            assert(frames_concat(f.drop_first()) =~= Seq::<u8>::empty());
            assert(frames_concat(f) =~= frame_bytes(payload, true));
        } else if payload.len() > 0 {
            let rest = stream_frames(chunks.drop_first());
            let f = seq![(payload, false)] + rest;
            assert(f.drop_first() =~= rest);
        }
    }
}

/// Frames written one after another.
pub open spec fn frames_concat(frames: Seq<(Seq<u8>, bool)>) -> Seq<u8>
    decreases frames.len(),
{
    if frames.len() == 0 {
        Seq::empty()
    } else {
        frame_bytes(frames[0].0, frames[0].1) + frames_concat(frames.drop_first())
    }
}


pub open spec fn chunks_view(chunks: Seq<(Vec<u8>, bool)>) -> Seq<(Seq<u8>, bool)> {
    chunks.map_values(|c: (Vec<u8>, bool)| (c.0@, c.1))
}

/// Runs the writing loop over chunks that a call produced, in order, as if
/// each poll were ready and no reset came: the bytes of the response body.
pub fn write_stream(chunks: &Vec<(Vec<u8>, bool)>) -> (r: Vec<u8>)
    requires
        forall|i: int| 0 <= i < chunks@.len() ==> (#[trigger] chunks@[i]).0@.len() < PAYLOAD_LIMIT,
    ensures
        r@ == stream_body(chunks_view(chunks@)),
{
    let mut out: Vec<u8> = Vec::new();
    let mut i: usize = 0;
    proof {
        assert(chunks_view(chunks@).subrange(0, chunks@.len() as int) =~= chunks_view(chunks@));
        assert(out@ + stream_body(chunks_view(chunks@)) =~= stream_body(chunks_view(chunks@)));
    }
    while i < chunks.len()
        invariant
            i <= chunks@.len(),
            forall|j: int| 0 <= j < chunks@.len() ==> (#[trigger] chunks@[j]).0@.len() < PAYLOAD_LIMIT,
            out@ + stream_body(chunks_view(chunks@).subrange(i as int, chunks@.len() as int))
                == stream_body(chunks_view(chunks@)),
        decreases chunks@.len() - i,
    {
        let ghost rest = chunks_view(chunks@).subrange(i as int, chunks@.len() as int);
        proof {
            assert(rest[0] == (chunks@[i as int].0@, chunks@[i as int].1));
            assert(rest.drop_first() =~= chunks_view(chunks@).subrange(i + 1, chunks@.len() as int));
        }
        let chunk = &chunks[i];
        match stream_step(false, StreamPoll::Ready(chunk.1), chunk.0.as_slice()) {
            StreamAction::Send(mut frame) => {
                proof { assert(out@ + frame@ + stream_body(rest.drop_first()) =~= out@ + stream_body(rest)); }
                out.append(&mut frame);
            },
            StreamAction::Finish(mut frame) => {
                out.append(&mut frame);
                assert(out@ =~= stream_body(chunks_view(chunks@)));
                return out;
            },
            _ => {},
        }
        i = i + 1;
    }
    proof {
        assert(chunks_view(chunks@).subrange(i as int, chunks@.len() as int) =~= Seq::<(Seq<u8>, bool)>::empty());
        assert(out@ =~= out@ + Seq::<u8>::empty());
    }
    out
}


/// A final chunk first, such as an error returned before anything is yielded,
/// is the whole stream: one frame with the final flag, and nothing after it.
pub proof fn lemma_final_first(payload: Seq<u8>, rest: Seq<(Seq<u8>, bool)>)
    ensures
        stream_frames(seq![(payload, true)] + rest) == seq![(payload, true)],
        stream_body(seq![(payload, true)] + rest) == frame_bytes(payload, true),
{
    assert((seq![(payload, true)] + rest)[0] == (payload, true));
}


/// What one poll of a unary call reported to the transport.
#[derive(Clone, Copy, Debug, PartialEq, Eq, Structural)]
pub enum UnaryPoll {
    /// Not ready yet.
    Pending,
    /// The call failed, for instance on arguments that did not decode.
    Failed,
    /// The result is encoded in the buffer.
    Ready,
}

/// What the transport does after a poll of a unary call.
#[derive(Debug)]
pub enum UnaryAction {
    /// Wait and poll again.
    Wait,
    /// The peer reset the stream: write nothing.
    Abandon,
    /// Send this status, then the body if there is one; without a body the
    /// stream ends with the headers.
    Respond { status: Status, body: Option<Vec<u8>> },
}

/// Decides what the transport does after one poll of a unary call. `reset` is
/// whether the peer reset the stream first; `buf` is what the call wrote.
pub fn unary_step(reset: bool, poll: UnaryPoll, buf: &[u8]) -> (r: UnaryAction)
    ensures
        reset ==> r is Abandon,
        !reset && poll is Pending ==> r is Wait,
        !reset && poll is Failed ==> r is Respond && r->status == Status::NotAcceptable && r->body is None,
        !reset && poll is Ready ==> r is Respond && r->status == Status::Success
            && (buf@.len() == 0 ==> r->body is None)
            && (buf@.len() > 0 ==> r->body is Some && r->body->Some_0@ == buf@),
{
    if reset {
        return UnaryAction::Abandon;
    }
    match poll {
        UnaryPoll::Pending => UnaryAction::Wait,
        UnaryPoll::Failed => UnaryAction::Respond { status: Status::NotAcceptable, body: None },
        UnaryPoll::Ready => {
            if buf.len() == 0 {
                UnaryAction::Respond { status: Status::Success, body: None }
            } else {
                let mut body: Vec<u8> = Vec::new();
                let mut i: usize = 0;
                while i < buf.len()
                    invariant
                        i <= buf@.len(),
                        body@ == buf@.subrange(0, i as int),
                    decreases buf@.len() - i,
                {
                    body.push(buf[i]);
                    proof {
                        assert(buf@.subrange(0, i + 1) =~= buf@.subrange(0, i as int).push(buf@[i as int]));
                    }
                    i = i + 1;
                }
                assert(buf@.subrange(0, buf@.len() as int) =~= buf@);
                UnaryAction::Respond { status: Status::Success, body: Some(body) }
            }
        },
    }
}

} // verus!
