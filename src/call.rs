//! The life of one call: `Init`, where nothing has run, `Running`, where the
//! handler's computation is polled, and `Done`, after which any poll is refused.
use vstd::prelude::*;

verus! {

/// How a call produces its output.
#[derive(Clone, Copy, Debug, PartialEq, Eq, Structural)]
pub enum OutputKind {
    /// A synchronous handler: decode, call and encode in one step.
    UnarySync,
    /// An asynchronous handler with one result.
    Unary,
    /// A generator that yields values, then returns one.
    ServerStream,
}

/// Where a call stands.
#[derive(Clone, Copy, Debug, PartialEq, Eq, Structural)]
pub enum Phase {
    Init,
    Running,
    Done,
}

/// What the driver observed since the last poll.
#[derive(Clone, Copy, Debug, PartialEq, Eq, Structural)]
pub enum Event {
    /// In `Init`: whether the arguments decoded.
    Decoded(bool),
    /// In `Running`: the computation is not ready yet.
    Pending,
    /// In `Running`: the generator yielded a value, which is not the last.
    Yielded,
    /// In `Running`: the computation finished with its final value.
    Complete,
}

/// What the driver is to do.
#[derive(Clone, Copy, Debug, PartialEq, Eq, Structural)]
pub enum Outcome {
    /// The arguments decoded: call the handler now, then poll what it returned.
    Invoke,
    /// The arguments did not decode: answer "invalid input"; the handler is
    /// never called.
    InvalidInput,
    /// Nothing to write yet.
    Pending,
    /// Encode the yielded value as a non-final chunk.
    Chunk,
    /// Encode the final value as the last chunk (or the whole body).
    Last,
    /// The event does not fit the phase, or the call is over: refused.
    Rejected,
}

pub open spec fn next(kind: OutputKind, phase: Phase, event: Event) -> (Phase, Outcome) {
    match (phase, event) {
        (Phase::Init, Event::Decoded(true)) => (Phase::Running, Outcome::Invoke),
        (Phase::Init, Event::Decoded(false)) => (Phase::Done, Outcome::InvalidInput),
        (Phase::Running, Event::Pending) => (Phase::Running, Outcome::Pending),
        (Phase::Running, Event::Yielded) => if kind == OutputKind::ServerStream {
            (Phase::Running, Outcome::Chunk)
        } else {
            (Phase::Running, Outcome::Rejected)
        },
        (Phase::Running, Event::Complete) => (Phase::Done, Outcome::Last),
        _ => (phase, Outcome::Rejected),
    }
}

/// One call's state machine.
#[derive(Debug)]
pub struct Call {
    kind: OutputKind,
    phase: Phase,
}

impl Call {
    pub closed spec fn kind(&self) -> OutputKind {
        self.kind
    }

    pub closed spec fn phase(&self) -> Phase {
        self.phase
    }

    /// A call that has not started: no argument decoded, no handler called.
    pub fn new(kind: OutputKind) -> (r: Self)
        ensures
            r.kind() == kind,
            r.phase() == Phase::Init,
    {
        Call { kind, phase: Phase::Init }
    }

    pub fn current_phase(&self) -> (r: Phase)
        ensures
            r == self.phase(),
    {
        self.phase
    }

    /// Advances the call by one observed event.
    pub fn poll(&mut self, event: Event) -> (r: Outcome)
        ensures
            final(self).kind() == old(self).kind(),
            (final(self).phase(), r) == next(old(self).kind(), old(self).phase(), event),
            old(self).phase() == Phase::Done ==> r == Outcome::Rejected && final(self).phase() == Phase::Done,
    {
        let (phase, outcome) = match (self.phase, event) {
            (Phase::Init, Event::Decoded(true)) => (Phase::Running, Outcome::Invoke),
            (Phase::Init, Event::Decoded(false)) => (Phase::Done, Outcome::InvalidInput),
            (Phase::Running, Event::Pending) => (Phase::Running, Outcome::Pending),
            (Phase::Running, Event::Yielded) => {
                if self.kind == OutputKind::ServerStream {
                    (Phase::Running, Outcome::Chunk)
                } else {
                    (Phase::Running, Outcome::Rejected)
                }
            },
            (Phase::Running, Event::Complete) => (Phase::Done, Outcome::Last),
            (p, _) => (p, Outcome::Rejected),
        };
        self.phase = phase;
        outcome
    }
}

/// The whole of a synchronous call: the handler runs only when the arguments
/// decoded, and its result is the body.
pub fn unary_sync_outcome(decoded: bool) -> (r: Outcome)
    ensures
        decoded ==> r == Outcome::Last,
        !decoded ==> r == Outcome::InvalidInput,
{
    if decoded { Outcome::Last } else { Outcome::InvalidInput }
}

/// Once a call has given its final value or refused its input, no event gets
/// a second result out of it: every later poll is refused and the call stays
/// done.
pub proof fn lemma_no_result_after_done(kind: OutputKind, phase: Phase, first: Event, later: Seq<Event>)
    requires
        next(kind, phase, first).1 == Outcome::Last || next(kind, phase, first).1 == Outcome::InvalidInput,
    ensures
        next(kind, phase, first).0 == Phase::Done,
        forall|i: int| 0 <= i < later.len() ==> #[trigger] run(kind, Phase::Done, later.subrange(0, i)).0 == Phase::Done
            && next(kind, run(kind, Phase::Done, later.subrange(0, i)).0, later[i]).1 == Outcome::Rejected,
{
    assert forall|i: int| 0 <= i < later.len() implies #[trigger] run(kind, Phase::Done, later.subrange(0, i)).0 == Phase::Done
        && next(kind, run(kind, Phase::Done, later.subrange(0, i)).0, later[i]).1 == Outcome::Rejected by {
        lemma_done_stays(kind, later.subrange(0, i));
    }
}

/// The phase after a run of events, and the outcome of the last one.
pub open spec fn run(kind: OutputKind, phase: Phase, events: Seq<Event>) -> (Phase, Outcome)
    decreases events.len(),
{
    if events.len() == 0 {
        (phase, Outcome::Pending)
    } else {
        let (p, _) = run(kind, phase, events.drop_last());
        next(kind, p, events.last())
    }
}

proof fn lemma_done_stays(kind: OutputKind, events: Seq<Event>)
    ensures
        run(kind, Phase::Done, events).0 == Phase::Done,
    decreases events.len(),
{
    if events.len() > 0 {
        lemma_done_stays(kind, events.drop_last());
    }
}


/// A streaming call whose arguments decode, whose generator yields `k`
/// values and then completes.
pub open spec fn stream_events(k: nat) -> Seq<Event> {
    seq![Event::Decoded(true)] + Seq::new(k, |i: int| Event::Yielded) + seq![Event::Complete]
}

proof fn lemma_stream_prefix(k: nat, i: int)
    requires
        1 <= i <= k + 1,
    ensures
        run(OutputKind::ServerStream, Phase::Init, stream_events(k).subrange(0, i)).0 == Phase::Running,
        i == 1 ==> run(OutputKind::ServerStream, Phase::Init, stream_events(k).subrange(0, i)).1 == Outcome::Invoke,
        i > 1 ==> run(OutputKind::ServerStream, Phase::Init, stream_events(k).subrange(0, i)).1 == Outcome::Chunk,
    decreases i,
{
    let e = stream_events(k);
    let pre = e.subrange(0, i);
    assert(pre.drop_last() =~= e.subrange(0, i - 1));
    if i == 1 {
        assert(e.subrange(0, 0) =~= Seq::<Event>::empty());
        assert(pre.last() == Event::Decoded(true));
    } else {
        lemma_stream_prefix(k, i - 1);
        assert(pre.last() == e[i - 1]);
        assert(e[i - 1] == Event::Yielded);
    }
}

/// A streaming call whose generator yields `k` values and then completes
/// gives, poll by poll: the call of the handler, `k` non-final chunks, then
/// the last chunk, after which the call is done.
pub proof fn lemma_stream_outcomes(k: nat)
    ensures
        run(OutputKind::ServerStream, Phase::Init, stream_events(k).subrange(0, 1)).1 == Outcome::Invoke,
        forall|i: int| 2 <= i <= k + 1 ==>
            #[trigger] run(OutputKind::ServerStream, Phase::Init, stream_events(k).subrange(0, i)).1 == Outcome::Chunk,
        run(OutputKind::ServerStream, Phase::Init, stream_events(k)) == (Phase::Done, Outcome::Last),
{
    lemma_stream_prefix(k, 1);
    assert forall|i: int| 2 <= i <= k + 1 implies
        #[trigger] run(OutputKind::ServerStream, Phase::Init, stream_events(k).subrange(0, i)).1 == Outcome::Chunk by {
        lemma_stream_prefix(k, i);
    }
    let e = stream_events(k);
    lemma_stream_prefix(k, (k + 1) as int);
    assert(e.drop_last() =~= e.subrange(0, (k + 1) as int));
    assert(e.last() == Event::Complete);
}

} // verus!
