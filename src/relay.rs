//! The decisions of the duplex relay between a client's standard streams and
//! a backend connection. Two loops read in chunks of at most [`CHUNK_SIZE`]
//! bytes, one from the client and one from the backend, and ask a shared
//! [`Relay`] what to do with each chunk: forward exactly those bytes to the
//! other end, or stop. A zero-length read on either side is a close; it
//! terminates the relay in both directions.

use crate::frame::copy_range;
use vstd::prelude::*;

verus! {

/// Largest chunk read in one step.
pub const CHUNK_SIZE: usize = 128;

/// The end that a chunk was read from.
#[derive(Debug, Clone, Copy, PartialEq, Eq, Structural)]
pub enum Side {
    /// The client's standard input; its bytes go to the backend.
    Client,
    /// The backend's read half; its bytes go to the client's output.
    Backend,
}

/// What to do with a chunk that was read.
#[derive(Debug)]
pub enum Verdict {
    /// Write exactly these bytes to the other end.
    Forward(Vec<u8>),
    /// The relay has terminated: write nothing and leave the loop.
    Stop,
}

/// The relay's state: whether it has terminated, the bytes forwarded to the
/// backend so far, and the bytes forwarded to the client so far.
pub type RelayState = (bool, Seq<u8>, Seq<u8>);

/// A relay that has not forwarded anything yet.
pub open spec fn fresh() -> RelayState {
    (false, Seq::empty(), Seq::empty())
}

/// A chunk is forwarded when the relay is still running and the chunk is
/// not a close.
pub open spec fn forwards(s: RelayState, chunk: Seq<u8>) -> bool {
    !s.0 && chunk.len() > 0
}

/// The state after a chunk is read from `side`.
pub open spec fn relay_step(s: RelayState, side: Side, chunk: Seq<u8>) -> RelayState {
    if s.0 {
        s
    } else if chunk.len() == 0 {
        (true, s.1, s.2)
    } else if side == Side::Client {
        (false, s.1 + chunk, s.2)
    } else {
        (false, s.1, s.2 + chunk)
    }
}

/// The state after the reads `events`, in order, starting from `s`.
pub open spec fn run(s: RelayState, events: Seq<(Side, Seq<u8>)>) -> RelayState
    decreases events.len(),
{
    if events.len() == 0 {
        s
    } else {
        relay_step(run(s, events.drop_last()), events.last().0, events.last().1)
    }
}

/// All the bytes read from `side` in `events`, in order.
pub open spec fn read_from(side: Side, events: Seq<(Side, Seq<u8>)>) -> Seq<u8>
    decreases events.len(),
{
    if events.len() == 0 {
        Seq::empty()
    } else if events.last().0 == side {
        read_from(side, events.drop_last()) + events.last().1
    } else {
        read_from(side, events.drop_last())
    }
}

/// No read in `events` is a close.
pub open spec fn no_close(events: Seq<(Side, Seq<u8>)>) -> bool {
    forall|i: int| 0 <= i < events.len() ==> (#[trigger] events[i]).1.len() > 0
}

/// The shared state of one relay session.
pub struct Relay {
    terminated: bool,
    to_backend: Ghost<Seq<u8>>,
    to_client: Ghost<Seq<u8>>,
}

impl View for Relay {
    type V = RelayState;

    closed spec fn view(&self) -> RelayState {
        (self.terminated, self.to_backend@, self.to_client@)
    }
}

impl Relay {
    /// A relay that has forwarded nothing.
    pub fn new() -> (r: Relay)
        ensures
            r@ == fresh(),
    {
        Relay { terminated: false, to_backend: Ghost(Seq::empty()), to_client: Ghost(Seq::empty()) }
    }

    /// Whether either side has closed; both loops check it before each read.
    pub fn is_terminated(&self) -> (r: bool)
        ensures
            r == self@.0,
    {
        self.terminated
    }

    /// Decides on a chunk read from `side`: an empty chunk terminates the
    /// relay; once it has terminated every chunk is dropped; else the chunk
    /// is forwarded, whole and unchanged.
    pub fn on_read(&mut self, side: Side, chunk: &[u8]) -> (r: Verdict)
        ensures
            final(self)@ == relay_step(old(self)@, side, chunk@),
            r is Forward <==> forwards(old(self)@, chunk@),
            r matches Verdict::Forward(bytes) ==> bytes@ == chunk@,
    {
        if self.terminated {
            return Verdict::Stop;
        }
        if chunk.len() == 0 {
            self.terminated = true;
            return Verdict::Stop;
        }
        match side {
            Side::Client => {
                self.to_backend = Ghost(self.to_backend@ + chunk@);
            },
            Side::Backend => {
                self.to_client = Ghost(self.to_client@ + chunk@);
            },
        }
        let bytes = copy_range(chunk, 0, chunk.len());
        assert(chunk@.subrange(0, chunk@.len() as int) =~= chunk@);
        Verdict::Forward(bytes)
    }
}

/// Exactly-once, ordered delivery: while nothing closes, each direction has
/// forwarded exactly the bytes read from its source, in order, however they
/// were split into chunks and interleaved.
pub proof fn lemma_relay_carries_everything(events: Seq<(Side, Seq<u8>)>)
    requires
        no_close(events),
    ensures
        run(fresh(), events) == (false, read_from(Side::Client, events), read_from(Side::Backend, events)),
    decreases events.len(),
{
    if events.len() > 0 {
        let prefix = events.drop_last();
        assert forall|i: int| 0 <= i < prefix.len() implies (#[trigger] prefix[i]).1.len() > 0 by {
            assert(prefix[i] == events[i]);
        }
        lemma_relay_carries_everything(prefix);
        assert(events.last().1.len() > 0);
    }
}

/// Echo: when the backend sends back every byte written to it, in chunks of
/// any size, the client's output receives exactly the client's input, in
/// order.
pub proof fn lemma_echo_reproduces_input(events: Seq<(Side, Seq<u8>)>)
    requires
        no_close(events),
        read_from(Side::Backend, events) == read_from(Side::Client, events),
    ensures
        run(fresh(), events).2 == read_from(Side::Client, events),
        run(fresh(), events).1 == read_from(Side::Client, events),
{
    lemma_relay_carries_everything(events);
}

/// A close on either side terminates the relay: it forwards nothing more in
/// either direction, whatever is read afterwards and from whichever side.
pub proof fn lemma_close_ends_relay(s: RelayState, side: Side, later: Seq<(Side, Seq<u8>)>)
    ensures
        run(relay_step(s, side, Seq::empty()), later) == (true, s.1, s.2),
    decreases later.len(),
{
    if later.len() > 0 {
        lemma_close_ends_relay(s, side, later.drop_last());
    }
}

} // verus!
