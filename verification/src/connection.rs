use vstd::prelude::*;

use crate::frame::{Frame, Opcode};

verus! {

/// The life-cycle stage of a connection.  `Closed` is terminal and is
/// reached on any unrecoverable transport or protocol error.
#[derive(Clone, Copy, Debug, PartialEq, Eq, Structural)]
pub enum Stage {
    Fresh,
    Started,
    Authenticating,
    Ready,
    Closed,
}

/// The stage after the STARTUP request is written: only a fresh connection
/// may start; starting anything else is an error that closes it.
pub open spec fn spec_send_startup(s: Stage) -> Stage {
    match s {
        Stage::Fresh => Stage::Started,
        _ => Stage::Closed,
    }
}

/// The stage after a handshake response arrives.  From `Started`, READY
/// completes the handshake and AUTHENTICATE opens the challenge loop; from
/// `Authenticating`, AUTH_CHALLENGE stays in the loop and AUTH_SUCCESS
/// completes it.  Any other opcode in these stages closes the connection.
pub open spec fn spec_handshake_step(s: Stage, op: Opcode) -> Stage {
    match s {
        Stage::Started => match op {
            Opcode::Ready => Stage::Ready,
            Opcode::Authenticate => Stage::Authenticating,
            _ => Stage::Closed,
        },
        Stage::Authenticating => match op {
            Opcode::AuthChallenge => Stage::Authenticating,
            Opcode::AuthSuccess => Stage::Ready,
            _ => Stage::Closed,
        },
        _ => Stage::Closed,
    }
}

/// Advances the stage over the written STARTUP request.
pub fn send_startup(s: Stage) -> (r: Stage)
    ensures
        r == spec_send_startup(s),
{
    match s {
        Stage::Fresh => Stage::Started,
        _ => Stage::Closed,
    }
}

/// Advances the stage over a handshake response opcode.
pub fn handshake_step(s: Stage, op: Opcode) -> (r: Stage)
    ensures
        r == spec_handshake_step(s, op),
{
    match s {
        Stage::Started => match op {
            Opcode::Ready => Stage::Ready,
            Opcode::Authenticate => Stage::Authenticating,
            _ => Stage::Closed,
        },
        Stage::Authenticating => match op {
            Opcode::AuthChallenge => Stage::Authenticating,
            Opcode::AuthSuccess => Stage::Ready,
            _ => Stage::Closed,
        },
        _ => Stage::Closed,
    }
}

/// From `Fresh`, sending STARTUP and receiving READY reaches `Ready` in
/// exactly one round trip.
pub proof fn lemma_handshake_ready()
    ensures
        spec_handshake_step(spec_send_startup(Stage::Fresh), Opcode::Ready) == Stage::Ready,
{
}

/// From `Fresh`, sending STARTUP and receiving AUTHENTICATE enters
/// `Authenticating`; AUTH_SUCCESS then reaches `Ready`, while each
/// AUTH_CHALLENGE keeps the stage and consumes another round trip.
pub proof fn lemma_handshake_authenticate()
    ensures
        spec_handshake_step(spec_send_startup(Stage::Fresh), Opcode::Authenticate)
            == Stage::Authenticating,
        spec_handshake_step(Stage::Authenticating, Opcode::AuthSuccess) == Stage::Ready,
        spec_handshake_step(Stage::Authenticating, Opcode::AuthChallenge) == Stage::Authenticating,
{
}

/// Where a received frame is delivered: to the registered event listener,
/// or to the caller awaiting the reply.
#[derive(Clone, Copy, Debug, PartialEq, Eq, Structural)]
pub enum Routed {
    AsEvent,
    AsReply,
}

/// A frame is delivered to the event listener exactly when it is an EVENT
/// frame on the reserved stream id −1.
pub open spec fn spec_route(stream: int, op: Opcode) -> Routed {
    if op is Event && stream == -1 {
        Routed::AsEvent
    } else {
        Routed::AsReply
    }
}

/// Routes a received frame.
pub fn route(frame: &Frame) -> (r: Routed)
    ensures
        r == spec_route(frame.stream as int, frame.opcode),
{
    if frame.stream == -1 && matches!(frame.opcode, Opcode::Event) {
        Routed::AsEvent
    } else {
        Routed::AsReply
    }
}

/// An EVENT frame on stream −1 is never handed to the caller awaiting a
/// reply, and a frame of any other opcode is never handed to the listener.
pub proof fn lemma_event_not_misrouted(stream: int, op: Opcode)
    ensures
        op is Event && stream == -1 ==> spec_route(stream, op) == Routed::AsEvent,
        !(op is Event) ==> spec_route(stream, op) == Routed::AsReply,
{
}

/// The per-connection stream-id allocator: ids are issued monotonically
/// from the non-negative range 0..32767.
pub struct StreamIdAllocator {
    next: u16,
}

impl StreamIdAllocator {
    /// The next id to be issued.
    pub closed spec fn spec_next(&self) -> nat {
        self.next as nat
    }

    pub fn new() -> (r: StreamIdAllocator)
        ensures
            r.spec_next() == 0,
    {
        StreamIdAllocator { next: 0 }
    }

    /// Issues the next stream id, or `None` when the range is exhausted.
    pub fn allocate(&mut self) -> (r: Option<i16>)
        ensures
            old(self).spec_next() < 0x8000 ==> {
                &&& r == Some(old(self).spec_next() as i16)
                &&& final(self).spec_next() == old(self).spec_next() + 1
                &&& r->Some_0 >= 0
            },
            old(self).spec_next() >= 0x8000 ==> r is None && final(self).spec_next() == old(
                self,
            ).spec_next(),
    {
        if self.next < 0x8000 {
            let id = self.next as i16;
            self.next = self.next + 1;
            Some(id)
        } else {
            None
        }
    }
}

} // verus!
