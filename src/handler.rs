//! The decisions of one connection: inbound bytes become framed payloads for
//! the distributor, outbound messages become frames for the transport, and
//! the first end or failure closes the connection for good.

use crate::distributor::{record_of, EventRecord, Peer, ServerEvent};
use futures::channel::mpsc::UnboundedSender;
use crate::frame::{frame_of, parse_frames, FrameCodec, FrameError};
use vstd::prelude::*;

verus! {

/// Why a connection closed.
#[derive(Debug, Clone, Copy, PartialEq, Eq, Structural)]
pub enum CloseReason {
    /// The peer closed its side of the transport.
    InputEnded,
    /// The private outbound channel has no sender left.
    OutboundEnded,
    /// The inbound stream broke the framing, or an outbound message was too long.
    Framing(FrameError),
    /// The transport failed.
    Io,
}

/// What a connection's loop observed.
pub enum HandlerInput {
    /// Bytes read from the transport.
    Bytes(Vec<u8>),
    /// The transport will yield no more bytes.
    InputEnded,
    /// A message from the private outbound channel.
    Outbound(Vec<u8>),
    /// The private outbound channel is closed.
    OutboundEnded,
    /// A read or write on the transport failed.
    IoFailed,
}

/// What the loop is to do after one input.
pub struct HandlerStep {
    /// Events for the distributor, in order.
    pub forward: Vec<ServerEvent>,
    /// Bytes to write to the transport.
    pub write: Vec<u8>,
    /// Set when this input closed the connection.
    pub closed: Option<CloseReason>,
}

/// The distributor records of payloads `fs` sent by peer `id`.
pub open spec fn received_all(id: u32, fs: Seq<Seq<u8>>) -> Seq<EventRecord> {
    fs.map_values(|f: Seq<u8>| EventRecord::Received(id, f))
}

pub open spec fn records(evs: Seq<ServerEvent>) -> Seq<EventRecord> {
    evs.map_values(|e: ServerEvent| record_of(e))
}

/// The step that does nothing.
pub open spec fn is_idle(r: HandlerStep) -> bool {
    r.forward@.len() == 0 && r.write@.len() == 0 && r.closed is None
}

fn copy_bytes(v: &Vec<u8>) -> (r: Vec<u8>)
    ensures
        r@ == v@,
{
    let r = v.clone();
    assert(r@ =~= v@);
    r
}

/// The state of one connection.
pub struct ConnectionHandler {
    id: u32,
    codec: FrameCodec,
    pending: Vec<u8>,
    open: bool,
}

impl ConnectionHandler {
    pub closed spec fn peer_id(&self) -> u32 {
        self.id
    }

    pub closed spec fn codec(&self) -> FrameCodec {
        self.codec
    }

    /// Inbound bytes that do not yet form a whole frame.
    pub closed spec fn pending(&self) -> Seq<u8> {
        self.pending@
    }

    pub closed spec fn open(&self) -> bool {
        self.open
    }

    pub open spec fn wf(&self) -> bool {
        self.codec().wf()
    }

    /// A connection of peer `id`, open, with nothing buffered.
    pub fn new(id: u32, codec: FrameCodec) -> (r: ConnectionHandler)
        requires
            codec.wf(),
        ensures
            r.wf(),
            r.peer_id() == id,
            r.codec() == codec,
            r.pending() == Seq::<u8>::empty(),
            r.open(),
    {
        ConnectionHandler { id, codec, pending: Vec::new(), open: true }
    }

    pub fn id(&self) -> (r: u32)
        ensures
            r == self.peer_id(),
    {
        self.id
    }

    pub fn is_open(&self) -> (r: bool)
        ensures
            r == self.open(),
    {
        self.open
    }

    /// The registration that must reach the distributor before any payload of
    /// this connection: the peer with this connection's id and outbound sender.
    pub fn join_event(&self, tx: UnboundedSender<Vec<u8>>) -> (r: ServerEvent)
        ensures
            record_of(r) == EventRecord::Joined(self.peer_id()),
    {
        ServerEvent::Peer(Peer { tx, port_id: self.id })
    }

    fn close(&mut self, reason: CloseReason) -> (r: HandlerStep)
        ensures
            final(self).peer_id() == old(self).peer_id(),
            final(self).codec() == old(self).codec(),
            final(self).pending() == old(self).pending(),
            !final(self).open(),
            r.forward@.len() == 0,
            r.write@.len() == 0,
            r.closed == Some(reason),
    {
        self.open = false;
        HandlerStep { forward: Vec::new(), write: Vec::new(), closed: Some(reason) }
    }

    /// Appends `bytes` to what is buffered and forwards every whole frame.
    fn on_bytes(&mut self, bytes: Vec<u8>) -> (r: HandlerStep)
        requires
            old(self).wf(),
        ensures
            final(self).wf(),
            final(self).peer_id() == old(self).peer_id(),
            final(self).codec() == old(self).codec(),
            ({
                let (f, rest, e) = parse_frames(old(self).codec().max(), old(self).pending() + bytes@);
                &&& records(r.forward@) == received_all(old(self).peer_id(), f)
                &&& r.write@.len() == 0
                &&& e ==> !final(self).open() && r.closed == Some(CloseReason::Framing(FrameError::TooLarge))
                &&& !e ==> final(self).open() == old(self).open() && r.closed is None
                    && final(self).pending() == rest
            }),
    {
        let mut bytes = bytes;
        self.pending.append(&mut bytes);
        let (frames, rest, too_large) = self.codec.split_frames(self.pending.as_slice());
        let ghost fs = crate::frame::payloads(frames@);
        let mut forward: Vec<ServerEvent> = Vec::new();
        let mut i: usize = 0;
        while i < frames.len()
            invariant
                i <= frames@.len(),
                fs == crate::frame::payloads(frames@),
                records(forward@) == received_all(self.id, fs.take(i as int)),
            decreases frames@.len() - i,
        {
            let ghost before = forward@;
            forward.push(ServerEvent::Message { source_port: self.id, msg: copy_bytes(&frames[i]) });
            assert(records(forward@) =~= records(before).push(EventRecord::Received(self.id, fs[i as int])));
            assert(received_all(self.id, fs.take(i + 1)) =~= received_all(self.id, fs.take(i as int)).push(
                EventRecord::Received(self.id, fs[i as int]),
            ));
            i += 1;
        }
        assert(fs.take(i as int) =~= fs);
        if too_large {
            self.open = false;
            HandlerStep {
                forward,
                write: Vec::new(),
                closed: Some(CloseReason::Framing(FrameError::TooLarge)),
            }
        } else {
            self.pending = rest;
            HandlerStep { forward, write: Vec::new(), closed: None }
        }
    }

    /// Decides what one input leads to. A closed connection ignores every
    /// input: it neither forwards, nor writes, nor reports a closing again.
    pub fn on_input(&mut self, input: HandlerInput) -> (r: HandlerStep)
        requires
            old(self).wf(),
        ensures
            final(self).wf(),
            final(self).peer_id() == old(self).peer_id(),
            final(self).codec() == old(self).codec(),
            !old(self).open() ==> is_idle(r) && final(self).open() == old(self).open()
                && final(self).pending() == old(self).pending(),
            old(self).open() ==> match input {
                HandlerInput::Bytes(b) => {
                    let (f, rest, e) = parse_frames(old(self).codec().max(), old(self).pending() + b@);
                    &&& records(r.forward@) == received_all(old(self).peer_id(), f)
                    &&& r.write@.len() == 0
                    &&& e ==> !final(self).open() && r.closed == Some(
                        CloseReason::Framing(FrameError::TooLarge),
                    )
                    &&& !e ==> final(self).open() && r.closed is None && final(self).pending() == rest
                },
                HandlerInput::InputEnded => {
                    &&& r.forward@.len() == 0
                    &&& r.write@.len() == 0
                    &&& !final(self).open()
                    &&& r.closed == Some(
                        if old(self).pending().len() == 0 {
                            CloseReason::InputEnded
                        } else {
                            CloseReason::Framing(FrameError::Truncated)
                        },
                    )
                },
                HandlerInput::Outbound(m) => {
                    &&& r.forward@.len() == 0
                    &&& final(self).pending() == old(self).pending()
                    &&& m@.len() <= old(self).codec().max() ==> final(self).open() && r.closed is None
                        && r.write@ == frame_of(m@)
                    &&& m@.len() > old(self).codec().max() ==> !final(self).open() && r.write@.len()
                        == 0 && r.closed == Some(CloseReason::Framing(FrameError::TooLarge))
                },
                HandlerInput::OutboundEnded => {
                    &&& r.forward@.len() == 0
                    &&& r.write@.len() == 0
                    &&& !final(self).open()
                    &&& r.closed == Some(CloseReason::OutboundEnded)
                },
                HandlerInput::IoFailed => {
                    &&& r.forward@.len() == 0
                    &&& r.write@.len() == 0
                    &&& !final(self).open()
                    &&& r.closed == Some(CloseReason::Io)
                },
            },
    {
        if !self.open {
            return HandlerStep { forward: Vec::new(), write: Vec::new(), closed: None };
        }
        match input {
            HandlerInput::Bytes(b) => self.on_bytes(b),
            HandlerInput::InputEnded => {
                if self.pending.len() == 0 {
                    self.close(CloseReason::InputEnded)
                } else {
                    self.close(CloseReason::Framing(FrameError::Truncated))
                }
            },
            HandlerInput::Outbound(m) => match self.codec.encode(m.as_slice()) {
                Ok(write) => HandlerStep { forward: Vec::new(), write, closed: None },
                Err(e) => self.close(CloseReason::Framing(e)),
            },
            HandlerInput::OutboundEnded => self.close(CloseReason::OutboundEnded),
            HandlerInput::IoFailed => self.close(CloseReason::Io),
        }
    }
}

} // verus!
