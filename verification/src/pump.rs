//! The sending half of a stream: it turns what is written to the stream into frames, one permit
//! for each.

use crate::frame::{le16, message, Frame, Message, CMD_FIN, CMD_MORE, CMD_PSH};
use crate::window::MSS;
use vstd::prelude::*;

verus! {

/// The state of a sending half, as a mathematical value.
pub struct PumpState {
    pub stream_id: u32,
    /// Whether a permit is in hand.
    pub armed: bool,
    /// Whether there is nothing to send any more but the closing frame.
    pub ended: bool,
}

impl PumpState {
    /// The sending half of a fresh stream.
    pub open spec fn fresh(stream_id: u32) -> PumpState {
        PumpState { stream_id, armed: false, ended: false }
    }

    /// The sending half once it has taken a permit.
    pub open spec fn permitted(self) -> PumpState {
        PumpState { armed: true, ..self }
    }

    /// The sending half once it has spent its permit on a chunk. An empty chunk is the end.
    pub open spec fn read(self, chunk: Seq<u8>) -> PumpState {
        PumpState { armed: false, ended: self.ended || chunk.len() == 0, ..self }
    }

    /// The sending half once it is closed.
    pub open spec fn closed(self) -> PumpState {
        PumpState { armed: false, ended: true, ..self }
    }

    /// The frame that carries a chunk, if there is anything to carry.
    pub open spec fn data_frame(self, chunk: Seq<u8>) -> Option<Message> {
        if chunk.len() == 0 {
            None
        } else {
            Some(message(self.stream_id, CMD_PSH, chunk))
        }
    }

    /// The closing frame.
    pub open spec fn closing_frame(self) -> Message {
        message(self.stream_id, CMD_FIN, Seq::empty())
    }
}

/// The sending half of one stream.
#[derive(Debug)]
pub struct SendPump {
    stream_id: u32,
    armed: bool,
    ended: bool,
}

impl View for SendPump {
    type V = PumpState;

    closed spec fn view(&self) -> PumpState {
        PumpState { stream_id: self.stream_id, armed: self.armed, ended: self.ended }
    }
}

impl SendPump {
    /// The sending half of a fresh stream.
    pub fn new(stream_id: u32) -> (p: SendPump)
        ensures
            p@ == PumpState::fresh(stream_id),
    {
        SendPump { stream_id, armed: false, ended: false }
    }

    /// Whether a permit is in hand.
    pub fn is_armed(&self) -> (b: bool)
        ensures
            b == self@.armed,
    {
        self.armed
    }

    /// Whether there is nothing to send any more but the closing frame.
    pub fn is_ended(&self) -> (b: bool)
        ensures
            b == self@.ended,
    {
        self.ended
    }

    /// Takes a permit.
    pub fn on_permit(&mut self)
        requires
            !old(self)@.armed,
            !old(self)@.ended,
        ensures
            final(self)@ == old(self)@.permitted(),
    {
        self.armed = true;
    }

    /// Spends the permit on a chunk of data. An empty chunk marks the end of the data: the
    /// permit is gone, and there is nothing to send but the closing frame.
    pub fn on_read(&mut self, chunk: &[u8]) -> (r: Option<Frame>)
        requires
            old(self)@.armed,
        ensures
            final(self)@ == old(self)@.read(chunk@),
            match r {
                Some(f) => old(self)@.data_frame(chunk@) == Some(f@),
                None => old(self)@.data_frame(chunk@) is None,
            },
            r matches Some(f) ==> chunk@.len() <= MSS ==> f@.well_sized(),
            r matches Some(f) ==> f.header.stream_id == old(self)@.stream_id && f@.body == chunk@,
            r is None <==> chunk@.len() == 0,
    {
        self.armed = false;
        if chunk.len() == 0 {
            self.ended = true;
            None
        } else {
            Some(Frame::new(self.stream_id, CMD_PSH, chunk))
        }
    }

    /// Closes the stream, whatever is in hand, and gives the frame that says so.
    pub fn close(&mut self) -> (f: Frame)
        ensures
            final(self)@ == old(self)@.closed(),
            f@ == old(self)@.closing_frame(),
    {
        self.armed = false;
        self.ended = true;
        Frame::new_empty(self.stream_id, CMD_FIN)
    }
}

/// The frame that grants the other end of a stream more frames.
pub fn more_frame(stream_id: u32, grant: u16) -> (f: Frame)
    ensures
        f@ == message(stream_id, CMD_MORE, le16(grant)),
        f.header.stream_id == stream_id,
        f@.well_sized(),
        f@.body.len() == 2,
        f@.body[0] + 256 * f@.body[1] == grant,
{
    let body: [u8; 2] = [(grant % 0x100) as u8, (grant / 0x100) as u8];
    assert(body@ =~= le16(grant));
    Frame::new(stream_id, CMD_MORE, &body)
}

} // verus!
