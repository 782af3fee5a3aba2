//! Flow control between the two ends of a stream.
//!
//! The sender of a stream is followed through all that can happen to it, whatever its peer grants
//! it. Then one direction of a stream is followed from the permits of its sender to the queue of
//! its receiver. The receiver's queue holds [`MAX_WINDOW`] frames; the laws here say that it never
//! has to hold more, and that the sender is never left waiting for good.

use crate::frame::{message, Message, CMD_FIN, CMD_PSH, CMD_SYN, VERSION};
use crate::pump::PumpState;
use crate::transfer::{data_frames, law_chunks_carry_the_data, payload};
use crate::window::{law_window_stays_valid, WindowState, INIT_WINDOW, MAX_WINDOW, MSS};
use vstd::prelude::*;

verus! {

/// The sender of a stream.
pub struct Sender {
    /// Permits that may be taken.
    pub permits: int,
    /// The sending half.
    pub pump: PumpState,
    /// The frames that were sent for the stream, in order.
    pub frames: Seq<Message>,
    /// All that was written to the stream.
    pub written: Seq<u8>,
    /// How much of it the sending half has read.
    pub taken: int,
    /// Whether nothing more will be written.
    pub finished: bool,
    /// Whether the sending half broke off before it came to the end.
    pub failed: bool,
}

/// What can happen to the sender of a stream.
pub enum SenderEvent {
    /// The peer grants permits.
    Grant { permits: int },
    /// The sender takes a permit.
    Acquire,
    /// The sender spends its permit on a chunk of what was written to the stream; an empty one is
    /// the end of that.
    Read { chunk: Seq<u8> },
    /// The sender, having come to the end, closes the stream.
    Close,
    /// The sender breaks off and closes the stream.
    Fail,
    /// Something is written to the stream.
    Write { data: Seq<u8> },
    /// The writing side of the stream is closed or dropped.
    Finish,
}

impl Sender {
    /// The sender of a stream that this end opens: the stream is announced before anything else.
    pub open spec fn opened(stream_id: u32, metadata: Seq<u8>) -> Sender {
        Sender {
            permits: INIT_WINDOW as int,
            pump: PumpState::fresh(stream_id),
            frames: seq![message(stream_id, CMD_SYN, metadata)],
            written: Seq::empty(),
            taken: 0,
            finished: false,
            failed: false,
        }
    }

    /// The sender of a stream that the other end opened.
    pub open spec fn accepted(stream_id: u32) -> Sender {
        Sender {
            permits: INIT_WINDOW as int,
            pump: PumpState::fresh(stream_id),
            frames: Seq::empty(),
            written: Seq::empty(),
            taken: 0,
            finished: false,
            failed: false,
        }
    }

    /// Whether the event can happen. What is written is read in order, into a buffer of [`MSS`]
    /// bytes; an empty chunk means that all of it was read and no more comes.
    pub open spec fn enabled(self, e: SenderEvent) -> bool {
        match e {
            SenderEvent::Grant { permits } => permits >= 0,
            SenderEvent::Acquire => self.permits > 0 && !self.pump.armed && !self.pump.ended,
            SenderEvent::Read { chunk } => {
                &&& self.pump.armed
                &&& chunk.len() <= MSS
                &&& chunk.is_prefix_of(self.written.skip(self.taken))
                &&& chunk.len() == 0 ==> self.finished && self.taken == self.written.len()
            },
            SenderEvent::Close => self.pump.ended,
            SenderEvent::Fail => true,
            SenderEvent::Write { .. } => !self.finished,
            SenderEvent::Finish => true,
        }
    }

    /// The sender after the event.
    pub open spec fn after(self, e: SenderEvent) -> Sender {
        match e {
            SenderEvent::Grant { permits } => Sender { permits: self.permits + permits, ..self },
            SenderEvent::Acquire => Sender {
                permits: self.permits - 1,
                pump: self.pump.permitted(),
                ..self
            },
            SenderEvent::Read { chunk } => Sender {
                pump: self.pump.read(chunk),
                frames: match self.pump.data_frame(chunk) {
                    Some(m) => self.frames.push(m),
                    None => self.frames,
                },
                taken: self.taken + chunk.len(),
                ..self
            },
            SenderEvent::Close => Sender {
                pump: self.pump.closed(),
                frames: self.frames.push(self.pump.closing_frame()),
                ..self
            },
            SenderEvent::Fail => Sender {
                pump: self.pump.closed(),
                frames: self.frames.push(self.pump.closing_frame()),
                failed: true,
                ..self
            },
            SenderEvent::Write { data } => Sender { written: self.written + data, ..self },
            SenderEvent::Finish => Sender { finished: true, ..self },
        }
    }
}

/// A sender after a run of events, if the run can happen.
pub open spec fn sender_after(start: Sender, events: Seq<SenderEvent>) -> Option<Sender>
    decreases events.len(),
{
    if events.len() == 0 {
        Some(start)
    } else {
        match sender_after(start, events.drop_last()) {
            Some(s) => if s.enabled(events.last()) {
                Some(s.after(events.last()))
            } else {
                None
            },
            None => None,
        }
    }
}

/// The permits that a run of events grants.
pub open spec fn granted(events: Seq<SenderEvent>) -> int
    decreases events.len(),
{
    if events.len() == 0 {
        0
    } else {
        granted(events.drop_last()) + (match events.last() {
            SenderEvent::Grant { permits } => permits,
            _ => 0,
        })
    }
}

/// The chunks that a run of events reads, in order, without the empty one at the end.
pub open spec fn chunks_read(events: Seq<SenderEvent>) -> Seq<Seq<u8>>
    decreases events.len(),
{
    if events.len() == 0 {
        Seq::empty()
    } else {
        let before = chunks_read(events.drop_last());
        match events.last() {
            SenderEvent::Read { chunk } => if chunk.len() > 0 {
                before.push(chunk)
            } else {
                before
            },
            _ => before,
        }
    }
}

/// How many times a run of events closes the stream.
pub open spec fn closings(events: Seq<SenderEvent>) -> nat
    decreases events.len(),
{
    if events.len() == 0 {
        0
    } else {
        closings(events.drop_last()) + (if events.last() is Close || events.last() is Fail {
            1nat
        } else {
            0
        })
    }
}

/// Whether `start` is the sender of a fresh stream.
pub open spec fn is_fresh(start: Sender) -> bool {
    ||| start == Sender::accepted(start.pump.stream_id)
    ||| exists|metadata: Seq<u8>| #[trigger]
        Sender::opened(start.pump.stream_id, metadata) == start
}

/// The closing frames of a stream that is closed `n` times.
pub open spec fn closing_frames(stream_id: u32, n: nat) -> Seq<Message> {
    Seq::new(n, |i: int| message(stream_id, CMD_FIN, Seq::empty()))
}

/// A sender keeps to its credit: whatever its peer grants, and however much is written to the
/// stream, the data frames that were sent, one for each chunk, are no more than [`INIT_WINDOW`]
/// and what was granted, and carry at most [`MSS`] bytes each.
pub proof fn law_sender_keeps_to_its_credit(start: Sender, events: Seq<SenderEvent>)
    requires
        is_fresh(start),
    ensures
        sender_after(start, events) matches Some(s) ==> {
            &&& s.permits >= 0
            &&& chunks_read(events).len() + s.permits + (if s.pump.armed {
                1int
            } else {
                0
            }) <= INIT_WINDOW + granted(events)
            &&& chunks_read(events).len() <= INIT_WINDOW + granted(events)
            &&& chunks_read(events).flatten().len() <= MSS * chunks_read(events).len()
        },
    decreases events.len(),
{
    if events.len() > 0 {
        let before = events.drop_last();
        law_sender_keeps_to_its_credit(start, before);
        if let SenderEvent::Read { chunk } = events.last() {
            chunks_read(before).lemma_flatten_push(chunk);
        }
    }
}

/// The frames of a stream come in order: the announcement, where this end opened the stream; the
/// data frames, one for each chunk that was read; and, once the stream is closed, closing frames.
/// No data frame follows a closing frame.
pub proof fn law_frames_come_in_order(start: Sender, events: Seq<SenderEvent>)
    requires
        is_fresh(start),
    ensures
        sender_after(start, events) matches Some(s) ==> {
            &&& s.pump.stream_id == start.pump.stream_id
            &&& s.frames == start.frames + data_frames(s.pump.stream_id, chunks_read(events))
                + closing_frames(s.pump.stream_id, closings(events))
            &&& closings(events) > 0 ==> s.pump.ended
            &&& s.pump.ended ==> !s.pump.armed
        },
    decreases events.len(),
{
    let id = start.pump.stream_id;
    if events.len() == 0 {
        assert(start.frames =~= start.frames + data_frames(id, chunks_read(events))
            + closing_frames(id, closings(events)));
    } else {
        let before = events.drop_last();
        law_frames_come_in_order(start, before);
        if let Some(s) = sender_after(start, before) {
            if s.enabled(events.last()) {
                let next = s.after(events.last());
                let chunks = chunks_read(before);
                match events.last() {
                    SenderEvent::Read { chunk } => {
                        assert(closing_frames(id, closings(before)) =~= Seq::<Message>::empty());
                        assert(data_frames(id, chunks.push(chunk)) =~= data_frames(id, chunks).push(
                            message(id, CMD_PSH, chunk),
                        ));
                        assert(next.frames =~= start.frames + data_frames(id, chunks_read(events))
                            + closing_frames(id, closings(events)));
                    },
                    SenderEvent::Close | SenderEvent::Fail => {
                        assert(closing_frames(id, closings(events)) =~= closing_frames(
                            id,
                            closings(before),
                        ).push(message(id, CMD_FIN, Seq::empty())));
                        assert(next.frames =~= start.frames + data_frames(id, chunks_read(events))
                            + closing_frames(id, closings(events)));
                    },
                    _ => {},
                }
            }
        }
    }
}

/// The data frames of a stream are as the other end expects them: of the right version, neither
/// empty nor longer than [`MSS`], with the length of the body in the length field.
pub proof fn law_data_frames_are_well_formed(
    start: Sender,
    events: Seq<SenderEvent>,
    i: int,
)
    requires
        is_fresh(start),
        0 <= i < chunks_read(events).len(),
    ensures
        sender_after(start, events) is Some ==> ({
            let m = data_frames(start.pump.stream_id, chunks_read(events))[i];
            &&& m.header.version == VERSION
            &&& 1 <= m.body.len() <= MSS
            &&& m.well_sized()
        }),
    decreases events.len(),
{
    let before = events.drop_last();
    if i < chunks_read(before).len() {
        law_data_frames_are_well_formed(start, before, i);
    }
}

/// The chunks that are read make up what was written, from the front.
proof fn lemma_chunks_make_up_what_was_written(start: Sender, events: Seq<SenderEvent>)
    requires
        is_fresh(start),
    ensures
        sender_after(start, events) matches Some(s) ==> {
            &&& 0 <= s.taken <= s.written.len()
            &&& chunks_read(events).flatten() == s.written.take(s.taken)
            &&& s.pump.ended && !s.failed ==> s.finished && s.taken == s.written.len()
            &&& closings(events) > 0 ==> s.pump.ended
        },
    decreases events.len(),
{
    if events.len() == 0 {
        assert(chunks_read(events).flatten() =~= start.written.take(start.taken));
    } else {
        let before = events.drop_last();
        lemma_chunks_make_up_what_was_written(start, before);
        if let Some(s) = sender_after(start, before) {
            if s.enabled(events.last()) {
                let next = s.after(events.last());
                match events.last() {
                    SenderEvent::Read { chunk } => {
                        let left = s.written.skip(s.taken);
                        assert(chunk =~= left.take(chunk.len() as int));
                        assert(next.written.take(next.taken) =~= s.written.take(s.taken) + chunk);
                        let chunks = chunks_read(before);
                        chunks.lemma_flatten_push(chunk);
                    },
                    SenderEvent::Write { data } => {
                        assert(next.written.take(next.taken) =~= s.written.take(s.taken));
                    },
                    _ => {},
                }
            }
        }
    }
}

/// What a stream carries is what was written to it: the data in its frames is always a part of
/// that from the front, and all of it once the stream is closed, unless the sender broke off.
pub proof fn law_frames_carry_what_was_written(start: Sender, events: Seq<SenderEvent>)
    requires
        is_fresh(start),
    ensures
        sender_after(start, events) matches Some(s) ==> {
            &&& payload(s.frames, s.pump.stream_id) == chunks_read(events).flatten()
            &&& payload(s.frames, s.pump.stream_id).is_prefix_of(s.written)
            &&& closings(events) > 0 && !s.failed ==> payload(s.frames, s.pump.stream_id)
                == s.written
        },
{
    law_frames_come_in_order(start, events);
    lemma_chunks_make_up_what_was_written(start, events);
    if let Some(s) = sender_after(start, events) {
        let id = s.pump.stream_id;
        let fin = message(id, CMD_FIN, Seq::empty());
        let data = data_frames(id, chunks_read(events));
        let n = closings(events);
        let sent = data + closing_frames(id, n);
        if n > 0 {
            let more = closing_frames(id, (n - 1) as nat);
            assert(closing_frames(id, n) =~= seq![fin] + more);
            assert(sent =~= data + seq![fin] + more);
            law_chunks_carry_the_data(id, chunks_read(events), more);
        } else {
            assert(sent =~= data);
            law_chunks_carry_the_data(id, chunks_read(events), Seq::empty());
        }
        assert(s.frames =~= start.frames + sent);
        if start.frames.len() > 0 {
            assert(start.frames.len() == 1);
            assert(s.frames.drop_first() =~= sent);
            assert(s.frames[0].header.command == CMD_SYN);
            assert(payload(s.frames, id) =~= payload(sent, id));
        } else {
            assert(s.frames =~= sent);
        }
    }
}

/// A permit is good for a chunk, whatever the chunk and the stream: a sender that has not come to
/// an end can take any permit there is, and then send the next of what was written, up to
/// [`MSS`] bytes, as one data frame of its stream. After that it can take the next permit.
pub proof fn law_permit_sends_a_chunk(s: Sender, chunk: Seq<u8>)
    requires
        s.permits > 0,
        !s.pump.armed,
        !s.pump.ended,
        0 < chunk.len() <= MSS,
        chunk.is_prefix_of(s.written.skip(s.taken)),
    ensures
        s.enabled(SenderEvent::Acquire),
        s.after(SenderEvent::Acquire).enabled(SenderEvent::Read { chunk }),
        ({
            let next = s.after(SenderEvent::Acquire).after(SenderEvent::Read { chunk });
            &&& next.permits == s.permits - 1
            &&& !next.pump.armed
            &&& !next.pump.ended
            &&& next.pump.stream_id == s.pump.stream_id
            &&& next.frames.len() == s.frames.len() + 1
            &&& next.frames.drop_last() == s.frames
            &&& next.frames.last().header.command == CMD_PSH
            &&& next.frames.last().header.stream_id == s.pump.stream_id
            &&& next.frames.last().header.version == 1
            &&& next.frames.last().well_sized()
            &&& next.frames.last().body == chunk
        }),
{
    let next = s.after(SenderEvent::Acquire).after(SenderEvent::Read { chunk });
    assert(next.frames.drop_last() =~= s.frames);
}

/// A sender that comes to the end of what was written stops there, and closes its stream with a
/// frame of its stream that has no body.
pub proof fn law_end_of_data_closes_the_stream(s: Sender)
    requires
        s.permits > 0,
        !s.pump.armed,
        !s.pump.ended,
        s.finished,
        s.taken == s.written.len(),
    ensures
        ({
            let end = SenderEvent::Read { chunk: Seq::empty() };
            let stopped = s.after(SenderEvent::Acquire).after(end);
            let closed = stopped.after(SenderEvent::Close);
            &&& s.after(SenderEvent::Acquire).enabled(end)
            &&& stopped.pump.ended
            &&& stopped.frames == s.frames
            &&& stopped.enabled(SenderEvent::Close)
            &&& closed.frames.len() == s.frames.len() + 1
            &&& closed.frames.last().header.command == CMD_FIN
            &&& closed.frames.last().header.stream_id == s.pump.stream_id
            &&& closed.frames.last().body.len() == 0
            &&& !closed.enabled(SenderEvent::Acquire)
        }),
{
    assert(Seq::<u8>::empty().is_prefix_of(s.written.skip(s.taken)));
}

/// Where the frames and the permits of one direction of a stream are.
pub struct Flow {
    /// The sender.
    pub sender: Sender,
    /// Data frames on their way.
    pub on_wire: int,
    /// Data frames in the receiver's queue.
    pub queued: int,
    /// Permits on their way back.
    pub granted: int,
    /// The receiver's window.
    pub window: WindowState,
}

/// What can happen to one direction of a stream.
pub enum FlowEvent {
    /// Something happens to the sender.
    Sender(SenderEvent),
    /// A data frame reaches the receiver's queue.
    Arrive,
    /// The receiver hands a data frame on.
    Deliver { queue_delay_ms: int, since_adjust_ms: int },
}

impl Flow {
    /// A fresh stream.
    pub open spec fn initial(sender: Sender) -> Flow {
        Flow { sender, on_wire: 0, queued: 0, granted: 0, window: WindowState::initial() }
    }

    /// Whether the event can happen. Permits that reach the sender were granted by the receiver.
    pub open spec fn enabled(self, e: FlowEvent) -> bool {
        match e {
            FlowEvent::Sender(e) => {
                &&& self.sender.enabled(e)
                &&& e matches SenderEvent::Grant { permits } ==> permits <= self.granted
            },
            FlowEvent::Arrive => self.on_wire > 0,
            FlowEvent::Deliver { .. } => self.queued > 0,
        }
    }

    /// The stream after the event.
    pub open spec fn after(self, e: FlowEvent) -> Flow {
        match e {
            FlowEvent::Sender(e) => Flow {
                sender: self.sender.after(e),
                on_wire: self.on_wire + (match e {
                    SenderEvent::Read { chunk } => if chunk.len() > 0 {
                        1int
                    } else {
                        0
                    },
                    _ => 0,
                }),
                granted: self.granted - (match e {
                    SenderEvent::Grant { permits } => permits,
                    _ => 0,
                }),
                ..self
            },
            FlowEvent::Arrive => Flow {
                on_wire: self.on_wire - 1,
                queued: self.queued + 1,
                ..self
            },
            FlowEvent::Deliver { queue_delay_ms, since_adjust_ms } => Flow {
                queued: self.queued - 1,
                granted: self.granted + self.window.grant(queue_delay_ms, since_adjust_ms),
                window: self.window.delivered(queue_delay_ms, since_adjust_ms),
                ..self
            },
        }
    }

    /// The frames that the sender could still get into the receiver's queue, and those that it
    /// has got under way.
    pub open spec fn outstanding(self) -> int {
        self.sender.permits + self.on_wire + self.queued + self.granted + (if self.sender.pump.armed {
            1int
        } else {
            0
        })
    }

    /// What holds at all times: the receiver's window counts what is outstanding, exactly so as
    /// long as the sender has not come to an end.
    pub open spec fn balanced(self) -> bool {
        &&& self.window.valid()
        &&& self.sender.permits >= 0
        &&& self.on_wire >= 0
        &&& self.queued >= 0
        &&& self.granted >= 0
        &&& self.outstanding() <= self.window.remote
        &&& !self.sender.pump.ended ==> self.outstanding() == self.window.remote
    }
}

/// The stream after a run of events, if the run can happen.
pub open spec fn run(start: Sender, events: Seq<FlowEvent>) -> Option<Flow>
    decreases events.len(),
{
    if events.len() == 0 {
        Some(Flow::initial(start))
    } else {
        match run(start, events.drop_last()) {
            Some(f) => if f.enabled(events.last()) {
                Some(f.after(events.last()))
            } else {
                None
            },
            None => None,
        }
    }
}

/// Every event keeps a stream balanced.
pub proof fn law_events_keep_balance(f: Flow, e: FlowEvent)
    requires
        f.balanced(),
        f.enabled(e),
    ensures
        f.after(e).balanced(),
{
    if let FlowEvent::Deliver { queue_delay_ms, since_adjust_ms } = e {
        law_window_stays_valid(f.window, queue_delay_ms, since_adjust_ms);
    }
}

/// After any run, a stream is balanced.
pub proof fn law_streams_stay_balanced(start: Sender, events: Seq<FlowEvent>)
    requires
        is_fresh(start),
    ensures
        run(start, events) matches Some(f) ==> f.balanced(),
    decreases events.len(),
{
    if events.len() > 0 {
        law_streams_stay_balanced(start, events.drop_last());
        if let Some(f) = run(start, events.drop_last()) {
            if f.enabled(events.last()) {
                law_events_keep_balance(f, events.last());
            }
        }
    }
}

/// The receiver's queue never overflows: whenever a data frame arrives, there is room for it.
pub proof fn law_queue_never_overflows(start: Sender, events: Seq<FlowEvent>)
    requires
        is_fresh(start),
    ensures
        run(start, events) matches Some(f) ==> {
            &&& f.queued <= MAX_WINDOW
            &&& f.enabled(FlowEvent::Arrive) ==> f.queued < MAX_WINDOW
        },
{
    law_streams_stay_balanced(start, events);
}

/// The sender is never left waiting for good: as long as it has data, either it holds or can
/// take a permit, or something is on its way that leads to one.
pub proof fn law_sender_never_starves(start: Sender, events: Seq<FlowEvent>)
    requires
        is_fresh(start),
    ensures
        run(start, events) matches Some(f) ==> f.sender.pump.ended || f.sender.pump.armed
            || f.sender.permits > 0 || f.on_wire > 0 || f.queued > 0 || f.granted > 0,
{
    law_streams_stay_balanced(start, events);
}

} // verus!
