//! What a multiplexer does with each frame that it reads or writes.

use crate::buffer::contents;
use crate::error::{ErrorKind, Failure, MuxError};
use crate::frame::{
    from_le16, le16, message, Frame, Message, CMD_FIN, CMD_MORE, CMD_NOP, CMD_PING, CMD_PONG, CMD_PSH,
    CMD_SYN,
};
use crate::tables::{
    streams_contain, streams_get, streams_insert, streams_new, streams_of, streams_remove, StreamMap,
};
use crate::text::{decimal, decimal_string};
use bytes::Bytes;
use rand::Rng;
use vstd::prelude::*;
use vstd::string::*;

verus! {

/// What a frame from the other end calls for.
#[derive(Debug)]
pub enum Incoming {
    /// The other end opens a stream: make it and offer it to whoever accepts streams, then
    /// report how that went.
    Offer { stream_id: u32, metadata: Bytes },
    /// The other end lets a stream send more frames.
    Grant { link: u64, permits: u16 },
    /// Data for a stream.
    Deliver { link: u64, frame: Frame },
    /// The other end closes a stream: drop its link.
    Unlink { link: u64 },
    /// A ping, to be answered if its body makes sense.
    CheckPing { body: Bytes },
    /// The answer to a ping.
    Pong,
    /// A frame for a stream that is no longer here.
    Stray,
    /// Nothing to do.
    Nothing,
}

/// What a frame calls for, as a mathematical value.
#[verifier::ext_equal]
pub enum Reaction {
    Offer { stream_id: u32, metadata: Seq<u8> },
    Grant { link: u64, permits: int },
    Deliver { link: u64, message: Message },
    Unlink { link: u64 },
    CheckPing { body: Seq<u8> },
    Pong,
    Stray,
    Nothing,
}

impl View for Incoming {
    type V = Reaction;

    open spec fn view(&self) -> Reaction {
        match self {
            Incoming::Offer { stream_id, metadata } => Reaction::Offer {
                stream_id: *stream_id,
                metadata: contents(*metadata),
            },
            Incoming::Grant { link, permits } => Reaction::Grant {
                link: *link,
                permits: *permits as int,
            },
            Incoming::Deliver { link, frame } => Reaction::Deliver { link: *link, message: frame@ },
            Incoming::Unlink { link } => Reaction::Unlink { link: *link },
            Incoming::CheckPing { body } => Reaction::CheckPing { body: contents(*body) },
            Incoming::Pong => Reaction::Pong,
            Incoming::Stray => Reaction::Stray,
            Incoming::Nothing => Reaction::Nothing,
        }
    }
}

/// How offering a stream to whoever accepts streams went.
#[derive(Clone, Copy, Debug, PartialEq, Eq, Structural)]
pub enum OfferOutcome {
    /// The stream waits to be accepted.
    Queued,
    /// Too many streams wait already.
    Full,
    /// Nobody accepts streams any more.
    Closed,
}

/// What writing a frame comes down to.
#[derive(Debug)]
pub struct Outgoing {
    /// The bytes to write.
    pub wire: Vec<u8>,
    /// The link to drop, if the frame closes a stream that has one.
    pub unlinked: Option<u64>,
}

/// The failure with the given kind and message.
pub open spec fn failure(kind: ErrorKind, message: Seq<char>) -> Failure {
    Failure { kind, message }
}

/// What a message calls for, given the streams that are open.
pub open spec fn reaction(streams: Map<u32, u64>, m: Message) -> Result<Reaction, Failure> {
    let id = m.header.stream_id;
    let command = m.header.command;
    let open = streams.dom().contains(id);
    if command == CMD_SYN {
        if open {
            Err(failure(ErrorKind::InvalidData, "duplicate SYN"@))
        } else {
            Ok(Reaction::Offer { stream_id: id, metadata: m.body })
        }
    } else if command == CMD_MORE {
        if m.body.len() != 2 {
            Err(failure(ErrorKind::InvalidData, "corrupt window increase message"@))
        } else if open {
            Ok(Reaction::Grant { link: streams[id], permits: from_le16(m.body) })
        } else {
            Ok(Reaction::Stray)
        }
    } else if command == CMD_PSH {
        if open {
            Ok(Reaction::Deliver { link: streams[id], message: m })
        } else {
            Ok(Reaction::Stray)
        }
    } else if command == CMD_FIN {
        if open {
            Ok(Reaction::Unlink { link: streams[id] })
        } else {
            Ok(Reaction::Nothing)
        }
    } else if command == CMD_NOP {
        Ok(Reaction::Nothing)
    } else if command == CMD_PING {
        Ok(Reaction::CheckPing { body: m.body })
    } else if command == CMD_PONG {
        Ok(Reaction::Pong)
    } else {
        Err(failure(ErrorKind::InvalidData, "invalid command "@ + decimal(command as nat)))
    }
}

/// The streams that stay open after a message, before any offer is settled.
pub open spec fn streams_after(streams: Map<u32, u64>, m: Message) -> Map<u32, u64> {
    if m.header.command == CMD_FIN {
        streams.remove(m.header.stream_id)
    } else {
        streams
    }
}

/// The bytes that a message is written as: a message that closes an open stream goes out twice.
pub open spec fn written(streams: Map<u32, u64>, m: Message) -> Seq<u8> {
    if m.header.command == CMD_FIN && streams.dom().contains(m.header.stream_id) {
        m.wire() + m.wire()
    } else {
        m.wire()
    }
}

/// The state of a session, as a mathematical value.
#[verifier::ext_equal]
pub struct SessionState {
    /// The open streams, each with the number of the link that carries it.
    pub streams: Map<u32, u64>,
    /// The number that the next link gets.
    pub next_link: int,
}

impl SessionState {
    /// What holds of every session: no two streams share a link, and no link is numbered ahead.
    pub open spec fn valid(self) -> bool {
        &&& 0 <= self.next_link
        &&& forall|id: u32|
            #![trigger self.streams[id]]
            self.streams.dom().contains(id) ==> self.streams[id] < self.next_link
        &&& forall|id: u32, other: u32|
            #![trigger self.streams[id], self.streams[other]]
            self.streams.dom().contains(id) && self.streams.dom().contains(other) && id != other
                ==> self.streams[id] != self.streams[other]
    }

    /// Whether some identifier is free.
    pub open spec fn has_room(self) -> bool {
        exists|id: u32| !self.streams.dom().contains(id)
    }

    /// The session once a stream has got the next link.
    pub open spec fn opened(self, stream_id: u32) -> SessionState {
        SessionState {
            streams: self.streams.insert(stream_id, self.next_link as u64),
            next_link: self.next_link + 1,
        }
    }

    /// The session after a message, before any offer is settled.
    pub open spec fn after(self, m: Message) -> SessionState {
        SessionState { streams: streams_after(self.streams, m), next_link: self.next_link }
    }

    /// The session once the offer of a stream is settled.
    pub open spec fn settled(self, stream_id: u32, outcome: OfferOutcome) -> SessionState {
        if outcome == OfferOutcome::Queued {
            self.opened(stream_id)
        } else {
            self
        }
    }
}

/// A message keeps a session valid, whether it comes or goes.
pub proof fn law_messages_keep_session_valid(state: SessionState, m: Message)
    requires
        state.valid(),
    ensures
        state.after(m).valid(),
{
    let next = state.after(m);
    assert forall|id: u32|
        #![trigger next.streams[id]]
        next.streams.dom().contains(id) implies next.streams[id] < next.next_link by {
        assert(next.streams[id] == state.streams[id]);
    }
    assert forall|id: u32, other: u32|
        #![trigger next.streams[id], next.streams[other]]
        next.streams.dom().contains(id) && next.streams.dom().contains(other) && id
            != other implies next.streams[id] != next.streams[other] by {
        assert(next.streams[id] == state.streams[id]);
        assert(next.streams[other] == state.streams[other]);
    }
}

/// Opening a stream keeps a session valid: the stream gets a link that no other stream has.
pub proof fn law_opening_keeps_session_valid(state: SessionState, stream_id: u32)
    requires
        state.valid(),
        state.next_link < u64::MAX,
    ensures
        state.opened(stream_id).valid(),
{
    let next = state.opened(stream_id);
    assert forall|id: u32|
        #![trigger next.streams[id]]
        next.streams.dom().contains(id) implies next.streams[id] < next.next_link by {
        if id != stream_id {
            assert(next.streams[id] == state.streams[id]);
        }
    }
    assert forall|id: u32, other: u32|
        #![trigger next.streams[id], next.streams[other]]
        next.streams.dom().contains(id) && next.streams.dom().contains(other) && id
            != other implies next.streams[id] != next.streams[other] by {
        if id != stream_id {
            assert(next.streams[id] == state.streams[id]);
        }
        if other != stream_id {
            assert(next.streams[other] == state.streams[other]);
        }
    }
}

/// What a frame calls for shows the streams, links, numbers and bytes that it holds, as they are.
pub proof fn law_incoming_shows_what_it_holds(
    stream_id: u32,
    link: u64,
    permits: u16,
    bytes: Bytes,
    frame: Frame,
)
    ensures
        (Incoming::Offer { stream_id, metadata: bytes })@ == (Reaction::Offer {
            stream_id,
            metadata: contents(bytes),
        }),
        (Incoming::Grant { link, permits })@ == (Reaction::Grant { link, permits: permits as int }),
        (Incoming::Deliver { link, frame })@ == (Reaction::Deliver { link, message: frame@ }),
        (Incoming::Unlink { link })@ == (Reaction::Unlink { link }),
        (Incoming::CheckPing { body: bytes })@ == (Reaction::CheckPing { body: contents(bytes) }),
        Incoming::Pong@ == Reaction::Pong,
        Incoming::Stray@ == Reaction::Stray,
        Incoming::Nothing@ == Reaction::Nothing,
{
}

/// A failure has the kind and the message that it is made of.
pub proof fn law_failure_is_as_it_is_made(kind: ErrorKind, message: Seq<char>)
    ensures
        failure(kind, message).kind == kind,
        failure(kind, message).message == message,
{
}

/// Data goes to the stream that it is for, whatever it is and however much, and never ends the
/// multiplexer. Data for a stream that is not open goes nowhere.
pub proof fn law_data_goes_to_its_stream(streams: Map<u32, u64>, m: Message)
    requires
        m.header.command == CMD_PSH,
    ensures
        streams.dom().contains(m.header.stream_id) ==> reaction(streams, m) == Ok::<
            Reaction,
            Failure,
        >(Reaction::Deliver { link: streams[m.header.stream_id], message: m }),
        !streams.dom().contains(m.header.stream_id) ==> reaction(streams, m) == Ok::<
            Reaction,
            Failure,
        >(Reaction::Stray),
{
}

/// A grant goes to the stream that it is for, as the number that its two bytes spell. Only a body
/// of another length ends the multiplexer.
pub proof fn law_grant_goes_to_its_stream(streams: Map<u32, u64>, m: Message)
    requires
        m.header.command == CMD_MORE,
    ensures
        m.body.len() == 2 && streams.dom().contains(m.header.stream_id) ==> reaction(streams, m)
            == Ok::<Reaction, Failure>(
            Reaction::Grant {
                link: streams[m.header.stream_id],
                permits: m.body[0] + 256 * m.body[1],
            },
        ),
        m.body.len() == 2 && !streams.dom().contains(m.header.stream_id) ==> reaction(streams, m)
            == Ok::<Reaction, Failure>(Reaction::Stray),
        m.body.len() != 2 ==> (reaction(streams, m) matches Err(f) && f.kind
            == ErrorKind::InvalidData && f.message == "corrupt window increase message"@),
{
}

/// Closing a stream drops the link of that stream and of no other, and takes that stream out and
/// no other. Closing a stream that is not open does nothing.
pub proof fn law_closing_drops_its_own_link(state: SessionState, m: Message, other: u32)
    requires
        m.header.command == CMD_FIN,
    ensures
        ({
            let id = m.header.stream_id;
            let next = state.after(m);
            &&& state.streams.dom().contains(id) ==> reaction(state.streams, m) == Ok::<
                Reaction,
                Failure,
            >(Reaction::Unlink { link: state.streams[id] })
            &&& !state.streams.dom().contains(id) ==> reaction(state.streams, m) == Ok::<
                Reaction,
                Failure,
            >(Reaction::Nothing)
            &&& !next.streams.dom().contains(id)
            &&& next.next_link == state.next_link
            &&& other != id ==> {
                &&& next.streams.dom().contains(other) == state.streams.dom().contains(other)
                &&& state.streams.dom().contains(other) ==> next.streams[other]
                    == state.streams[other]
            }
            &&& state.valid() && next.streams.dom().contains(other) ==> (reaction(
                state.streams,
                m,
            ) matches Ok(Reaction::Unlink { link }) ==> link != next.streams[other])
        }),
{
}

/// Only closing a stream takes one out: any other message leaves the session as it is.
pub proof fn law_only_closing_takes_streams_out(state: SessionState, m: Message)
    requires
        m.header.command != CMD_FIN,
    ensures
        state.after(m) == state,
{
}

/// A stream that is not open yet is offered with the metadata that came with it, whatever that is.
/// Only opening one that is open already ends the multiplexer.
pub proof fn law_new_stream_is_offered(streams: Map<u32, u64>, m: Message)
    requires
        m.header.command == CMD_SYN,
    ensures
        !streams.dom().contains(m.header.stream_id) ==> reaction(streams, m) == Ok::<
            Reaction,
            Failure,
        >(Reaction::Offer { stream_id: m.header.stream_id, metadata: m.body }),
        streams.dom().contains(m.header.stream_id) ==> (reaction(streams, m) matches Err(f)
            && f.kind == ErrorKind::InvalidData && f.message == "duplicate SYN"@),
{
}

/// Pings, pongs and idle messages are told apart, whatever stream they name and whatever streams
/// are open; the body of a ping is handed on as it is.
pub proof fn law_signs_of_life_are_told_apart(streams: Map<u32, u64>, m: Message)
    ensures
        m.header.command == CMD_PING ==> reaction(streams, m) == Ok::<Reaction, Failure>(
            Reaction::CheckPing { body: m.body },
        ),
        m.header.command == CMD_PONG ==> reaction(streams, m) == Ok::<Reaction, Failure>(
            Reaction::Pong,
        ),
        m.header.command == CMD_NOP ==> reaction(streams, m) == Ok::<Reaction, Failure>(
            Reaction::Nothing,
        ),
{
}

/// Whether a message has a command that there is, and a body that goes with it.
pub open spec fn well_made(m: Message) -> bool {
    ||| m.header.command == CMD_SYN
    ||| m.header.command == CMD_FIN
    ||| m.header.command == CMD_PSH
    ||| m.header.command == CMD_NOP
    ||| m.header.command == CMD_MORE && m.body.len() == 2
    ||| m.header.command == CMD_PING
    ||| m.header.command == CMD_PONG
}

/// A message ends the multiplexer only where it is faulty: where it is not well made, or opens a
/// stream that is open. One whose command there is not is named in the failure.
pub proof fn law_only_faulty_messages_fail(streams: Map<u32, u64>, m: Message)
    ensures
        reaction(streams, m) is Err <==> {
            ||| !well_made(m)
            ||| m.header.command == CMD_SYN && streams.dom().contains(m.header.stream_id)
        },
        reaction(streams, m) matches Err(f) ==> f.kind == ErrorKind::InvalidData,
        !well_made(m) && m.header.command != CMD_MORE ==> (reaction(streams, m) matches Err(f)
            && f.message == "invalid command "@ + decimal(m.header.command as nat)),
{
}

/// All that an end makes for the other is well made: announcements, data, closing frames, grants,
/// pings and pongs.
pub proof fn law_what_is_sent_is_well_made(stream_id: u32, body: Seq<u8>, grant: u16)
    ensures
        well_made(message(stream_id, CMD_SYN, body)),
        well_made(message(stream_id, CMD_PSH, body)),
        well_made(message(stream_id, CMD_FIN, Seq::empty())),
        well_made(message(stream_id, CMD_MORE, le16(grant))),
        well_made(message(0, CMD_PING, body)),
        well_made(message(0, CMD_PONG, Seq::empty())),
{
}

/// What opening a stream does: the stream is open, on a link of its own, and all others are as
/// they were.
pub proof fn law_opening_adds_one_stream(state: SessionState, stream_id: u32, other: u32)
    requires
        state.valid(),
        state.next_link < u64::MAX,
    ensures
        ({
            let next = state.opened(stream_id);
            &&& next.streams.dom().contains(stream_id)
            &&& next.streams[stream_id] == state.next_link
            &&& next.next_link == state.next_link + 1
            &&& other != stream_id ==> {
                &&& next.streams.dom().contains(other) == state.streams.dom().contains(other)
                &&& state.streams.dom().contains(other) ==> next.streams[other]
                    == state.streams[other] && next.streams[other] != next.streams[stream_id]
            }
        }),
{
}

/// An offer that is queued opens the stream; any other leaves the session as it is.
pub proof fn law_only_queued_offers_open_streams(state: SessionState, stream_id: u32)
    ensures
        state.settled(stream_id, OfferOutcome::Queued) == state.opened(stream_id),
        state.settled(stream_id, OfferOutcome::Full) == state,
        state.settled(stream_id, OfferOutcome::Closed) == state,
{
}

/// What is valid: links are told apart, and none is numbered ahead.
pub proof fn law_valid_sessions_tell_links_apart(state: SessionState, id: u32, other: u32)
    requires
        state.valid(),
        state.streams.dom().contains(id),
        state.streams.dom().contains(other),
    ensures
        state.streams[id] == state.streams[other] ==> id == other,
        state.streams[id] < state.next_link,
{
}

/// A session without streams is valid.
pub proof fn law_fresh_session_is_valid()
    ensures
        (SessionState { streams: Map::empty(), next_link: 0 }).valid(),
{
}

/// There is room for a stream as long as some identifier is free.
pub proof fn law_free_identifier_makes_room(state: SessionState, id: u32)
    requires
        !state.streams.dom().contains(id),
    ensures
        state.has_room(),
{
}

/// Every message is written: its bytes go out once, or twice where it closes an open stream.
pub proof fn law_messages_are_written(streams: Map<u32, u64>, m: Message)
    ensures
        ({
            let twice = m.header.command == CMD_FIN && streams.dom().contains(m.header.stream_id);
            let bytes = written(streams, m);
            let n = m.wire().len() as int;
            &&& bytes.len() == (if twice {
                2 * n
            } else {
                n
            })
            &&& bytes.take(n) == m.wire()
            &&& twice ==> bytes.skip(n) == m.wire()
        }),
{
    let n = m.wire().len() as int;
    assert(written(streams, m).take(n) =~= m.wire());
    assert((m.wire() + m.wire()).skip(n) =~= m.wire());
}

/// The open streams of a multiplexer.
pub struct Session {
    streams: StreamMap,
    next_link: u64,
}

impl View for Session {
    type V = SessionState;

    closed spec fn view(&self) -> SessionState {
        SessionState { streams: streams_of(self.streams), next_link: self.next_link as int }
    }
}

/// `rand::Rng::gen` on `rand::thread_rng` draws a number. Nothing is claimed of which.
#[verifier::external_body]
fn random_id() -> (id: u32) {
    rand::thread_rng().gen()
}

impl Session {
    /// A session without streams.
    pub fn new() -> (s: Session)
        ensures
            s@ == (SessionState { streams: Map::empty(), next_link: 0 }),
            s@.valid(),
    {
        Session { streams: streams_new(), next_link: 0 }
    }

    /// The link of an open stream.
    pub fn link(&self, stream_id: u32) -> (r: Option<u64>)
        ensures
            r == (if self@.streams.dom().contains(stream_id) {
                Some(self@.streams[stream_id])
            } else {
                None
            }),
    {
        streams_get(&self.streams, stream_id)
    }

    /// Whether a stream could be opened under the given identifier.
    pub fn is_free(&self, stream_id: u32) -> (b: bool)
        ensures
            b == !self@.streams.dom().contains(stream_id),
    {
        !streams_contain(&self.streams, stream_id)
    }

    /// Whether the numbers of links have not run out.
    pub fn has_links(&self) -> (b: bool)
        ensures
            b == (self@.next_link < u64::MAX),
    {
        self.next_link < u64::MAX
    }

    /// Draws identifiers until one is free. After more draws than anybody could wait for, goes
    /// through all identifiers instead: there is none to pick only where all are taken.
    pub fn pick_stream_id(&self) -> (r: Option<u32>)
        ensures
            match r {
                Some(id) => !self@.streams.dom().contains(id),
                None => !self@.has_room(),
            },
    {
        let mut draws: u64 = u64::MAX;
        while draws > 0
            decreases draws,
        {
            let id: u32 = random_id();
            if self.is_free(id) {
                return Some(id);
            }
            draws = draws - 1;
        }
        let mut id: u32 = 0;
        while id < u32::MAX
            invariant
                forall|taken: u32| taken < id ==> self@.streams.dom().contains(taken),
            decreases u32::MAX - id,
        {
            if self.is_free(id) {
                return Some(id);
            }
            id = id + 1;
        }
        if self.is_free(id) {
            Some(id)
        } else {
            None
        }
    }

    /// Makes the frame that announces a stream to the other end.
    pub fn announce(stream_id: u32, metadata: &Bytes) -> (f: Frame)
        ensures
            f@ == message(stream_id, CMD_SYN, contents(*metadata)),
            f.header.stream_id == stream_id,
            contents(f.body) == contents(*metadata),
            forall|streams: Map<u32, u64>|
                !streams.dom().contains(stream_id) ==> #[trigger] reaction(streams, f@) == Ok::<
                    Reaction,
                    Failure,
                >(Reaction::Offer { stream_id, metadata: contents(*metadata) }),
    {
        let mut f = Frame::new_empty(stream_id, CMD_SYN);
        f.body = metadata.clone();
        f.header.body_len = (metadata.len() % 0x1_0000) as u16;
        f
    }

    /// Enters a stream that this end opens, and gives the number of its link.
    pub fn register(&mut self, stream_id: u32) -> (link: u64)
        requires
            !old(self)@.streams.dom().contains(stream_id),
            old(self)@.next_link < u64::MAX,
        ensures
            link == old(self)@.next_link,
            final(self)@ == old(self)@.opened(stream_id),
            old(self)@.valid() ==> final(self)@.valid(),
    {
        proof {
            if self@.valid() {
                law_opening_keeps_session_valid(self@, stream_id);
            }
        }
        let link: u64 = self.next_link;
        let _ = streams_insert(&mut self.streams, stream_id, link);
        self.next_link = link + 1;
        link
    }

    /// Opens a stream from this end, all in one step: picks a free identifier for it, enters it,
    /// and makes the frame that announces it. Gives the identifier, the number of the link and
    /// the frame, unless all identifiers are taken or all numbers of links used up.
    pub fn open_stream(&mut self, metadata: &Bytes) -> (r: Option<(u32, u64, Frame)>)
        ensures
            match r {
                Some((id, link, f)) => {
                    &&& !old(self)@.streams.dom().contains(id)
                    &&& link == old(self)@.next_link
                    &&& final(self)@ == old(self)@.opened(id)
                    &&& f@ == message(id, CMD_SYN, contents(*metadata))
                },
                None => {
                    &&& !old(self)@.has_room() || old(self)@.next_link >= u64::MAX
                    &&& final(self)@ == old(self)@
                },
            },
            old(self)@.has_room() && old(self)@.next_link < u64::MAX ==> r is Some,
            old(self)@.valid() ==> final(self)@.valid(),
    {
        if !self.has_links() {
            return None;
        }
        match self.pick_stream_id() {
            Some(id) => {
                let link: u64 = self.register(id);
                Some((id, link, Session::announce(id, metadata)))
            },
            None => None,
        }
    }

    /// Decides how a frame is written. A frame that closes a stream also takes the stream out.
    pub fn on_outgoing(&mut self, frame: &Frame) -> (r: Outgoing)
        ensures
            final(self)@ == old(self)@.after(frame@),
            old(self)@.valid() ==> final(self)@.valid(),
            r.wire@ == written(old(self)@.streams, frame@),
            r.unlinked == (if frame.header.command == CMD_FIN
                && old(self)@.streams.dom().contains(frame.header.stream_id) {
                Some(old(self)@.streams[frame.header.stream_id])
            } else {
                None
            }),
            r.unlinked matches Some(link) ==> reaction(old(self)@.streams, frame@) == Ok::<
                Reaction,
                Failure,
            >(Reaction::Unlink { link }),
            r.unlinked is None ==> final(self)@ == old(self)@,
    {
        proof {
            if self@.valid() {
                law_messages_keep_session_valid(self@, frame@);
            }
        }
        let mut wire: Vec<u8> = frame.bytes();
        let mut unlinked: Option<u64> = None;
        if frame.header.command == CMD_FIN {
            unlinked = streams_remove(&mut self.streams, frame.header.stream_id);
            if unlinked.is_some() {
                let mut again: Vec<u8> = frame.bytes();
                wire.append(&mut again);
            }
        }
        Outgoing { wire, unlinked }
    }

    /// Decides what a frame from the other end calls for.
    pub fn on_incoming(&mut self, frame: Frame) -> (r: Result<Incoming, MuxError>)
        ensures
            final(self)@ == old(self)@.after(frame@),
            old(self)@.valid() ==> final(self)@.valid(),
            match r {
                Ok(i) => reaction(old(self)@.streams, frame@) == Ok::<Reaction, Failure>(i@),
                Err(e) => reaction(old(self)@.streams, frame@) == Err::<Reaction, Failure>(e@),
            },
    {
        proof {
            if self@.valid() {
                law_messages_keep_session_valid(self@, frame@);
            }
        }
        let id: u32 = frame.header.stream_id;
        let command: u8 = frame.header.command;
        if command == CMD_SYN {
            if streams_contain(&self.streams, id) {
                return Err(MuxError::new(ErrorKind::InvalidData, "duplicate SYN"));
            }
            Ok(Incoming::Offer { stream_id: id, metadata: frame.body })
        } else if command == CMD_MORE {
            let body: &[u8] = &frame.body;
            if body.len() != 2 {
                return Err(
                    MuxError::new(ErrorKind::InvalidData, "corrupt window increase message"),
                );
            }
            let permits: u16 = body[0] as u16 + 0x100 * body[1] as u16;
            match streams_get(&self.streams, id) {
                Some(link) => Ok(Incoming::Grant { link, permits }),
                None => Ok(Incoming::Stray),
            }
        } else if command == CMD_PSH {
            match streams_get(&self.streams, id) {
                Some(link) => Ok(Incoming::Deliver { link, frame }),
                None => Ok(Incoming::Stray),
            }
        } else if command == CMD_FIN {
            match streams_remove(&mut self.streams, id) {
                Some(link) => Ok(Incoming::Unlink { link }),
                None => Ok(Incoming::Nothing),
            }
        } else if command == CMD_NOP {
            Ok(Incoming::Nothing)
        } else if command == CMD_PING {
            Ok(Incoming::CheckPing { body: frame.body })
        } else if command == CMD_PONG {
            Ok(Incoming::Pong)
        } else {
            let number: String = decimal_string(command as u64);
            Err(
                MuxError::with_detail(
                    ErrorKind::InvalidData,
                    "invalid command ",
                    number.as_str(),
                ),
            )
        }
    }

    /// Settles the offer of a stream that the other end opened: a stream that waits to be
    /// accepted is entered and gets a link, one that finds no room is forgotten.
    pub fn on_offered(&mut self, stream_id: u32, outcome: OfferOutcome) -> (r: Result<
        Option<u64>,
        MuxError,
    >)
        requires
            outcome == OfferOutcome::Queued ==> old(self)@.next_link < u64::MAX,
        ensures
            final(self)@ == old(self)@.settled(stream_id, outcome),
            old(self)@.valid() ==> final(self)@.valid(),
            match r {
                Ok(Some(link)) => outcome == OfferOutcome::Queued && link == old(self)@.next_link,
                Ok(None) => outcome == OfferOutcome::Full,
                Err(e) => outcome == OfferOutcome::Closed && e@ == failure(
                    ErrorKind::NotConnected,
                    "dead"@,
                ),
            },
    {
        proof {
            if self@.valid() && self@.next_link < u64::MAX {
                law_opening_keeps_session_valid(self@, stream_id);
            }
        }
        match outcome {
            OfferOutcome::Queued => {
                let link: u64 = self.next_link;
                let _ = streams_insert(&mut self.streams, stream_id, link);
                self.next_link = link + 1;
                Ok(Some(link))
            },
            OfferOutcome::Full => Ok(None),
            OfferOutcome::Closed => Err(MuxError::new(ErrorKind::NotConnected, "dead")),
        }
    }
}

/// Answers a ping whose body was read as `parsed`: the announced pause until the next ping, or
/// what is wrong with the body.
pub fn answer_ping(parsed: Result<u64, String>) -> (r: Result<Frame, MuxError>)
    ensures
        match (parsed, r) {
            (Ok(_), Ok(f)) => f@ == message(0, CMD_PONG, Seq::<u8>::empty()),
            (Err(detail), Err(e)) => e@ == failure(
                ErrorKind::InvalidData,
                "invalid PING data "@ + detail@,
            ),
            _ => false,
        },
        r is Ok <==> parsed is Ok,
        r matches Ok(f) ==> forall|streams: Map<u32, u64>| #[trigger]
            reaction(streams, f@) == Ok::<Reaction, Failure>(Reaction::Pong),
{
    match parsed {
        Ok(_) => Ok(Frame::new_empty(0, CMD_PONG)),
        Err(detail) => Err(
            MuxError::with_detail(ErrorKind::InvalidData, "invalid PING data ", detail.as_str()),
        ),
    }
}

/// The failure of a multiplexer that nobody can ask for streams any more.
pub fn open_requests_ended() -> (e: MuxError)
    ensures
        e@ == failure(ErrorKind::BrokenPipe, "open request channel died"@),
{
    MuxError::new(ErrorKind::BrokenPipe, "open request channel died")
}

} // verus!
