//! What two multiplexers that talk to each other achieve.

use crate::error::{ErrorKind, Failure};
use crate::frame::{
    le16, law_messages_read_back, message, read_all, wire_all, Message, CMD_FIN, CMD_MORE,
    CMD_PING, CMD_PONG, CMD_PSH, CMD_SYN,
};
use crate::session::{
    failure, law_data_goes_to_its_stream, law_messages_keep_session_valid,
    law_only_faulty_messages_fail, law_opening_keeps_session_valid, reaction, streams_after,
    well_made, written, OfferOutcome, Reaction, SessionState,
};
use crate::window::MSS;
use vstd::prelude::*;

verus! {

/// One thing that happens to the session of a multiplexer.
pub enum Step {
    /// A message arrives. Where it opens a stream, `outcome` tells how the offer of the stream
    /// goes.
    Arrive { message: Message, outcome: OfferOutcome },
    /// This end opens a stream.
    Open { stream_id: u32 },
    /// A message departs.
    Depart { message: Message },
}

/// The session after a step, unless the step ends the multiplexer. This end opens streams under
/// free identifiers only.
pub open spec fn session_upon(state: SessionState, s: Step) -> Option<SessionState> {
    match s {
        Step::Arrive { message: m, outcome } => match reaction(state.streams, m) {
            Err(_) => None,
            Ok(Reaction::Offer { stream_id, .. }) => if outcome == OfferOutcome::Closed {
                None
            } else {
                Some(state.settled(stream_id, outcome))
            },
            Ok(_) => Some(state.after(m)),
        },
        Step::Open { stream_id } => if state.streams.dom().contains(stream_id) {
            None
        } else {
            Some(state.opened(stream_id))
        },
        Step::Depart { message: m } => Some(state.after(m)),
    }
}

/// Whether a multiplexer lives through a run of steps, and does not run out of links.
pub open spec fn survives(state: SessionState, steps: Seq<Step>) -> bool
    decreases steps.len(),
{
    &&& state.next_link <= u64::MAX
    &&& steps.len() > 0 ==> match session_upon(state, steps[0]) {
        Some(next) => survives(next, steps.drop_first()),
        None => false,
    }
}

/// Every step that a multiplexer lives through keeps its session valid: streams never come to
/// share a link.
pub proof fn law_session_stays_valid(state: SessionState, s: Step)
    requires
        state.valid(),
        state.next_link < u64::MAX,
    ensures
        session_upon(state, s) matches Some(next) ==> next.valid(),
{
    match s {
        Step::Arrive { message: m, .. } => {
            law_messages_keep_session_valid(state, m);
            law_opening_keeps_session_valid(state, m.header.stream_id);
        },
        Step::Open { stream_id } => {
            law_opening_keeps_session_valid(state, stream_id);
        },
        Step::Depart { message: m } => {
            law_messages_keep_session_valid(state, m);
        },
    }
}

/// The first step of a run that a multiplexer lives through leaves a valid session, also where no
/// links are left.
proof fn lemma_survivor_is_valid(state: SessionState, steps: Seq<Step>)
    requires
        state.valid(),
        survives(state, steps),
        steps.len() > 0,
    ensures
        session_upon(state, steps[0]) matches Some(next) && next.valid() && survives(
            next,
            steps.drop_first(),
        ),
{
    let next = session_upon(state, steps[0])->0;
    assert(survives(next, steps.drop_first()));
    if state.next_link < u64::MAX {
        law_session_stays_valid(state, steps[0]);
    } else {
        match steps[0] {
            Step::Arrive { message: m, .. } => {
                law_messages_keep_session_valid(state, m);
            },
            Step::Depart { message: m } => {
                law_messages_keep_session_valid(state, m);
            },
            Step::Open { .. } => {},
        }
    }
}

/// The data that a step brings to a link.
pub open spec fn data_for(streams: Map<u32, u64>, s: Step, link: u64) -> Seq<u8> {
    match s {
        Step::Arrive { message: m, .. } => match reaction(streams, m) {
            Ok(Reaction::Deliver { link: l, message: d }) => if l == link {
                d.body
            } else {
                Seq::empty()
            },
            _ => Seq::empty(),
        },
        _ => Seq::empty(),
    }
}

/// The data that a run of steps brings to a link, in order.
pub open spec fn delivered(state: SessionState, steps: Seq<Step>, link: u64) -> Seq<u8>
    decreases steps.len(),
{
    if steps.len() == 0 {
        Seq::empty()
    } else {
        match session_upon(state, steps[0]) {
            Some(next) => data_for(state.streams, steps[0], link) + delivered(
                next,
                steps.drop_first(),
                link,
            ),
            None => Seq::empty(),
        }
    }
}

/// Whether a message carries data of a stream.
pub open spec fn carries(m: Message, stream_id: u32) -> bool {
    m.header.command == CMD_PSH && m.header.stream_id == stream_id
}

/// Whether a message closes a stream.
pub open spec fn closes(m: Message, stream_id: u32) -> bool {
    m.header.command == CMD_FIN && m.header.stream_id == stream_id
}

/// The data of a stream in a run of messages: the bodies of its data frames, one after the other,
/// until the stream is closed.
pub open spec fn payload(ms: Seq<Message>, stream_id: u32) -> Seq<u8>
    decreases ms.len(),
{
    if ms.len() == 0 || closes(ms[0], stream_id) {
        Seq::empty()
    } else {
        (if carries(ms[0], stream_id) {
            ms[0].body
        } else {
            Seq::empty()
        }) + payload(ms.drop_first(), stream_id)
    }
}

/// The messages that arrive in a run of steps.
pub open spec fn arrived(steps: Seq<Step>) -> Seq<Message>
    decreases steps.len(),
{
    if steps.len() == 0 {
        Seq::empty()
    } else {
        (match steps[0] {
            Step::Arrive { message: m, .. } => seq![m],
            _ => Seq::empty(),
        }) + arrived(steps.drop_first())
    }
}

/// Whether a step closes a stream, from either end.
pub open spec fn ends(s: Step, stream_id: u32) -> bool {
    match s {
        Step::Arrive { message: m, .. } => closes(m, stream_id),
        Step::Open { .. } => false,
        Step::Depart { message: m } => closes(m, stream_id),
    }
}

/// The data that arrives for a stream in a run of steps, until either end closes the stream.
pub open spec fn received(steps: Seq<Step>, stream_id: u32) -> Seq<u8>
    decreases steps.len(),
{
    if steps.len() == 0 || ends(steps[0], stream_id) {
        Seq::empty()
    } else {
        (match steps[0] {
            Step::Arrive { message: m, .. } => if carries(m, stream_id) {
                m.body
            } else {
                Seq::empty()
            },
            _ => Seq::empty(),
        }) + received(steps.drop_first(), stream_id)
    }
}

/// Whether this end does not close a stream in a run of steps.
pub open spec fn left_open(steps: Seq<Step>, stream_id: u32) -> bool {
    forall|i: int|
        0 <= i < steps.len() ==> !((#[trigger] steps[i]) is Depart && ends(steps[i], stream_id))
}

/// Whether a link was given out and belongs to no stream any more.
pub open spec fn retired(state: SessionState, link: u64) -> bool {
    &&& link < state.next_link
    &&& forall|id: u32|
        #![trigger state.streams[id]]
        state.streams.dom().contains(id) ==> state.streams[id] != link
}

/// A stream that was closed gets nothing more, even if its identifier is used again by either
/// end.
pub proof fn law_closed_stream_gets_nothing(state: SessionState, steps: Seq<Step>, link: u64)
    requires
        state.valid(),
        retired(state, link),
        survives(state, steps),
    ensures
        delivered(state, steps, link) == Seq::<u8>::empty(),
    decreases steps.len(),
{
    if steps.len() > 0 {
        let next = session_upon(state, steps[0])->0;
        lemma_survivor_is_valid(state, steps);
        assert(retired(next, link));
        law_closed_stream_gets_nothing(next, steps.drop_first(), link);
    }
}

/// A stream gets its own data and nothing else: what reaches its link is the data that arrives for
/// it until either end closes it, whatever else arrives, departs or is opened meanwhile.
pub proof fn law_stream_gets_its_data(state: SessionState, steps: Seq<Step>, stream_id: u32)
    requires
        state.valid(),
        state.streams.dom().contains(stream_id),
        survives(state, steps),
    ensures
        delivered(state, steps, state.streams[stream_id]) == received(steps, stream_id),
    decreases steps.len(),
{
    let link = state.streams[stream_id];
    if steps.len() > 0 {
        let rest = steps.drop_first();
        let next = session_upon(state, steps[0])->0;
        lemma_survivor_is_valid(state, steps);
        if ends(steps[0], stream_id) {
            assert(retired(next, link));
            law_closed_stream_gets_nothing(next, rest, link);
        } else {
            assert(next.streams.dom().contains(stream_id) && next.streams[stream_id] == link);
            law_stream_gets_its_data(next, rest, stream_id);
        }
    } else {
        assert(delivered(state, steps, link) =~= received(steps, stream_id));
    }
}

proof fn lemma_left_open_afterwards(steps: Seq<Step>, stream_id: u32)
    requires
        steps.len() > 0,
    ensures
        left_open(steps, stream_id) ==> left_open(steps.drop_first(), stream_id),
{
    let rest = steps.drop_first();
    if left_open(steps, stream_id) {
        assert forall|i: int| 0 <= i < rest.len() implies !((#[trigger] rest[i]) is Depart && ends(
            rest[i],
            stream_id,
        )) by {
            assert(rest[i] == steps[i + 1]);
        }
    }
}

/// What a stream receives is what its messages carry: a part of it from the front, and all of it
/// unless this end closes the stream.
pub proof fn law_received_is_carried(steps: Seq<Step>, stream_id: u32)
    ensures
        received(steps, stream_id).is_prefix_of(payload(arrived(steps), stream_id)),
        left_open(steps, stream_id) ==> received(steps, stream_id) == payload(
            arrived(steps),
            stream_id,
        ),
    decreases steps.len(),
{
    if steps.len() > 0 {
        let rest = steps.drop_first();
        law_received_is_carried(rest, stream_id);
        lemma_left_open_afterwards(steps, stream_id);
        match steps[0] {
            Step::Arrive { message: m, .. } => {
                assert(arrived(steps)[0] == m);
                assert(arrived(steps).drop_first() =~= arrived(rest));
            },
            _ => {
                assert(arrived(steps) =~= arrived(rest));
                assert(!ends(steps[0], stream_id) ==> received(steps, stream_id) =~= received(
                    rest,
                    stream_id,
                ));
                assert(left_open(steps, stream_id) ==> !(steps[0] is Depart && ends(
                    steps[0],
                    stream_id,
                )));
            },
        }
    }
}

/// The first messages of a run carry the first part of what the run carries.
proof fn lemma_payload_prefix(ms: Seq<Message>, whole: Seq<Message>, stream_id: u32)
    requires
        ms.is_prefix_of(whole),
    ensures
        payload(ms, stream_id).is_prefix_of(payload(whole, stream_id)),
    decreases ms.len(),
{
    if ms.len() > 0 {
        assert(ms[0] == whole[0]);
        assert(ms.drop_first().is_prefix_of(whole.drop_first()));
        lemma_payload_prefix(ms.drop_first(), whole.drop_first(), stream_id);
    }
}

/// The streams that messages announce, in order, each with its metadata.
pub open spec fn announced(ms: Seq<Message>) -> Seq<(u32, Seq<u8>)>
    decreases ms.len(),
{
    if ms.len() == 0 {
        Seq::empty()
    } else {
        (if ms[0].header.command == CMD_SYN {
            seq![(ms[0].header.stream_id, ms[0].body)]
        } else {
            Seq::empty()
        }) + announced(ms.drop_first())
    }
}

/// The streams that a run of steps offers to whoever accepts streams, in order, each with its
/// metadata.
pub open spec fn offered(state: SessionState, steps: Seq<Step>) -> Seq<(u32, Seq<u8>)>
    decreases steps.len(),
{
    if steps.len() == 0 {
        Seq::empty()
    } else {
        match session_upon(state, steps[0]) {
            Some(next) => (match steps[0] {
                Step::Arrive { message: m, .. } => match reaction(state.streams, m) {
                    Ok(Reaction::Offer { stream_id, metadata }) => seq![(stream_id, metadata)],
                    _ => Seq::empty(),
                },
                _ => Seq::empty(),
            }) + offered(next, steps.drop_first()),
            None => Seq::empty(),
        }
    }
}

/// The streams that wait to be accepted after a run of steps, in order, each with its metadata:
/// those that were offered and found room.
pub open spec fn queued(state: SessionState, steps: Seq<Step>) -> Seq<(u32, Seq<u8>)>
    decreases steps.len(),
{
    if steps.len() == 0 {
        Seq::empty()
    } else {
        match session_upon(state, steps[0]) {
            Some(next) => (match steps[0] {
                Step::Arrive { message: m, outcome } => match reaction(state.streams, m) {
                    Ok(Reaction::Offer { stream_id, metadata }) => if outcome
                        == OfferOutcome::Queued {
                        seq![(stream_id, metadata)]
                    } else {
                        Seq::empty()
                    },
                    _ => Seq::empty(),
                },
                _ => Seq::empty(),
            }) + queued(next, steps.drop_first()),
            None => Seq::empty(),
        }
    }
}

/// Whether there is room for every stream that arrives in a run of steps.
pub open spec fn roomy(steps: Seq<Step>) -> bool {
    forall|i: int|
        0 <= i < steps.len() ==> ((#[trigger] steps[i]) matches Step::Arrive { outcome, .. }
            ==> outcome == OfferOutcome::Queued)
}

/// A multiplexer that lives through a run of steps has offered each stream that was announced to
/// it, once, in order and with its metadata, and all of them wait to be accepted where there is
/// room.
pub proof fn law_announced_streams_are_offered(state: SessionState, steps: Seq<Step>)
    requires
        survives(state, steps),
    ensures
        offered(state, steps) == announced(arrived(steps)),
        roomy(steps) ==> queued(state, steps) == offered(state, steps),
    decreases steps.len(),
{
    if steps.len() > 0 {
        let rest = steps.drop_first();
        let next = session_upon(state, steps[0])->0;
        law_announced_streams_are_offered(next, rest);
        assert(roomy(steps) ==> roomy(rest)) by {
            assert forall|i: int| roomy(steps) && 0 <= i < rest.len() implies ((#[trigger]
            rest[i]) matches Step::Arrive { outcome, .. } ==> outcome
                == OfferOutcome::Queued) by {
                assert(rest[i] == steps[i + 1]);
            }
        }
        match steps[0] {
            Step::Arrive { message: m, outcome } => {
                assert(arrived(steps)[0] == m);
                assert(arrived(steps).drop_first() =~= arrived(rest));
                assert(roomy(steps) ==> outcome == OfferOutcome::Queued);
            },
            _ => {
                assert(arrived(steps) =~= arrived(rest));
                assert(offered(state, steps) =~= offered(next, rest));
                assert(queued(state, steps) =~= queued(next, rest));
            },
        }
    }
}

proof fn lemma_announced_prefix(ms: Seq<Message>, whole: Seq<Message>)
    requires
        ms.is_prefix_of(whole),
    ensures
        announced(ms).is_prefix_of(announced(whole)),
    decreases ms.len(),
{
    if ms.len() > 0 {
        assert(ms[0] == whole[0]);
        assert(ms.drop_first().is_prefix_of(whole.drop_first()));
        lemma_announced_prefix(ms.drop_first(), whole.drop_first());
    }
}

/// The announcements of streams that are opened one after the other.
pub open spec fn announcements(openings: Seq<(u32, Seq<u8>)>) -> Seq<Message> {
    openings.map_values(|o: (u32, Seq<u8>)| message(o.0, CMD_SYN, o.1))
}

/// Announcements name the streams that are opened, in order of opening and with their metadata.
pub proof fn law_announcements_name_streams(openings: Seq<(u32, Seq<u8>)>)
    ensures
        announced(announcements(openings)) == openings,
    decreases openings.len(),
{
    let ms = announcements(openings);
    if openings.len() > 0 {
        law_announcements_name_streams(openings.drop_first());
        assert(ms.drop_first() =~= announcements(openings.drop_first()));
        assert(seq![openings[0]] + openings.drop_first() =~= openings);
    } else {
        assert(announced(ms) =~= openings);
    }
}

/// A message that leaves a multiplexer, and the streams that are open when it does.
pub struct Departure {
    pub message: Message,
    pub streams: Map<u32, u64>,
}

/// The bytes that a run of departures puts on the wire.
pub open spec fn sent(departures: Seq<Departure>) -> Seq<u8>
    decreases departures.len(),
{
    if departures.len() == 0 {
        Seq::empty()
    } else {
        written(departures[0].streams, departures[0].message) + sent(departures.drop_first())
    }
}

/// The messages of a run of departures.
pub open spec fn departing(departures: Seq<Departure>) -> Seq<Message> {
    departures.map_values(|d: Departure| d.message)
}

/// The messages on the wire: those of the departures, the ones that close an open stream twice.
spec fn on_wire(departures: Seq<Departure>) -> Seq<Message>
    decreases departures.len(),
{
    if departures.len() == 0 {
        Seq::empty()
    } else {
        let d = departures[0];
        let rest = on_wire(departures.drop_first());
        if d.message.header.command == CMD_FIN && d.streams.dom().contains(
            d.message.header.stream_id,
        ) {
            seq![d.message, d.message] + rest
        } else {
            seq![d.message] + rest
        }
    }
}

proof fn lemma_on_wire(departures: Seq<Departure>, stream_id: u32)
    requires
        forall|i: int|
            0 <= i < departures.len() ==> (#[trigger] departures[i]).message.well_sized(),
    ensures
        wire_all(on_wire(departures)) == sent(departures),
        payload(on_wire(departures), stream_id) == payload(departing(departures), stream_id),
        announced(on_wire(departures)) == announced(departing(departures)),
        forall|i: int|
            0 <= i < on_wire(departures).len() ==> (#[trigger] on_wire(
                departures,
            )[i]).well_sized(),
    decreases departures.len(),
{
    if departures.len() == 0 {
        assert(wire_all(on_wire(departures)) =~= sent(departures));
    } else {
        let m = departures[0].message;
        let tail = departures.drop_first();
        assert forall|i: int| 0 <= i < tail.len() implies (#[trigger]
        tail[i]).message.well_sized() by {
            assert(tail[i] == departures[i + 1]);
        }
        lemma_on_wire(tail, stream_id);
        let rest = on_wire(tail);
        let once = seq![m] + rest;
        let twice = seq![m, m] + rest;
        assert(once.drop_first() =~= rest);
        assert(twice.drop_first() =~= once);
        assert(wire_all(once) =~= m.wire() + wire_all(rest));
        assert(wire_all(twice) =~= m.wire() + m.wire() + wire_all(rest));
        assert(departing(departures).drop_first() =~= departing(tail));
        assert(departing(departures)[0] == m);
        assert(once[0] == m && twice[0] == m);
        let head = if carries(m, stream_id) {
            m.body
        } else {
            Seq::empty()
        };
        if m.header.command == CMD_FIN {
            assert(announced(once) =~= announced(rest));
            assert(announced(twice) =~= announced(rest));
            assert(announced(departing(departures)) =~= announced(departing(tail)));
        }
        if !closes(m, stream_id) {
            assert(payload(once, stream_id) == head + payload(rest, stream_id));
            assert(payload(twice, stream_id) == head + payload(once, stream_id));
            if m.header.command == CMD_FIN {
                assert(payload(twice, stream_id) =~= payload(once, stream_id));
            }
        }
    }
}

/// Data comes out of a stream as it was written: what one end sends on a stream until it closes
/// it, the other end hands to the stream's reader, byte for byte and in order, although the
/// frames of all streams share one wire. As long as some of it is under way, or where the other
/// end closes the stream first, what comes out is a part of it from the front.
pub proof fn law_data_comes_out_as_written(
    departures: Seq<Departure>,
    state: SessionState,
    steps: Seq<Step>,
    stream_id: u32,
)
    requires
        forall|i: int|
            0 <= i < departures.len() ==> (#[trigger] departures[i]).message.well_sized(),
        arrived(steps).is_prefix_of(read_all(sent(departures))),
        state.valid(),
        state.streams.dom().contains(stream_id),
        survives(state, steps),
    ensures
        delivered(state, steps, state.streams[stream_id]).is_prefix_of(
            payload(departing(departures), stream_id),
        ),
        arrived(steps) == read_all(sent(departures)) && left_open(steps, stream_id) ==> delivered(
            state,
            steps,
            state.streams[stream_id],
        ) == payload(departing(departures), stream_id),
{
    lemma_on_wire(departures, stream_id);
    law_messages_read_back(on_wire(departures));
    law_stream_gets_its_data(state, steps, stream_id);
    law_received_is_carried(steps, stream_id);
    lemma_payload_prefix(arrived(steps), on_wire(departures), stream_id);
}

/// What arrives of a run that starts with a message other than a closing one: that message, then
/// what arrives of the others.
proof fn lemma_first_arrival(departures: Seq<Departure>, steps: Seq<Step>)
    requires
        departures.len() > 0,
        departures[0].message.header.command != CMD_FIN,
        forall|i: int|
            0 <= i < departures.len() ==> (#[trigger] departures[i]).message.well_sized(),
        arrived(steps).is_prefix_of(read_all(sent(departures))),
        steps.len() > 0,
        steps[0] is Arrive,
    ensures
        steps[0]->Arrive_message == departures[0].message,
        arrived(steps.drop_first()).is_prefix_of(read_all(sent(departures.drop_first()))),
        arrived(steps) == read_all(sent(departures)) ==> arrived(steps.drop_first()) == read_all(
            sent(departures.drop_first()),
        ),
        forall|i: int|
            0 <= i < departures.drop_first().len() ==> (#[trigger]
            departures.drop_first()[i]).message.well_sized(),
{
    let m = departures[0].message;
    let tail = departures.drop_first();
    let rest = steps.drop_first();
    assert forall|i: int| 0 <= i < tail.len() implies (#[trigger]
    tail[i]).message.well_sized() by {
        assert(tail[i] == departures[i + 1]);
    }
    lemma_on_wire(departures, 0);
    lemma_on_wire(tail, 0);
    law_messages_read_back(on_wire(departures));
    law_messages_read_back(on_wire(tail));
    assert(on_wire(departures) == seq![m] + on_wire(tail));
    assert(arrived(steps) == seq![steps[0]->Arrive_message] + arrived(rest));
    assert(on_wire(departures).drop_first() =~= on_wire(tail));
    assert(arrived(steps).drop_first() =~= arrived(rest));
    assert(arrived(steps)[0] == on_wire(departures)[0]);
}

/// A stream that one end opens reaches the other end with its metadata, and once it is queued
/// there, everything that is written to it until it is closed comes out of it.
pub proof fn law_opened_stream_delivers(
    departures: Seq<Departure>,
    state: SessionState,
    steps: Seq<Step>,
    stream_id: u32,
    metadata: Seq<u8>,
)
    requires
        departures.len() > 0,
        departures[0].message == message(stream_id, CMD_SYN, metadata),
        forall|i: int|
            0 <= i < departures.len() ==> (#[trigger] departures[i]).message.well_sized(),
        arrived(steps).is_prefix_of(read_all(sent(departures))),
        steps.len() > 0,
        steps[0] matches Step::Arrive { outcome, .. } && outcome == OfferOutcome::Queued,
        state.valid(),
        !state.streams.dom().contains(stream_id),
        survives(state, steps),
    ensures
        reaction(state.streams, steps[0]->Arrive_message) == Ok::<Reaction, Failure>(
            Reaction::Offer { stream_id, metadata },
        ),
        delivered(state, steps, state.next_link as u64).is_prefix_of(
            payload(departing(departures.drop_first()), stream_id),
        ),
        arrived(steps) == read_all(sent(departures)) && left_open(steps, stream_id) ==> delivered(
            state,
            steps,
            state.next_link as u64,
        ) == payload(departing(departures.drop_first()), stream_id),
{
    let link = state.next_link as u64;
    let tail = departures.drop_first();
    let rest = steps.drop_first();
    let next = state.opened(stream_id);
    lemma_first_arrival(departures, steps);
    assert(session_upon(state, steps[0]) == Some(next));
    lemma_survivor_is_valid(state, steps);
    lemma_left_open_afterwards(steps, stream_id);
    law_data_comes_out_as_written(tail, next, rest, stream_id);
    assert(delivered(state, steps, link) =~= delivered(next, rest, link));
}

/// Streams are accepted in order of opening: the streams that one end announces are offered at
/// the other end, each once, in order and with its metadata, and where there is room for them all,
/// all of them wait to be accepted. As long as announcements are under way, this holds of the
/// first ones.
pub proof fn law_streams_are_accepted_in_order(
    departures: Seq<Departure>,
    state: SessionState,
    steps: Seq<Step>,
)
    requires
        forall|i: int|
            0 <= i < departures.len() ==> (#[trigger] departures[i]).message.well_sized(),
        arrived(steps).is_prefix_of(read_all(sent(departures))),
        survives(state, steps),
    ensures
        offered(state, steps).is_prefix_of(announced(departing(departures))),
        arrived(steps) == read_all(sent(departures)) ==> offered(state, steps) == announced(
            departing(departures),
        ),
        roomy(steps) ==> queued(state, steps) == offered(state, steps),
{
    lemma_on_wire(departures, 0);
    law_messages_read_back(on_wire(departures));
    law_announced_streams_are_offered(state, steps);
    lemma_announced_prefix(arrived(steps), on_wire(departures));
}

/// The messages of a run that carry data of a stream or close it.
pub open spec fn own(ms: Seq<Message>, stream_id: u32) -> Seq<Message> {
    ms.filter(|m: Message| carries(m, stream_id) || closes(m, stream_id))
}

/// What is sent on other streams does not matter to a stream, however it is interleaved.
pub proof fn law_interleaving_does_not_matter(ms: Seq<Message>, stream_id: u32)
    ensures
        payload(ms, stream_id) == payload(own(ms, stream_id), stream_id),
    decreases ms.len(),
{
    let pred = |m: Message| carries(m, stream_id) || closes(m, stream_id);
    if ms.len() == 0 {
        reveal(Seq::filter);
        assert(own(ms, stream_id) =~= ms);
    } else {
        let rest = ms.drop_first();
        law_interleaving_does_not_matter(rest, stream_id);
        assert(ms =~= seq![ms[0]] + rest);
        Seq::filter_distributes_over_add(seq![ms[0]], rest, pred);
        reveal_with_fuel(Seq::filter, 2);
        let front = seq![ms[0]].filter(pred);
        assert(seq![ms[0]].drop_last() =~= Seq::<Message>::empty());
        if pred(ms[0]) {
            assert(front =~= seq![ms[0]]);
            assert(own(ms, stream_id)[0] == ms[0]);
            assert(own(ms, stream_id).drop_first() =~= own(rest, stream_id));
        } else {
            assert(front =~= Seq::<Message>::empty());
            assert(own(ms, stream_id) =~= own(rest, stream_id));
            assert(payload(ms, stream_id) =~= payload(rest, stream_id));
        }
    }
}

/// The data frames for a run of chunks.
pub open spec fn data_frames(stream_id: u32, chunks: Seq<Seq<u8>>) -> Seq<Message> {
    chunks.map_values(|c: Seq<u8>| message(stream_id, CMD_PSH, c))
}

/// Cutting data into chunks loses nothing: the frames for the chunks carry the chunks, one after
/// the other, and nothing that follows the closing frame adds to them.
pub proof fn law_chunks_carry_the_data(
    stream_id: u32,
    chunks: Seq<Seq<u8>>,
    after_close: Seq<Message>,
)
    ensures
        payload(data_frames(stream_id, chunks), stream_id) == chunks.flatten(),
        payload(
            data_frames(stream_id, chunks) + seq![message(stream_id, CMD_FIN, Seq::empty())]
                + after_close,
            stream_id,
        ) == chunks.flatten(),
    decreases chunks.len(),
{
    let ms = data_frames(stream_id, chunks);
    let fin = message(stream_id, CMD_FIN, Seq::empty());
    let closed = ms + seq![fin] + after_close;
    if chunks.len() > 0 {
        let rest = data_frames(stream_id, chunks.drop_first());
        law_chunks_carry_the_data(stream_id, chunks.drop_first(), after_close);
        assert(ms.drop_first() =~= rest);
        assert(ms[0] == message(stream_id, CMD_PSH, chunks[0]));
        assert(closed.drop_first() =~= rest + seq![fin] + after_close);
        assert(closed[0] == ms[0]);
    } else {
        assert(payload(ms, stream_id) =~= chunks.flatten());
        assert(closed[0] == fin);
    }
}

/// The stream that a step is about.
pub open spec fn subject(s: Step) -> u32 {
    match s {
        Step::Arrive { message: m, .. } => m.header.stream_id,
        Step::Open { stream_id } => stream_id,
        Step::Depart { message: m } => m.header.stream_id,
    }
}

/// A step leaves every stream but its own alone.
pub proof fn law_streams_are_isolated(state: SessionState, s: Step, other: u32)
    requires
        subject(s) != other,
    ensures
        session_upon(state, s) matches Some(next) ==> {
            &&& next.streams.dom().contains(other) == state.streams.dom().contains(other)
            &&& state.streams.dom().contains(other) ==> next.streams[other]
                == state.streams[other]
        },
{
}

/// Opening a stream replaces none: every stream that is open stays open on its link, and no other
/// has the identifier or the link of the new one.
pub proof fn law_opening_replaces_no_stream(state: SessionState, stream_id: u32, other: u32)
    requires
        state.valid(),
        state.next_link < u64::MAX,
        session_upon(state, Step::Open { stream_id }) is Some,
        state.streams.dom().contains(other),
    ensures
        ({
            let next = session_upon(state, Step::Open { stream_id })->0;
            &&& next.streams.dom().contains(other)
            &&& next.streams[other] == state.streams[other]
            &&& other != stream_id
            &&& next.streams[other] != next.streams[stream_id]
        }),
{
}

/// A stream is announced with its metadata; announcing it while it is open ends the multiplexer.
pub proof fn law_stream_opens_once(
    state: SessionState,
    stream_id: u32,
    metadata: Seq<u8>,
    again: Seq<u8>,
)
    ensures
        !state.streams.dom().contains(stream_id) ==> reaction(
            state.streams,
            message(stream_id, CMD_SYN, metadata),
        ) == Ok::<Reaction, Failure>(Reaction::Offer { stream_id, metadata }),
        reaction(
            state.settled(stream_id, OfferOutcome::Queued).streams,
            message(stream_id, CMD_SYN, again),
        ) == Err::<Reaction, Failure>(failure(ErrorKind::InvalidData, "duplicate SYN"@)),
{
}

/// Closing a stream undoes opening it, at either end: the streams are those from before, and the
/// identifier is free again.
pub proof fn law_close_undoes_open(state: SessionState, stream_id: u32)
    requires
        !state.streams.dom().contains(stream_id),
    ensures
        state.opened(stream_id).after(message(stream_id, CMD_FIN, Seq::empty())).streams
            == state.streams,
{
    let link = state.next_link as u64;
    assert(state.streams.insert(stream_id, link).remove(stream_id) =~= state.streams);
}

/// Closing a stream a second time does nothing, so that the closing frame may go out twice.
pub proof fn law_close_is_idempotent(streams: Map<u32, u64>, stream_id: u32)
    ensures
        ({
            let fin = message(stream_id, CMD_FIN, Seq::empty());
            let closed = streams_after(streams, fin);
            &&& reaction(closed, fin) == Ok::<Reaction, Failure>(Reaction::Nothing)
            &&& streams_after(closed, fin) == closed
            &&& streams.dom().contains(stream_id) ==> read_all(written(streams, fin)) == seq![
                fin,
                fin,
            ]
            &&& !streams.dom().contains(stream_id) ==> read_all(written(streams, fin)) == seq![fin]
        }),
{
    let fin = message(stream_id, CMD_FIN, Seq::empty());
    let closed = streams_after(streams, fin);
    assert(closed.remove(stream_id) =~= closed);
    let once = seq![fin];
    let twice = seq![fin, fin];
    assert(once.drop_first() =~= Seq::<Message>::empty());
    assert(twice.drop_first() =~= once);
    reveal_with_fuel(wire_all, 3);
    assert(wire_all(once) =~= fin.wire());
    assert(wire_all(twice) =~= fin.wire() + fin.wire());
    law_messages_read_back(once);
    law_messages_read_back(twice);
}

/// A grant arrives as it was made.
pub proof fn law_grant_arrives(streams: Map<u32, u64>, stream_id: u32, grant: u16)
    requires
        streams.dom().contains(stream_id),
    ensures
        reaction(streams, message(stream_id, CMD_MORE, le16(grant))) == Ok::<Reaction, Failure>(
            Reaction::Grant { link: streams[stream_id], permits: grant as int },
        ),
{
}

/// A ping is put before whoever reads its body as it was sent, and the answer to it is taken for
/// one, whatever streams are open at either end.
pub proof fn law_ping_and_pong_arrive(
    here: Map<u32, u64>,
    there: Map<u32, u64>,
    body: Seq<u8>,
)
    ensures
        reaction(there, message(0, CMD_PING, body)) == Ok::<Reaction, Failure>(
            Reaction::CheckPing { body },
        ),
        reaction(here, message(0, CMD_PONG, Seq::empty())) == Ok::<Reaction, Failure>(
            Reaction::Pong,
        ),
{
}

/// The frames of a stream's data can be read back: a chunk is never too long for the length
/// field.
pub proof fn law_data_frames_are_well_sized(stream_id: u32, chunks: Seq<Seq<u8>>)
    requires
        forall|i: int| 0 <= i < chunks.len() ==> (#[trigger] chunks[i]).len() <= MSS,
    ensures
        forall|i: int|
            0 <= i < chunks.len() ==> (#[trigger] data_frames(stream_id, chunks)[i]).well_sized(),
{
}

/// The identifiers that are in use after a step, where the step is proper: what arrives is well
/// made, no stream is opened under an identifier in use, and somebody accepts streams.
pub open spec fn in_use_upon(ids: Set<u32>, s: Step) -> Option<Set<u32>> {
    match s {
        Step::Arrive { message: m, outcome } => if !well_made(m) {
            None
        } else if m.header.command == CMD_SYN {
            if ids.contains(m.header.stream_id) || outcome == OfferOutcome::Closed {
                None
            } else if outcome == OfferOutcome::Queued {
                Some(ids.insert(m.header.stream_id))
            } else {
                Some(ids)
            }
        } else if m.header.command == CMD_FIN {
            Some(ids.remove(m.header.stream_id))
        } else {
            Some(ids)
        },
        Step::Open { stream_id } => if ids.contains(stream_id) {
            None
        } else {
            Some(ids.insert(stream_id))
        },
        Step::Depart { message: m } => if m.header.command == CMD_FIN {
            Some(ids.remove(m.header.stream_id))
        } else {
            Some(ids)
        },
    }
}

/// Whether every step of a run is proper.
pub open spec fn proper(ids: Set<u32>, steps: Seq<Step>) -> bool
    decreases steps.len(),
{
    steps.len() > 0 ==> match in_use_upon(ids, steps[0]) {
        Some(next) => proper(next, steps.drop_first()),
        None => false,
    }
}

/// A proper step never ends a multiplexer, and the streams that are open afterwards are those
/// whose identifiers are in use.
pub proof fn law_proper_step_is_survived(state: SessionState, s: Step)
    requires
        in_use_upon(state.streams.dom(), s) is Some,
    ensures
        session_upon(state, s) matches Some(next) && next.streams.dom() == in_use_upon(
            state.streams.dom(),
            s,
        )->0 && state.next_link <= next.next_link <= state.next_link + 1,
{
    let next = session_upon(state, s)->0;
    if let Step::Arrive { message: m, .. } = s {
        law_only_faulty_messages_fail(state.streams, m);
    }
    assert(next.streams.dom() =~= in_use_upon(state.streams.dom(), s)->0);
}

/// A multiplexer lives through every proper run, as long as it has links to give out: nothing that
/// a well-behaved peer sends ends it.
pub proof fn law_proper_runs_are_survived(state: SessionState, steps: Seq<Step>)
    requires
        proper(state.streams.dom(), steps),
        state.next_link + steps.len() <= u64::MAX,
    ensures
        survives(state, steps),
    decreases steps.len(),
{
    if steps.len() > 0 {
        law_proper_step_is_survived(state, steps[0]);
        law_proper_runs_are_survived(session_upon(state, steps[0])->0, steps.drop_first());
    }
}

/// In every proper run, data comes out of a stream as it was written: all of it that has arrived
/// before either end closes the stream, in order, and nothing else.
pub proof fn law_proper_run_delivers(
    departures: Seq<Departure>,
    state: SessionState,
    steps: Seq<Step>,
    stream_id: u32,
)
    requires
        forall|i: int|
            0 <= i < departures.len() ==> (#[trigger] departures[i]).message.well_sized(),
        arrived(steps).is_prefix_of(read_all(sent(departures))),
        state.valid(),
        state.streams.dom().contains(stream_id),
        proper(state.streams.dom(), steps),
        state.next_link + steps.len() <= u64::MAX,
    ensures
        delivered(state, steps, state.streams[stream_id]) == received(steps, stream_id),
        delivered(state, steps, state.streams[stream_id]).is_prefix_of(
            payload(departing(departures), stream_id),
        ),
        arrived(steps) == read_all(sent(departures)) && left_open(steps, stream_id) ==> delivered(
            state,
            steps,
            state.streams[stream_id],
        ) == payload(departing(departures), stream_id),
{
    law_proper_runs_are_survived(state, steps);
    law_stream_gets_its_data(state, steps, stream_id);
    law_data_comes_out_as_written(departures, state, steps, stream_id);
}

/// In every proper run, the streams that were announced are offered, each once, in order and with
/// its metadata, and wait to be accepted where there is room.
pub proof fn law_proper_run_offers_streams(
    departures: Seq<Departure>,
    state: SessionState,
    steps: Seq<Step>,
)
    requires
        forall|i: int|
            0 <= i < departures.len() ==> (#[trigger] departures[i]).message.well_sized(),
        arrived(steps).is_prefix_of(read_all(sent(departures))),
        proper(state.streams.dom(), steps),
        state.next_link + steps.len() <= u64::MAX,
    ensures
        offered(state, steps) == announced(arrived(steps)),
        offered(state, steps).is_prefix_of(announced(departing(departures))),
        arrived(steps) == read_all(sent(departures)) ==> offered(state, steps) == announced(
            departing(departures),
        ),
        roomy(steps) ==> queued(state, steps) == offered(state, steps),
{
    law_proper_runs_are_survived(state, steps);
    law_announced_streams_are_offered(state, steps);
    law_streams_are_accepted_in_order(departures, state, steps);
}

/// In a proper run every data frame that arrives for an open stream is handed to it whole.
pub proof fn law_arriving_data_is_delivered(
    state: SessionState,
    m: Message,
    outcome: OfferOutcome,
    link: u64,
)
    requires
        state.valid(),
        m.header.command == CMD_PSH,
        state.streams.dom().contains(m.header.stream_id),
    ensures
        session_upon(state, Step::Arrive { message: m, outcome }) == Some(state),
        data_for(state.streams, Step::Arrive { message: m, outcome }, link) == (if link
            == state.streams[m.header.stream_id] {
            m.body
        } else {
            Seq::empty()
        }),
{
    law_data_goes_to_its_stream(state.streams, m);
}

} // verus!
