//! Frames: the messages that two multiplexers exchange, and their bytes.

use crate::buffer::contents;
use bytes::Bytes;
use vstd::prelude::*;
use vstd::slice::slice_subrange;

verus! {

/// Opens a stream; the body is the stream's metadata.
pub const CMD_SYN: u8 = 0;

/// Closes a stream.
pub const CMD_FIN: u8 = 1;

/// Carries data of a stream.
pub const CMD_PSH: u8 = 2;

/// Does nothing.
pub const CMD_NOP: u8 = 3;

/// Lets the other end send more frames on a stream; the body is the number of frames.
pub const CMD_MORE: u8 = 4;

/// Asks for a sign of life.
pub const CMD_PING: u8 = 5;

/// Answers a ping.
pub const CMD_PONG: u8 = 6;

/// The version that every frame made here carries.
pub const VERSION: u8 = 1;

/// The length of a header, in bytes.
pub const HEADER_LEN: usize = 8;

/// What comes before the body of a frame.
#[derive(Clone, Copy, Debug, PartialEq, Eq, Structural)]
pub struct Header {
    pub version: u8,
    pub command: u8,
    pub body_len: u16,
    pub stream_id: u32,
}

/// One message.
#[derive(Debug)]
pub struct Frame {
    pub header: Header,
    pub body: Bytes,
}

/// A frame as a mathematical value.
#[verifier::ext_equal]
pub struct Message {
    pub header: Header,
    pub body: Seq<u8>,
}

impl View for Frame {
    type V = Message;

    open spec fn view(&self) -> Message {
        Message { header: self.header, body: contents(self.body) }
    }
}

impl Clone for Frame {
    fn clone(&self) -> (r: Frame)
        ensures
            r@ == self@,
    {
        Frame { header: self.header, body: self.body.clone() }
    }
}

/// The message with the given stream, command and body. The length field holds the length of the
/// body modulo 2^16.
pub open spec fn message(stream_id: u32, command: u8, body: Seq<u8>) -> Message {
    Message {
        header: Header {
            version: VERSION,
            command,
            body_len: (body.len() % 0x1_0000) as u16,
            stream_id,
        },
        body,
    }
}

/// A number below 2^16 as two bytes, the low one first.
pub open spec fn le16(x: u16) -> Seq<u8> {
    seq![(x % 0x100) as u8, (x / 0x100) as u8]
}

/// A number below 2^32 as four bytes, the low one first.
pub open spec fn le32(x: u32) -> Seq<u8> {
    seq![
        (x % 0x100) as u8,
        (x / 0x100 % 0x100) as u8,
        (x / 0x1_0000 % 0x100) as u8,
        (x / 0x100_0000) as u8,
    ]
}

/// The number that two bytes stand for, the low one first.
pub open spec fn from_le16(s: Seq<u8>) -> int {
    s[0] + 0x100 * s[1]
}

/// The number that four bytes stand for, the low one first.
pub open spec fn from_le32(s: Seq<u8>) -> int {
    s[0] + 0x100 * s[1] + 0x1_0000 * s[2] + 0x100_0000 * s[3]
}

impl Header {
    /// The bytes of a header.
    pub open spec fn wire(self) -> Seq<u8> {
        seq![self.version, self.command] + le16(self.body_len) + le32(self.stream_id)
    }

    /// The header at the front of `s`.
    pub open spec fn read(s: Seq<u8>) -> Header {
        Header {
            version: s[0],
            command: s[1],
            body_len: from_le16(s.subrange(2, 4)) as u16,
            stream_id: from_le32(s.subrange(4, 8)) as u32,
        }
    }

    /// Reads a header from the front of `raw`.
    pub fn parse(raw: &[u8]) -> (h: Header)
        requires
            raw@.len() >= HEADER_LEN,
        ensures
            h == Header::read(raw@),
    {
        let body_len: u16 = raw[2] as u16 + 0x100 * raw[3] as u16;
        let stream_id: u32 = raw[4] as u32 + 0x100 * raw[5] as u32 + 0x1_0000 * raw[6] as u32
            + 0x100_0000 * raw[7] as u32;
        Header { version: raw[0], command: raw[1], body_len, stream_id }
    }
}

impl Message {
    /// The bytes of a message: the header, then the body.
    pub open spec fn wire(self) -> Seq<u8> {
        self.header.wire() + self.body
    }

    /// Whether the length field tells the length of the body.
    pub open spec fn well_sized(self) -> bool {
        self.header.body_len == self.body.len()
    }
}

/// The message at the front of `s`, unless `s` ends before the message does.
pub open spec fn read_message(s: Seq<u8>) -> Option<Message> {
    if s.len() < HEADER_LEN || s.len() < HEADER_LEN + Header::read(s).body_len {
        None
    } else {
        Some(
            Message {
                header: Header::read(s),
                body: s.subrange(
                    HEADER_LEN as int,
                    HEADER_LEN + Header::read(s).body_len,
                ),
            },
        )
    }
}

/// Appends the bytes of a slice to a vector.
fn append_bytes(v: &mut Vec<u8>, s: &[u8])
    ensures
        final(v)@ == old(v)@ + s@,
{
    let mut i: usize = 0;
    while i < s.len()
        invariant
            i <= s@.len(),
            v@ == old(v)@ + s@.subrange(0, i as int),
        decreases s@.len() - i,
    {
        v.push(s[i]);
        assert(s@.subrange(0, i + 1) =~= s@.subrange(0, i as int).push(s@[i as int]));
        i = i + 1;
    }
    assert(s@.subrange(0, i as int) =~= s@);
}

impl Frame {
    /// A frame with a body.
    pub fn new(stream_id: u32, command: u8, body: &[u8]) -> (f: Frame)
        ensures
            f@ == message(stream_id, command, body@),
    {
        let body_len: u16 = (body.len() % 0x1_0000) as u16;
        Frame {
            header: Header { version: VERSION, command, body_len, stream_id },
            body: Bytes::copy_from_slice(body),
        }
    }

    /// A frame without a body.
    pub fn new_empty(stream_id: u32, command: u8) -> (f: Frame)
        ensures
            f@ == message(stream_id, command, Seq::<u8>::empty()),
    {
        Frame {
            header: Header { version: VERSION, command, body_len: 0, stream_id },
            body: Bytes::new(),
        }
    }

    /// The bytes of the frame.
    pub fn bytes(&self) -> (v: Vec<u8>)
        ensures
            v@ == self@.wire(),
    {
        let len: u16 = self.header.body_len;
        let id: u32 = self.header.stream_id;
        let mut v: Vec<u8> = Vec::new();
        v.push(self.header.version);
        v.push(self.header.command);
        v.push((len % 0x100) as u8);
        v.push((len / 0x100) as u8);
        v.push((id % 0x100) as u8);
        v.push((id / 0x100 % 0x100) as u8);
        v.push((id / 0x1_0000 % 0x100) as u8);
        v.push((id / 0x100_0000) as u8);
        assert(v@ =~= self.header.wire());
        append_bytes(&mut v, &self.body);
        v
    }

    /// Reads a frame from the front of `raw`, and says how many bytes it takes. There is no
    /// frame where `raw` ends too early.
    pub fn parse(raw: &[u8]) -> (r: Option<(Frame, usize)>)
        ensures
            match r {
                Some((f, n)) => {
                    &&& read_message(raw@) == Some(f@)
                    &&& n == HEADER_LEN + f.header.body_len
                },
                None => read_message(raw@) is None,
            },
    {
        if raw.len() < HEADER_LEN {
            return None;
        }
        let header = Header::parse(raw);
        let body_len: usize = header.body_len as usize;
        if raw.len() - HEADER_LEN < body_len {
            return None;
        }
        let end: usize = HEADER_LEN + body_len;
        let body = Bytes::copy_from_slice(slice_subrange(raw, HEADER_LEN, end));
        Some((Frame { header, body }, end))
    }
}

/// Reading a header gives back what was written, whatever follows it.
pub proof fn law_header_reads_back(h: Header, rest: Seq<u8>)
    ensures
        h.wire().len() == HEADER_LEN,
        Header::read(h.wire() + rest) == h,
{
    let s = h.wire() + rest;
    assert(s.subrange(2, 4) =~= le16(h.body_len));
    assert(s.subrange(4, 8) =~= le32(h.stream_id));
}

/// Reading a message gives back what was written, whatever follows it on the wire.
pub proof fn law_message_reads_back(m: Message, rest: Seq<u8>)
    requires
        m.well_sized(),
    ensures
        read_message(m.wire() + rest) == Some(m),
        m.wire().len() == HEADER_LEN + m.header.body_len,
{
    law_header_reads_back(m.header, m.body + rest);
    let s = m.wire() + rest;
    assert(s =~= m.header.wire() + (m.body + rest));
    assert(s.subrange(HEADER_LEN as int, HEADER_LEN + m.header.body_len) =~= m.body);
}

/// The bytes of several messages, one after the other.
pub open spec fn wire_all(ms: Seq<Message>) -> Seq<u8>
    decreases ms.len(),
{
    if ms.len() == 0 {
        Seq::empty()
    } else {
        ms[0].wire() + wire_all(ms.drop_first())
    }
}

/// The messages that a run of bytes holds, up to the first one that is cut short.
pub open spec fn read_all(s: Seq<u8>) -> Seq<Message>
    decreases s.len(),
{
    match read_message(s) {
        Some(m) => seq![m] + read_all(s.skip(HEADER_LEN + m.header.body_len)),
        None => Seq::empty(),
    }
}

/// A run of messages comes off the wire as it was put on: none lost, none changed, in order.
pub proof fn law_messages_read_back(ms: Seq<Message>)
    requires
        forall|i: int| 0 <= i < ms.len() ==> (#[trigger] ms[i]).well_sized(),
    ensures
        read_all(wire_all(ms)) == ms,
    decreases ms.len(),
{
    if ms.len() == 0 {
        assert(read_all(wire_all(ms)) =~= ms);
    } else {
        let m = ms[0];
        let rest = wire_all(ms.drop_first());
        law_message_reads_back(m, rest);
        law_messages_read_back(ms.drop_first());
        assert((m.wire() + rest).skip(HEADER_LEN + m.header.body_len) =~= rest);
        assert(seq![m] + ms.drop_first() =~= ms);
    }
}

/// A message holds what it is made of, with the length of the body in the length field as long as
/// it fits there.
pub proof fn law_message_holds_its_parts(stream_id: u32, command: u8, body: Seq<u8>)
    ensures
        ({
            let m = message(stream_id, command, body);
            &&& m.header.version == 1
            &&& m.header.command == command
            &&& m.header.stream_id == stream_id
            &&& m.body == body
            &&& body.len() < 0x1_0000 ==> m.well_sized() && m.header.body_len == body.len()
            &&& (body.len() - m.header.body_len) % 0x1_0000 == 0
        }),
{
}

/// Two bytes stand for the number that they spell with the low byte first.
pub proof fn law_two_bytes_spell_a_number(x: u16, s: Seq<u8>)
    ensures
        le16(x).len() == 2,
        le16(x)[0] + 256 * le16(x)[1] == x,
        from_le16(s) == s[0] + 256 * s[1],
{
}

/// Where everything in a message stands on the wire: the version, the command, the length of the
/// body and the identifier of the stream, both with the low byte first, then the body.
pub proof fn law_wire_layout(m: Message)
    ensures
        ({
            let w = m.wire();
            &&& w.len() == 8 + m.body.len()
            &&& w[0] == m.header.version
            &&& w[1] == m.header.command
            &&& w[2] + 256 * w[3] == m.header.body_len
            &&& w[4] + 256 * w[5] + 65536 * w[6] + 16777216 * w[7] == m.header.stream_id
            &&& w.skip(8) == m.body
        }),
{
    let w = m.wire();
    let h = m.header.wire();
    assert(w.skip(8) =~= m.body);
    assert(h.len() == 8);
    assert(w[2] == le16(m.header.body_len)[0] && w[3] == le16(m.header.body_len)[1]);
    assert(w[4] == le32(m.header.stream_id)[0] && w[5] == le32(m.header.stream_id)[1]);
    assert(w[6] == le32(m.header.stream_id)[2] && w[7] == le32(m.header.stream_id)[3]);
}

/// A message is read exactly where all of its bytes are there, and what is read is what stands on
/// the wire.
pub proof fn law_message_is_read_when_complete(s: Seq<u8>)
    ensures
        read_message(s) is Some <==> s.len() >= 8 && s.len() >= 8 + s[2] + 256 * s[3],
        read_message(s) matches Some(m) ==> {
            &&& m.well_sized()
            &&& m.wire().is_prefix_of(s)
        },
{
    if s.len() >= 8 {
        let h = Header::read(s);
        assert(s.subrange(2, 4)[0] == s[2] && s.subrange(2, 4)[1] == s[3]);
        assert(h.body_len == s[2] + 256 * s[3]);
        let id = s.subrange(4, 8);
        assert(id[0] == s[4] && id[1] == s[5] && id[2] == s[6] && id[3] == s[7]);
        assert(h.stream_id == s[4] + 256 * s[5] + 65536 * s[6] + 16777216 * s[7]);
        if let Some(m) = read_message(s) {
            assert(le16(h.body_len) =~= s.subrange(2, 4));
            assert(le32(h.stream_id) =~= s.subrange(4, 8));
            assert(h.wire() =~= s.take(8));
            assert(m.wire() =~= s.take(8 + h.body_len));
        }
    }
}

/// A frame shows the header and the body that it holds.
pub proof fn law_frame_shows_what_it_holds(f: Frame)
    ensures
        f@.header == f.header,
        f@.body == contents(f.body),
{
}

} // verus!
