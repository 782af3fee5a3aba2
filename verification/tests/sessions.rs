use bytes::Bytes;
use picomux::error::{ErrorKind, MuxError};
use picomux::frame::{
    Frame, CMD_FIN, CMD_MORE, CMD_NOP, CMD_PING, CMD_PONG, CMD_PSH, CMD_SYN,
};
use picomux::pump::{more_frame, SendPump};
use picomux::session::{answer_ping, open_requests_ended, Incoming, OfferOutcome, Session};

fn with_stream(id: u32) -> (Session, u64) {
    let mut s = Session::new();
    assert!(s.has_links());
    let link = s.on_offered(id, OfferOutcome::Queued).unwrap().unwrap();
    (s, link)
}

fn failed(r: Result<Incoming, MuxError>) -> (ErrorKind, String) {
    let e = r.unwrap_err();
    (e.kind, e.message)
}

/// One end opens a stream, writes to it and closes it; the other end reads what was written.
#[test]
fn test_picomux_basic() {
    let mut a = Session::new();
    let mut b = Session::new();
    let mut wire: Vec<u8> = Vec::new();

    let id = a.pick_stream_id().unwrap();
    wire.extend(a.on_outgoing(&Session::announce(id, &Bytes::copy_from_slice(b""))).wire);
    let link_a = a.register(id);
    let mut pump = SendPump::new(id);
    pump.on_permit();
    let data = pump.on_read(b"Hello, world!").unwrap();
    wire.extend(a.on_outgoing(&data).wire);
    let closing = a.on_outgoing(&pump.close());
    assert_eq!(closing.unlinked, Some(link_a));
    wire.extend(closing.wire);

    let mut buf: Vec<u8> = Vec::new();
    let mut link_b = None;
    let mut closed = false;
    let mut at = 0;
    while let Some((frame, n)) = Frame::parse(&wire[at..]) {
        at += n;
        match b.on_incoming(frame).unwrap() {
            Incoming::Offer { stream_id, metadata } => {
                assert_eq!(stream_id, id);
                assert_eq!(&metadata[..], b"");
                link_b = b.on_offered(stream_id, OfferOutcome::Queued).unwrap();
            }
            Incoming::Deliver { link, frame } => {
                assert_eq!(Some(link), link_b);
                buf.extend_from_slice(&frame.body);
            }
            Incoming::Unlink { link } => {
                assert_eq!(Some(link), link_b);
                closed = true;
            }
            Incoming::Nothing => assert!(closed),
            other => panic!("{:?}", other),
        }
    }
    assert_eq!(at, wire.len());
    assert_eq!(buf.len(), 13);
    assert_eq!(buf, b"Hello, world!");
    assert!(closed);
    assert!(a.is_free(id) && b.is_free(id));
}

#[test]
fn streams_do_not_mix() {
    let mut s = Session::new();
    let one = s.register(1);
    let two = s.register(2);
    assert_ne!(one, two);
    let mut got_one: Vec<u8> = Vec::new();
    let mut got_two: Vec<u8> = Vec::new();
    for (id, body) in [(1u32, "a"), (2, "b"), (1, "c"), (2, "d"), (1, "e")] {
        match s.on_incoming(Frame::new(id, CMD_PSH, body.as_bytes())).unwrap() {
            Incoming::Deliver { link, frame } if link == one => got_one.extend_from_slice(&frame.body),
            Incoming::Deliver { link, frame } if link == two => got_two.extend_from_slice(&frame.body),
            other => panic!("{:?}", other),
        }
    }
    assert_eq!(got_one, b"ace");
    assert_eq!(got_two, b"bd");
    s.on_incoming(Frame::new_empty(2, CMD_FIN)).unwrap();
    assert_eq!(s.link(1), Some(one));
    assert_eq!(s.link(2), None);
}

#[test]
fn a_stream_opens_once() {
    let (mut s, _) = with_stream(5);
    assert_eq!(
        failed(s.on_incoming(Frame::new(5, CMD_SYN, b"again"))),
        (ErrorKind::InvalidData, "duplicate SYN".to_string())
    );
}

#[test]
fn closing_undoes_opening() {
    let (mut s, link) = with_stream(5);
    assert_eq!(s.link(5), Some(link));
    assert!(!s.is_free(5));
    assert!(matches!(
        s.on_incoming(Frame::new_empty(5, CMD_FIN)).unwrap(),
        Incoming::Unlink { link: l } if l == link
    ));
    assert!(s.is_free(5));
    assert!(matches!(
        s.on_incoming(Frame::new(5, CMD_SYN, b"m")).unwrap(),
        Incoming::Offer { stream_id: 5, .. }
    ));
}

#[test]
fn closing_twice_does_nothing() {
    let (mut s, _) = with_stream(5);
    s.on_incoming(Frame::new_empty(5, CMD_FIN)).unwrap();
    assert!(matches!(
        s.on_incoming(Frame::new_empty(5, CMD_FIN)).unwrap(),
        Incoming::Nothing
    ));
}

#[test]
fn a_reopened_stream_gets_a_new_link() {
    let (mut s, link) = with_stream(5);
    s.on_incoming(Frame::new_empty(5, CMD_FIN)).unwrap();
    let again = s.on_offered(5, OfferOutcome::Queued).unwrap().unwrap();
    assert_ne!(link, again);
    assert_eq!(s.link(5), Some(again));
}

#[test]
fn a_closing_frame_goes_out_twice_while_the_stream_is_open() {
    let (mut s, link) = with_stream(5);
    let fin = Frame::new_empty(5, CMD_FIN);
    let once = fin.bytes();
    let twice: Vec<u8> = once.iter().chain(once.iter()).copied().collect();
    let out = s.on_outgoing(&fin);
    assert_eq!(out.wire, twice);
    assert_eq!(out.unlinked, Some(link));
    let out = s.on_outgoing(&fin);
    assert_eq!(out.wire, once);
    assert_eq!(out.unlinked, None);
}

#[test]
fn other_frames_go_out_once() {
    let (mut s, link) = with_stream(5);
    for command in [CMD_SYN, CMD_PSH, CMD_NOP, CMD_MORE, CMD_PING, CMD_PONG] {
        let f = Frame::new(5, command, b"xy");
        let out = s.on_outgoing(&f);
        assert_eq!(out.wire, f.bytes());
        assert_eq!(out.unlinked, None);
    }
    assert_eq!(s.link(5), Some(link));
}

#[test]
fn offers() {
    let mut s = Session::new();
    assert!(s.on_offered(1, OfferOutcome::Full).unwrap().is_none());
    assert!(s.is_free(1));
    let e = s.on_offered(1, OfferOutcome::Closed).unwrap_err();
    assert_eq!(e.kind, ErrorKind::NotConnected);
    assert_eq!(e.message, "dead");
    assert!(s.is_free(1));
    assert!(s.on_offered(1, OfferOutcome::Queued).unwrap().is_some());
    assert!(!s.is_free(1));
}

#[test]
fn a_grant_arrives_as_it_was_made() {
    let (mut s, link) = with_stream(5);
    for grant in [0u16, 1, 255, 256, 491, 65535] {
        match s.on_incoming(more_frame(5, grant)).unwrap() {
            Incoming::Grant { link: l, permits } => assert_eq!((l, permits), (link, grant)),
            other => panic!("{:?}", other),
        }
    }
}

#[test]
fn a_corrupt_grant_is_an_error_even_without_a_stream() {
    let mut s = Session::new();
    for body in [&b""[..], b"1", b"123"] {
        assert_eq!(
            failed(s.on_incoming(Frame::new(5, CMD_MORE, body))),
            (
                ErrorKind::InvalidData,
                "corrupt window increase message".to_string()
            )
        );
    }
}

#[test]
fn strays() {
    let mut s = Session::new();
    assert!(matches!(
        s.on_incoming(Frame::new(5, CMD_PSH, b"x")).unwrap(),
        Incoming::Stray
    ));
    assert!(matches!(
        s.on_incoming(more_frame(5, 3)).unwrap(),
        Incoming::Stray
    ));
    assert!(matches!(
        s.on_incoming(Frame::new_empty(5, CMD_FIN)).unwrap(),
        Incoming::Nothing
    ));
    assert!(matches!(
        s.on_incoming(Frame::new_empty(5, CMD_NOP)).unwrap(),
        Incoming::Nothing
    ));
}

#[test]
fn unknown_commands_are_named() {
    let mut s = Session::new();
    assert_eq!(
        failed(s.on_incoming(Frame::new_empty(5, 77))),
        (ErrorKind::InvalidData, "invalid command 77".to_string())
    );
    assert_eq!(
        failed(s.on_incoming(Frame::new_empty(5, 255))),
        (ErrorKind::InvalidData, "invalid command 255".to_string())
    );
}

#[test]
fn pings_and_pongs() {
    let mut s = Session::new();
    match s.on_incoming(Frame::new(0, CMD_PING, b"{}")).unwrap() {
        Incoming::CheckPing { body } => assert_eq!(&body[..], b"{}"),
        other => panic!("{:?}", other),
    }
    let pong = answer_ping(Ok(1000)).unwrap();
    assert_eq!(pong.header.command, CMD_PONG);
    assert_eq!(pong.header.stream_id, 0);
    assert!(pong.body.is_empty());
    assert!(matches!(s.on_incoming(pong).unwrap(), Incoming::Pong));
    let e = answer_ping(Err("at line 1".to_string())).unwrap_err();
    assert_eq!(e.kind, ErrorKind::InvalidData);
    assert_eq!(e.message, "invalid PING data at line 1");
}

#[test]
fn announcements_carry_the_metadata() {
    let f = Session::announce(8, &Bytes::copy_from_slice(b"example.com:80"));
    assert_eq!(f.header.command, CMD_SYN);
    assert_eq!(f.header.stream_id, 8);
    assert_eq!(f.header.body_len, 14);
    assert_eq!(&f.body[..], b"example.com:80");
    let long = Session::announce(8, &Bytes::copy_from_slice(&[0u8; 65540]));
    assert_eq!(long.header.body_len, 4);
    assert_eq!(long.body.len(), 65540);
}

#[test]
fn picked_identifiers_are_free_and_vary() {
    let mut s = Session::new();
    let mut ids = Vec::new();
    for _ in 0..100 {
        let id = s.pick_stream_id().unwrap();
        assert!(s.is_free(id));
        s.register(id);
        ids.push(id);
    }
    ids.sort();
    ids.dedup();
    assert_eq!(ids.len(), 100);
}

#[test]
fn the_end_of_open_requests() {
    let e = open_requests_ended();
    assert_eq!(e.kind, ErrorKind::BrokenPipe);
    assert_eq!(e.message, "open request channel died");
}

/// Two streams are opened with metadata and written in turns; each comes out whole at the other
/// end, and what follows the closing frame of one does not reach it.
#[test]
fn interleaved_streams_come_out_whole() {
    let mut a = Session::new();
    let mut wire: Vec<u8> = Vec::new();
    for (id, metadata) in [(10u32, "one"), (20, "two")] {
        let syn = Session::announce(id, &Bytes::copy_from_slice(metadata.as_bytes()));
        wire.extend(a.on_outgoing(&syn).wire);
        a.register(id);
    }
    let mut one = SendPump::new(10);
    let mut two = SendPump::new(20);
    for i in 0..50u8 {
        one.on_permit();
        let f = one.on_read(&vec![i; i as usize + 1]).unwrap();
        wire.extend(a.on_outgoing(&f).wire);
        two.on_permit();
        let f = two.on_read(&[255 - i]).unwrap();
        wire.extend(a.on_outgoing(&f).wire);
    }
    wire.extend(a.on_outgoing(&one.close()).wire);
    wire.extend(a.on_outgoing(&Frame::new(10, CMD_PSH, b"late")).wire);
    wire.extend(a.on_outgoing(&two.close()).wire);

    let mut b = Session::new();
    let mut streams: Vec<(u64, Vec<u8>, Vec<u8>)> = Vec::new();
    let mut strays = 0;
    let mut at = 0;
    while let Some((frame, n)) = Frame::parse(&wire[at..]) {
        at += n;
        match b.on_incoming(frame).unwrap() {
            Incoming::Offer { stream_id, metadata } => {
                let link = b.on_offered(stream_id, OfferOutcome::Queued).unwrap().unwrap();
                streams.push((link, metadata.to_vec(), Vec::new()));
            }
            Incoming::Deliver { link, frame } => {
                let stream = streams.iter_mut().find(|s| s.0 == link).unwrap();
                stream.2.extend_from_slice(&frame.body);
            }
            Incoming::Stray => strays += 1,
            _ => {}
        }
    }
    assert_eq!(strays, 1);
    let first: Vec<u8> = (0..50u8).flat_map(|i| vec![i; i as usize + 1]).collect();
    let second: Vec<u8> = (0..50u8).map(|i| 255 - i).collect();
    assert_eq!(streams.len(), 2);
    assert_eq!(streams[0].1, b"one");
    assert_eq!(streams[0].2, first);
    assert_eq!(streams[1].1, b"two");
    assert_eq!(streams[1].2, second);
    assert!(b.is_free(10) && b.is_free(20));
}

#[test]
fn opening_is_one_step() {
    let mut s = Session::new();
    for number in 0..200u64 {
        let (id, link, syn) = s.open_stream(&Bytes::copy_from_slice(b"host:1")).unwrap();
        assert_eq!(link, number);
        assert_eq!(s.link(id), Some(link));
        assert_eq!(syn.header.command, CMD_SYN);
        assert_eq!(syn.header.stream_id, id);
        assert_eq!(&syn.body[..], b"host:1");
        assert_eq!(
            failed(s.on_incoming(Frame::new(id, CMD_SYN, b"same"))).1,
            "duplicate SYN"
        );
        assert_eq!(s.link(id), Some(link));
    }
}

/// Streams are offered in the order in which they were opened, while the receiving end opens and
/// closes streams of its own.
#[test]
fn several_streams_are_offered_in_order() {
    let mut a = Session::new();
    let mut wire: Vec<u8> = Vec::new();
    let mut opened: Vec<(u32, Vec<u8>)> = Vec::new();
    for i in 0..100u8 {
        let metadata = vec![i; i as usize];
        let (id, _, syn) = a.open_stream(&Bytes::copy_from_slice(&metadata)).unwrap();
        wire.extend(a.on_outgoing(&syn).wire);
        opened.push((id, metadata));
    }
    let mut b = Session::new();
    let mut accepted: Vec<(u32, Vec<u8>)> = Vec::new();
    let mut at = 0;
    while let Some((frame, n)) = Frame::parse(&wire[at..]) {
        at += n;
        match b.on_incoming(frame).unwrap() {
            Incoming::Offer { stream_id, metadata } => {
                assert!(b.on_offered(stream_id, OfferOutcome::Queued).unwrap().is_some());
                accepted.push((stream_id, metadata.to_vec()));
            }
            other => panic!("{:?}", other),
        }
        let own = (0..u32::MAX)
            .find(|id| b.is_free(*id) && opened.iter().all(|o| o.0 != *id))
            .unwrap();
        b.register(own);
        b.on_outgoing(&Frame::new_empty(own, CMD_FIN));
    }
    assert_eq!(accepted, opened);
}

/// A stream that the receiving end closes gets no more of what was sent on it, even after its
/// identifier is used again.
#[test]
fn closing_at_the_receiving_end_cuts_a_stream_off() {
    let (mut s, link) = with_stream(5);
    assert!(matches!(
        s.on_incoming(Frame::new(5, CMD_PSH, b"a")).unwrap(),
        Incoming::Deliver { link: l, .. } if l == link
    ));
    assert_eq!(s.on_outgoing(&Frame::new_empty(5, CMD_FIN)).unlinked, Some(link));
    assert!(matches!(
        s.on_incoming(Frame::new(5, CMD_PSH, b"b")).unwrap(),
        Incoming::Stray
    ));
    let other = s.register(5);
    assert!(matches!(
        s.on_incoming(Frame::new(5, CMD_PSH, b"c")).unwrap(),
        Incoming::Deliver { link: l, .. } if l == other && l != link
    ));
}
