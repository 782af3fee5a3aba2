use bytes::Bytes;
use picomux::frame::{
    Frame, Header, CMD_FIN, CMD_MORE, CMD_NOP, CMD_PING, CMD_PONG, CMD_PSH, CMD_SYN, HEADER_LEN,
};
use picomux::pump::more_frame;
use picomux::text::decimal_string;

#[test]
fn bytes_of_a_frame() {
    let f = Frame::new(0x01020304, CMD_PSH, b"hi");
    assert_eq!(f.bytes(), vec![1, 2, 2, 0, 4, 3, 2, 1, b'h', b'i']);
}

#[test]
fn bytes_of_an_empty_frame() {
    let f = Frame::new_empty(7, CMD_FIN);
    assert_eq!(f.header.version, 1);
    assert_eq!(f.header.body_len, 0);
    assert!(f.body.is_empty());
    assert_eq!(f.bytes(), vec![1, 1, 0, 0, 7, 0, 0, 0]);
}

#[test]
fn commands_are_distinct() {
    let mut commands = vec![
        CMD_SYN, CMD_FIN, CMD_PSH, CMD_NOP, CMD_MORE, CMD_PING, CMD_PONG,
    ];
    commands.sort();
    commands.dedup();
    assert_eq!(commands.len(), 7);
}

#[test]
fn a_header_reads_back() {
    let h = Header {
        version: 1,
        command: CMD_MORE,
        body_len: 0xabcd,
        stream_id: 0xfedcba98,
    };
    let raw = Frame {
        header: h,
        body: Bytes::new(),
    }
    .bytes();
    assert_eq!(raw.len(), HEADER_LEN);
    assert_eq!(Header::parse(&raw), h);
}

#[test]
fn a_frame_reads_back_whatever_follows() {
    let f = Frame::new(9, CMD_SYN, b"example.com:443");
    let mut raw = f.bytes();
    raw.extend_from_slice(&[0xff; 20]);
    let (g, n) = Frame::parse(&raw).unwrap();
    assert_eq!(n, 8 + 15);
    assert_eq!(g.header, f.header);
    assert_eq!(&g.body[..], b"example.com:443");
}

#[test]
fn frames_come_off_the_wire_in_order() {
    let frames = [
        Frame::new(1, CMD_SYN, b"meta"),
        Frame::new(2, CMD_PSH, &[0u8; 300]),
        Frame::new_empty(1, CMD_FIN),
    ];
    let mut wire = Vec::new();
    for f in &frames {
        wire.extend(f.bytes());
    }
    let mut at = 0;
    for f in &frames {
        let (g, n) = Frame::parse(&wire[at..]).unwrap();
        assert_eq!(g.header, f.header);
        assert_eq!(g.body, f.body);
        at += n;
    }
    assert_eq!(at, wire.len());
    assert!(Frame::parse(&wire[at..]).is_none());
}

#[test]
fn a_frame_that_is_cut_short_is_no_frame() {
    let raw = Frame::new(9, CMD_PSH, b"abc").bytes();
    for n in 0..raw.len() {
        assert!(Frame::parse(&raw[..n]).is_none());
    }
    assert!(Frame::parse(&raw).is_some());
}

#[test]
fn the_length_field_wraps() {
    assert_eq!(Frame::new(1, CMD_SYN, &[0u8; 65535]).header.body_len, 65535);
    assert_eq!(Frame::new(1, CMD_SYN, &[0u8; 65536]).header.body_len, 0);
    assert_eq!(Frame::new(1, CMD_SYN, &[0u8; 65537]).header.body_len, 1);
}

#[test]
fn a_clone_is_the_same_frame() {
    let f = Frame::new(3, CMD_PSH, b"xyz");
    let g = f.clone();
    assert_eq!(g.header, f.header);
    assert_eq!(g.body, f.body);
}

#[test]
fn a_grant_is_two_bytes_low_byte_first() {
    let f = more_frame(5, 491);
    assert_eq!(f.header.command, CMD_MORE);
    assert_eq!(f.header.stream_id, 5);
    assert_eq!(f.header.body_len, 2);
    assert_eq!(&f.body[..], &491u16.to_le_bytes());
}

#[test]
fn numerals() {
    for n in [0u64, 7, 10, 99, 100, 65535, u64::MAX] {
        assert_eq!(decimal_string(n), n.to_string());
    }
}
