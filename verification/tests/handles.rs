use bytes::Bytes;
use picomux::error::ErrorKind;
use picomux::frame::CMD_PING;
use picomux::liveness::{ping_frame, PingLoop, Wake};
use picomux::{LivenessConfig, PicoMux, Stream};
use std::time::Duration;

fn config(interval_ms: u64, timeout_ms: u64) -> LivenessConfig {
    LivenessConfig {
        ping_interval: Duration::from_millis(interval_ms),
        timeout: Duration::from_millis(timeout_ms),
    }
}

#[test]
fn the_default_liveness() {
    let c = LivenessConfig::default();
    assert_eq!(c.ping_interval, Duration::from_secs(1800));
    assert_eq!(c.timeout, Duration::from_secs(30));
}

#[test]
fn nothing_is_pinged_before_a_configuration_comes() {
    let p = PingLoop::new();
    assert_eq!(p.pause(), None);
}

#[test]
fn a_configuration_causes_a_ping_and_plans_the_next() {
    let mut p = PingLoop::new();
    let ping = p.on_wake(Wake::Config(config(1500, 20))).unwrap();
    assert_eq!(ping.next_ping_in_ms, 1500);
    assert_eq!(ping.timeout, Duration::from_millis(20));
    assert_eq!(p.pause(), None);
    let d = p.on_reply(Some(Duration::from_millis(3))).unwrap();
    assert_eq!(d, Duration::from_millis(3));
    assert_eq!(p.pause(), Some(Duration::from_millis(1500)));
    let again = p.on_wake(Wake::Due).unwrap();
    assert_eq!(again.next_ping_in_ms, 1500);
    p.on_reply(Some(Duration::from_millis(4))).unwrap();
    let ping = p.on_wake(Wake::Config(config(9, 8))).unwrap();
    assert_eq!(ping.next_ping_in_ms, 9);
    assert_eq!(ping.timeout, Duration::from_millis(8));
}

#[test]
fn an_unanswered_ping_is_the_end() {
    let mut p = PingLoop::new();
    p.on_wake(Wake::Config(config(10, 10))).unwrap();
    let e = p.on_reply(None).unwrap_err();
    assert_eq!(e.kind, ErrorKind::TimedOut);
    assert_eq!(e.message, "ping-pong timed out");
    assert!(matches!(p, PingLoop::Failed));
}

#[test]
fn no_more_configurations() {
    let mut p = PingLoop::new();
    assert!(p.on_wake(Wake::ConfigsEnded).is_none());
    assert!(matches!(p, PingLoop::Stopped));
    assert_eq!(p.pause(), None);
}

#[test]
fn milliseconds_are_whole_and_wrap() {
    let mut p = PingLoop::new();
    let c = LivenessConfig {
        ping_interval: Duration::from_micros(1999),
        timeout: Duration::from_secs(1),
    };
    assert_eq!(p.on_wake(Wake::Config(c)).unwrap().next_ping_in_ms, 1);
    let mut p = PingLoop::new();
    let c = LivenessConfig {
        ping_interval: Duration::from_secs(u64::MAX),
        timeout: Duration::from_secs(1),
    };
    let ms = (u64::MAX as u128 * 1000) as u64;
    assert_eq!(p.on_wake(Wake::Config(c)).unwrap().next_ping_in_ms, ms);
}

#[test]
fn a_ping_carries_its_body() {
    let f = ping_frame(b"{\"next_ping_in_ms\":5}");
    assert_eq!(f.header.command, CMD_PING);
    assert_eq!(f.header.stream_id, 0);
    assert_eq!(f.header.body_len, 21);
    assert_eq!(&f.body[..], b"{\"next_ping_in_ms\":5}");
}

#[test]
fn opening_forces_a_ping_once_the_timeout_is_over() {
    let mut m = PicoMux::new(Duration::from_secs(100));
    let r = m.open(Duration::from_secs(130), b"meta");
    assert_eq!(&r.metadata[..], b"meta");
    assert!(r.forced_ping.is_none());
    let r = m.open(Duration::from_nanos(130_000_000_001), b"");
    assert_eq!(r.forced_ping.unwrap().timeout, Duration::from_secs(30));
    assert!(m.open(Duration::from_secs(160), b"").forced_ping.is_none());
    assert!(m.open(Duration::from_secs(10), b"").forced_ping.is_none());
    assert!(m.open(Duration::from_secs(161), b"").forced_ping.is_some());
}

#[test]
fn forced_pings_are_spaced() {
    let mut m = PicoMux::new(Duration::ZERO);
    m.set_liveness(config(1000, 50));
    let mut last: Option<u64> = None;
    for t in 0..1000u64 {
        if m.open(Duration::from_millis(t), b"").forced_ping.is_some() {
            assert!(t - last.unwrap_or(0) > 50);
            last = Some(t);
        }
    }
    assert_eq!(last, Some(969));
}

#[test]
fn the_handle_remembers() {
    let mut m = PicoMux::new(Duration::ZERO);
    assert_eq!(m.liveness().timeout, Duration::from_secs(30));
    assert_eq!(m.last_latency(), None);
    m.record_latency(Duration::from_millis(7));
    assert_eq!(m.last_latency(), Some(Duration::from_millis(7)));
    let c = m.set_liveness(config(2, 1));
    assert_eq!(c.ping_interval, Duration::from_millis(2));
    assert_eq!(m.liveness().timeout, Duration::from_millis(1));
    assert_eq!(m.last_latency(), Some(Duration::from_millis(7)));
}

#[test]
fn what_a_stream_knows() {
    let s = Stream::new(Bytes::copy_from_slice(b"example.com:443"));
    assert_eq!(s.metadata(), b"example.com:443");
    assert_eq!(s.protocol(), "sillad-stream");
    assert_eq!(s.remote_addr(), None);
    assert_eq!(Stream::report(true, 17), Some(17));
    assert_eq!(Stream::report(false, 17), None);
}

#[test]
fn a_changed_timeout_spaces_the_next_forced_ping() {
    let mut m = PicoMux::new(Duration::ZERO);
    m.set_liveness(config(1000, 50));
    assert!(m.open(Duration::from_millis(51), b"").forced_ping.is_some());
    m.set_liveness(config(1000, 200));
    assert!(m.open(Duration::from_millis(251), b"").forced_ping.is_none());
    let forced = m.open(Duration::from_millis(252), b"").forced_ping;
    assert_eq!(forced.unwrap().timeout, Duration::from_millis(200));
}
