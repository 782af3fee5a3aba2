//! The handle of a multiplexer and of its streams.

use crate::buffer::contents;
use crate::liveness::LivenessConfig;
use crate::time::nanos;
use bytes::Bytes;
use std::time::Duration;
use vstd::prelude::*;

verus! {

/// What the handle of a multiplexer remembers. Times are counted from when the multiplexer was
/// made.
pub struct PicoMux {
    liveness: LivenessConfig,
    last_forced_ping: Duration,
    last_ping: Option<Duration>,
}

/// What opening a stream comes down to.
#[derive(Debug)]
pub struct OpenRequest {
    /// The metadata to announce the stream with.
    pub metadata: Bytes,
    /// The configuration to send to the pinging side, where opening a stream forces a ping.
    pub forced_ping: Option<LivenessConfig>,
}

/// Whether opening a stream at `now` forces a ping, where the last ping was forced at `last`.
pub open spec fn forces_ping(last: int, now: int, timeout: int) -> bool {
    now - last > timeout
}

impl PicoMux {
    /// The liveness configuration in force.
    pub closed spec fn config(&self) -> LivenessConfig {
        self.liveness
    }

    /// When a ping was last forced, in nanoseconds.
    pub closed spec fn forced_at(&self) -> int {
        nanos(self.last_forced_ping) as int
    }

    /// The latency of the last ping that was answered.
    pub closed spec fn latency(&self) -> Option<Duration> {
        self.last_ping
    }

    /// The handle of a multiplexer that is made at `now`.
    pub fn new(now: Duration) -> (m: PicoMux)
        ensures
            nanos(m.config().ping_interval) == 1800 * 1_000_000_000,
            nanos(m.config().timeout) == 30 * 1_000_000_000,
            m.forced_at() == nanos(now),
            m.latency() is None,
    {
        PicoMux { liveness: LivenessConfig::default(), last_forced_ping: now, last_ping: None }
    }

    /// The liveness configuration in force.
    pub fn liveness(&self) -> (c: LivenessConfig)
        ensures
            c == self.config(),
    {
        self.liveness
    }

    /// Sets the liveness configuration, which is also to be sent to the pinging side.
    pub fn set_liveness(&mut self, liveness: LivenessConfig) -> (c: LivenessConfig)
        ensures
            c == liveness,
            final(self).config() == liveness,
            final(self).forced_at() == old(self).forced_at(),
            final(self).latency() == old(self).latency(),
    {
        self.liveness = liveness;
        liveness
    }

    /// The latency of the last ping that was answered.
    pub fn last_latency(&self) -> (d: Option<Duration>)
        ensures
            d == self.latency(),
    {
        self.last_ping
    }

    /// Notes the latency of a ping that was answered.
    pub fn record_latency(&mut self, latency: Duration)
        ensures
            final(self).latency() == Some(latency),
            final(self).config() == old(self).config(),
            final(self).forced_at() == old(self).forced_at(),
    {
        self.last_ping = Some(latency);
    }

    /// Opens a stream at `now`. A ping is forced unless one was forced within the timeout.
    pub fn open(&mut self, now: Duration, metadata: &[u8]) -> (r: OpenRequest)
        ensures
            contents(r.metadata) == metadata@,
            r.forced_ping == (if forces_ping(
                old(self).forced_at(),
                nanos(now) as int,
                nanos(old(self).config().timeout) as int,
            ) {
                Some(old(self).config())
            } else {
                None
            }),
            final(self).forced_at() == (if r.forced_ping is Some {
                nanos(now) as int
            } else {
                old(self).forced_at()
            }),
            final(self).config() == old(self).config(),
            final(self).latency() == old(self).latency(),
            r.forced_ping is Some <==> nanos(now) > old(self).forced_at() + nanos(
                old(self).config().timeout,
            ),
    {
        let now_nanos: u128 = now.as_nanos();
        let last_nanos: u128 = self.last_forced_ping.as_nanos();
        let elapsed: u128 = if now_nanos > last_nanos {
            now_nanos - last_nanos
        } else {
            0
        };
        let mut forced_ping: Option<LivenessConfig> = None;
        if elapsed > self.liveness.timeout.as_nanos() {
            forced_ping = Some(self.liveness);
            self.last_forced_ping = now;
        }
        OpenRequest { metadata: Bytes::copy_from_slice(metadata), forced_ping }
    }
}

/// A stream that is opened, with the timeout that is in force at the time.
pub struct Opening {
    pub now: int,
    pub timeout: int,
}

/// When a ping was last forced, after the given streams were opened.
pub open spec fn last_forced(start: int, openings: Seq<Opening>) -> int
    decreases openings.len(),
{
    if openings.len() == 0 {
        start
    } else {
        let last = last_forced(start, openings.drop_last());
        if forces_ping(last, openings.last().now, openings.last().timeout) {
            openings.last().now
        } else {
            last
        }
    }
}

/// Whether the stream opened by `openings[i]` forces a ping.
pub open spec fn forced(start: int, openings: Seq<Opening>, i: int) -> bool {
    forces_ping(last_forced(start, openings.take(i)), openings[i].now, openings[i].timeout)
}

proof fn lemma_last_forced_grows(start: int, openings: Seq<Opening>, i: int, j: int)
    requires
        forall|k: int| 0 <= k < openings.len() ==> (#[trigger] openings[k]).timeout >= 0,
        0 <= i <= j <= openings.len(),
    ensures
        last_forced(start, openings.take(i)) <= last_forced(start, openings.take(j)),
    decreases j - i,
{
    if i < j {
        lemma_last_forced_grows(start, openings, i, j - 1);
        assert(openings.take(j).drop_last() =~= openings.take(j - 1));
        assert(openings.take(j).last() == openings[j - 1]);
    }
}

/// However fast streams are opened, a ping is forced only when more than the timeout in force has
/// passed since the multiplexer was made.
pub proof fn law_forced_pings_come_late(start: int, openings: Seq<Opening>, i: int)
    requires
        forall|k: int| 0 <= k < openings.len() ==> (#[trigger] openings[k]).timeout >= 0,
        0 <= i < openings.len(),
        forced(start, openings, i),
    ensures
        openings[i].now - start > openings[i].timeout,
{
    lemma_last_forced_grows(start, openings, 0, i);
    assert(openings.take(0) =~= Seq::<Opening>::empty());
}

/// However fast streams are opened, forced pings are further apart than the timeout in force at
/// the later one.
pub proof fn law_forced_pings_are_spaced(start: int, openings: Seq<Opening>, i: int, j: int)
    requires
        forall|k: int| 0 <= k < openings.len() ==> (#[trigger] openings[k]).timeout >= 0,
        0 <= i < j < openings.len(),
        forced(start, openings, i),
        forced(start, openings, j),
    ensures
        openings[j].now - openings[i].now > openings[j].timeout,
{
    lemma_last_forced_grows(start, openings, i + 1, j);
    assert(openings.take(i + 1).drop_last() =~= openings.take(i));
    assert(openings.take(i + 1).last() == openings[i]);
}

/// Opening a stream forces a ping as soon as more than the timeout in force has passed since the
/// last forced ping.
pub proof fn law_overdue_ping_is_forced(start: int, openings: Seq<Opening>, i: int)
    requires
        0 <= i < openings.len(),
        openings[i].now - last_forced(start, openings.take(i)) > openings[i].timeout,
    ensures
        forced(start, openings, i),
        last_forced(start, openings.take(i + 1)) == openings[i].now,
{
    assert(openings.take(i + 1).drop_last() =~= openings.take(i));
    assert(openings.take(i + 1).last() == openings[i]);
}

/// Opening a stream forces a ping exactly where the timeout lies between the last forced ping and
/// now, and not a moment earlier.
pub proof fn law_ping_is_forced_after_the_timeout(last: int, now: int, timeout: int)
    ensures
        forces_ping(last, now, timeout) <==> now > last + timeout,
{
}

/// What a stream knows of itself.
pub struct Stream {
    metadata: Bytes,
}

impl View for Stream {
    type V = Seq<u8>;

    closed spec fn view(&self) -> Seq<u8> {
        contents(self.metadata)
    }
}

impl Stream {
    /// A stream that was opened with the given metadata.
    pub fn new(metadata: Bytes) -> (s: Stream)
        ensures
            s@ == contents(metadata),
    {
        Stream { metadata }
    }

    /// The metadata that the stream was opened with.
    pub fn metadata(&self) -> (m: &[u8])
        ensures
            m@ == self@,
    {
        &self.metadata
    }

    /// The name of the protocol that carries the stream.
    pub fn protocol(&self) -> (s: &'static str)
        ensures
            s@ == "sillad-stream"@,
    {
        "sillad-stream"
    }

    /// The address at the other end, which a stream does not know.
    pub fn remote_addr(&self) -> (a: Option<&'static str>)
        ensures
            a is None,
    {
        None
    }

    /// What to report to whoever watches a stream, once a read into or a write from a buffer of
    /// `buf_len` bytes was tried: the length of the buffer, if the attempt came to an end.
    pub fn report(ready: bool, buf_len: usize) -> (r: Option<usize>)
        ensures
            r == (if ready {
                Some(buf_len)
            } else {
                None
            }),
    {
        if ready {
            Some(buf_len)
        } else {
            None
        }
    }
}

} // verus!
