//! Keeping a multiplexer alive: when to ping, and what to make of the answer.

use crate::error::{ErrorKind, Failure, MuxError};
use crate::frame::{message, Frame, CMD_PING};
use crate::session::failure;
use crate::time::nanos;
use std::time::Duration;
use vstd::prelude::*;

verus! {

/// How often to ping, and how long to wait for the answer.
#[derive(Clone, Copy, Debug)]
pub struct LivenessConfig {
    pub ping_interval: Duration,
    pub timeout: Duration,
}

impl Default for LivenessConfig {
    fn default() -> (c: LivenessConfig)
        ensures
            nanos(c.ping_interval) == 1800 * 1_000_000_000,
            nanos(c.timeout) == 30 * 1_000_000_000,
    {
        LivenessConfig {
            ping_interval: Duration::from_secs(1800),
            timeout: Duration::from_secs(30),
        }
    }
}

/// The pinging side of a multiplexer.
#[derive(Clone, Copy, Debug)]
pub enum PingLoop {
    /// Waiting for the next ping to be due, or for a new configuration.
    Resting { planned: Option<LivenessConfig> },
    /// Waiting for the answer to a ping.
    Awaiting { config: LivenessConfig },
    /// No configuration can come any more: nothing is ever pinged again.
    Stopped,
    /// A ping went unanswered.
    Failed,
}

/// What ends a rest.
#[derive(Clone, Copy, Debug)]
pub enum Wake {
    /// The pause between pings is over.
    Due,
    /// A configuration came.
    Config(LivenessConfig),
    /// No configuration can come any more.
    ConfigsEnded,
}

/// A ping to send.
#[derive(Clone, Copy, Debug)]
pub struct Ping {
    /// The pause until the next ping, in milliseconds.
    pub next_ping_in_ms: u64,
    /// How long to wait for the answer.
    pub timeout: Duration,
}

/// The state after a rest.
pub open spec fn woken(state: PingLoop, wake: Wake) -> PingLoop {
    match (state, wake) {
        (PingLoop::Resting { planned: Some(config) }, Wake::Due) => PingLoop::Awaiting { config },
        (PingLoop::Resting { .. }, Wake::Config(config)) => PingLoop::Awaiting { config },
        (PingLoop::Resting { .. }, Wake::ConfigsEnded) => PingLoop::Stopped,
        _ => state,
    }
}

/// The state after a wait for the answer to a ping.
pub open spec fn replied(state: PingLoop, answered: bool) -> PingLoop {
    match state {
        PingLoop::Awaiting { config } => if answered {
            PingLoop::Resting { planned: Some(config) }
        } else {
            PingLoop::Failed
        },
        _ => state,
    }
}

impl PingLoop {
    /// Nothing is pinged before a configuration comes.
    pub fn new() -> (s: PingLoop)
        ensures
            s == (PingLoop::Resting { planned: None }),
    {
        PingLoop::Resting { planned: None }
    }

    /// The pause until the next ping, if one is planned.
    pub fn pause(&self) -> (d: Option<Duration>)
        ensures
            d == (match *self {
                PingLoop::Resting { planned: Some(config) } => Some(config.ping_interval),
                _ => None,
            }),
    {
        match *self {
            PingLoop::Resting { planned: Some(config) } => Some(config.ping_interval),
            _ => None,
        }
    }

    /// Ends a rest, with a ping to send unless no more are to be sent.
    pub fn on_wake(&mut self, wake: Wake) -> (r: Option<Ping>)
        requires
            *old(self) is Resting,
            wake is Due ==> (*old(self))->planned is Some,
        ensures
            *final(self) == woken(*old(self), wake),
            match r {
                Some(ping) => *final(self) matches PingLoop::Awaiting { config } && {
                    &&& ping.next_ping_in_ms == nanos(config.ping_interval) / 1_000_000
                        % 0x1_0000_0000_0000_0000
                    &&& nanos(config.ping_interval) < 0x1_0000_0000_0000_0000 * 1_000_000 ==> {
                        &&& ping.next_ping_in_ms * 1_000_000 <= nanos(config.ping_interval)
                        &&& nanos(config.ping_interval) < (ping.next_ping_in_ms + 1) * 1_000_000
                    }
                    &&& ping.timeout == config.timeout
                },
                None => wake is ConfigsEnded,
            },
            wake matches Wake::Config(config) ==> (r matches Some(ping) && ping.timeout
                == config.timeout),
            wake is Due ==> (r matches Some(ping) && ping.timeout
                == (*old(self))->planned->0.timeout),
            r is None <==> wake is ConfigsEnded,
    {
        let config: LivenessConfig = match wake {
            Wake::Due => match *self {
                PingLoop::Resting { planned: Some(config) } => config,
                _ => {
                    return None;
                },
            },
            Wake::Config(config) => config,
            Wake::ConfigsEnded => {
                *self = PingLoop::Stopped;
                return None;
            },
        };
        *self = PingLoop::Awaiting { config };
        let ms: u128 = config.ping_interval.as_millis() % 0x1_0000_0000_0000_0000;
        Some(Ping { next_ping_in_ms: ms as u64, timeout: config.timeout })
    }

    /// Ends the wait for the answer to a ping: after `latency` if it came, or in a failure if it
    /// did not come in time.
    pub fn on_reply(&mut self, latency: Option<Duration>) -> (r: Result<Duration, MuxError>)
        requires
            *old(self) is Awaiting,
        ensures
            *final(self) == replied(*old(self), latency is Some),
            match r {
                Ok(d) => latency == Some(d),
                Err(e) => latency is None && e@ == failure(
                    ErrorKind::TimedOut,
                    "ping-pong timed out"@,
                ),
            },
    {
        match latency {
            Some(d) => {
                if let PingLoop::Awaiting { config } = *self {
                    *self = PingLoop::Resting { planned: Some(config) };
                }
                Ok(d)
            },
            None => {
                *self = PingLoop::Failed;
                Err(MuxError::new(ErrorKind::TimedOut, "ping-pong timed out"))
            },
        }
    }
}

/// The frame that carries a ping with the given body.
pub fn ping_frame(body: &[u8]) -> (f: Frame)
    ensures
        f@ == message(0, CMD_PING, body@),
{
    Frame::new(0, CMD_PING, body)
}

/// A new configuration takes effect at once: the ping that it causes is waited for, and the next
/// one planned, by the new configuration, and later pings go on with it.
pub proof fn law_new_config_takes_effect(planned: Option<LivenessConfig>, new: LivenessConfig)
    ensures
        ({
            let pinged = woken(PingLoop::Resting { planned }, Wake::Config(new));
            let rested = replied(pinged, true);
            &&& pinged == PingLoop::Awaiting { config: new }
            &&& rested == PingLoop::Resting { planned: Some(new) }
            &&& woken(rested, Wake::Due) == pinged
        }),
{
}

/// A ping that goes unanswered is the end, and nothing brings the pinging side back.
pub proof fn law_unanswered_ping_is_final(state: PingLoop, wake: Wake, answered: bool)
    requires
        state is Awaiting,
    ensures
        replied(state, false) is Failed,
        woken(replied(state, false), wake) is Failed,
        replied(replied(state, false), answered) is Failed,
{
}

/// What a pause ends in: a ping by the configuration that was planned with, or by the new one, or
/// the end of pinging where no configuration can come any more.
pub proof fn law_rest_ends_in_a_ping(
    config: LivenessConfig,
    planned: Option<LivenessConfig>,
    new: LivenessConfig,
)
    ensures
        woken(PingLoop::Resting { planned: Some(config) }, Wake::Due) == (PingLoop::Awaiting {
            config,
        }),
        woken(PingLoop::Resting { planned }, Wake::Config(new)) == (PingLoop::Awaiting {
            config: new,
        }),
        woken(PingLoop::Resting { planned }, Wake::ConfigsEnded) is Stopped,
{
}

/// An answer keeps the pinging side going with the same configuration;
/// only the lack of one ends it.
pub proof fn law_answer_keeps_pinging(config: LivenessConfig, answered: bool)
    ensures
        ({
            let next = replied(PingLoop::Awaiting { config }, answered);
            &&& answered ==> next == (PingLoop::Resting { planned: Some(config) })
            &&& !answered ==> next is Failed
        }),
{
}

/// Once no configuration can come any more, nothing is pinged again.
pub proof fn law_stopped_for_good(wake: Wake, answered: bool)
    ensures
        woken(PingLoop::Stopped, wake) is Stopped,
        replied(PingLoop::Stopped, answered) is Stopped,
{
}

} // verus!
