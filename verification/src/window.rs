//! Receive windows: how many more frames the other end of a stream may send.

use vstd::prelude::*;

verus! {

/// The number of frames that either end of a fresh stream may send.
pub const INIT_WINDOW: usize = 10;

/// The largest number of frames that may be outstanding on a stream.
pub const MAX_WINDOW: usize = 500;

/// The largest body of a data frame, in bytes.
pub const MSS: usize = 8192;

/// The smallest window that congestion can push a stream down to.
pub const MIN_TARGET: usize = 3;

/// The largest grant that is held back.
pub const MAX_QUANTUM: usize = 50;

/// The pause between two adjustments of a window, in milliseconds.
pub const ADJUST_INTERVAL_MS: u128 = 250;

/// The queueing delay beyond which a window shrinks, in milliseconds.
pub const DELAY_LIMIT_MS: u128 = 50;

/// The state of a receive window as numbers.
pub struct WindowState {
    /// The frames that the other end may still send, counted by deliveries.
    pub remote: int,
    /// The window that the receiver aims at.
    pub target: int,
}

/// The smallest grant worth a frame, for a window of the given size.
pub open spec fn min_quantum(target: int) -> int {
    if target / 10 < MIN_TARGET {
        MIN_TARGET as int
    } else if target / 10 > MAX_QUANTUM {
        MAX_QUANTUM as int
    } else {
        target / 10
    }
}

/// The window to aim at after a delivery that spent `queue_delay_ms` in the queue, when the last
/// adjustment is `since_adjust_ms` old: halved under delay, one more without, and left alone
/// until an adjustment is due.
pub open spec fn next_target(target: int, queue_delay_ms: int, since_adjust_ms: int) -> int {
    if since_adjust_ms <= ADJUST_INTERVAL_MS {
        target
    } else if queue_delay_ms > DELAY_LIMIT_MS {
        if target / 2 < MIN_TARGET {
            MIN_TARGET as int
        } else {
            target / 2
        }
    } else {
        if target + 1 > MAX_WINDOW {
            MAX_WINDOW as int
        } else {
            target + 1
        }
    }
}

impl WindowState {
    /// A fresh window.
    pub open spec fn initial() -> WindowState {
        WindowState { remote: INIT_WINDOW as int, target: MAX_WINDOW as int }
    }

    /// What every reachable window satisfies. In particular the other end always has at least
    /// one frame left to send, and never more than fit in the receive queue.
    pub open spec fn valid(self) -> bool {
        &&& 1 <= self.remote <= MAX_WINDOW
        &&& MIN_TARGET <= self.target <= MAX_WINDOW
    }

    /// The frames granted to the other end by a delivery.
    pub open spec fn grant(self, queue_delay_ms: int, since_adjust_ms: int) -> int {
        let target = next_target(self.target, queue_delay_ms, since_adjust_ms);
        if self.remote - 1 + min_quantum(self.target) <= target {
            target - (self.remote - 1)
        } else {
            0
        }
    }

    /// The window after a delivery.
    pub open spec fn delivered(self, queue_delay_ms: int, since_adjust_ms: int) -> WindowState {
        WindowState {
            remote: self.remote - 1 + self.grant(queue_delay_ms, since_adjust_ms),
            target: next_target(self.target, queue_delay_ms, since_adjust_ms),
        }
    }
}

/// A delivery keeps a window valid, whatever delays were measured: the count of frames that the
/// other end may send neither runs out nor outgrows the receive queue, and a grant fits in the
/// sixteen bits that carry it.
pub proof fn law_window_stays_valid(w: WindowState, queue_delay_ms: int, since_adjust_ms: int)
    requires
        w.valid(),
    ensures
        w.delivered(queue_delay_ms, since_adjust_ms).valid(),
        0 <= w.grant(queue_delay_ms, since_adjust_ms) <= MAX_WINDOW,
        w.grant(queue_delay_ms, since_adjust_ms) > 0 ==> w.delivered(
            queue_delay_ms,
            since_adjust_ms,
        ).remote == w.delivered(queue_delay_ms, since_adjust_ms).target,
{
}

/// A fresh window lets the other end send ten frames and aims at five hundred.
pub proof fn law_fresh_window()
    ensures
        WindowState::initial().remote == 10,
        WindowState::initial().target == 500,
{
}

/// The window follows the queueing delay. It is left alone for 250 ms after an adjustment. Then a
/// delivery that waited for at most 50 ms makes it one larger, up to 500, and one that waited for
/// longer halves it, down to 3.
pub proof fn law_window_follows_delay(w: WindowState, queue_delay_ms: int, since_adjust_ms: int)
    requires
        w.valid(),
    ensures
        ({
            let target = w.delivered(queue_delay_ms, since_adjust_ms).target;
            &&& since_adjust_ms <= 250 ==> target == w.target
            &&& since_adjust_ms > 250 && queue_delay_ms <= 50 ==> {
                &&& target >= w.target
                &&& w.target < 500 ==> target == w.target + 1
                &&& w.target == 500 ==> target == 500
            }
            &&& since_adjust_ms > 250 && queue_delay_ms > 50 ==> {
                &&& target <= w.target
                &&& w.target >= 6 ==> 2 * target <= w.target <= 2 * target + 1
                &&& w.target < 6 ==> target == 3
            }
        }),
{
}

/// Less delay never makes for a smaller window.
pub proof fn law_less_delay_never_hurts(
    w: WindowState,
    less_ms: int,
    more_ms: int,
    since_adjust_ms: int,
)
    requires
        w.valid(),
        less_ms <= more_ms,
    ensures
        w.delivered(less_ms, since_adjust_ms).target >= w.delivered(more_ms, since_adjust_ms).target,
{
}

/// A larger window stays the larger one under the same delays.
pub proof fn law_windows_keep_their_order(
    smaller: WindowState,
    larger: WindowState,
    queue_delay_ms: int,
    since_adjust_ms: int,
)
    requires
        smaller.valid(),
        larger.valid(),
        smaller.target <= larger.target,
    ensures
        smaller.delivered(queue_delay_ms, since_adjust_ms).target <= larger.delivered(
            queue_delay_ms,
            since_adjust_ms,
        ).target,
{
}

/// A delivery takes up one frame of the window and gives back what it grants. It grants either
/// nothing or all that is missing to the new target: nothing as long as that is less than 3, or
/// less than a tenth of the old target and less than 50; all of it from there on.
pub proof fn law_grants_fill_the_window(w: WindowState, queue_delay_ms: int, since_adjust_ms: int)
    requires
        w.valid(),
    ensures
        ({
            let next = w.delivered(queue_delay_ms, since_adjust_ms);
            let grant = w.grant(queue_delay_ms, since_adjust_ms);
            let missing = next.target - (w.remote - 1);
            &&& next.remote == w.remote - 1 + grant
            &&& grant == 0 || grant == missing
            &&& missing < 3 ==> grant == 0
            &&& missing < 50 && 10 * (missing + 1) <= w.target ==> grant == 0
            &&& missing >= 50 ==> grant == missing
            &&& missing >= 3 && 10 * (missing + 1) > w.target ==> grant == missing
        }),
{
}

/// What a delivery asks of the stream's owner.
#[derive(Clone, Copy, Debug, PartialEq, Eq, Structural)]
pub struct Delivery {
    /// Whether the window was adjusted, so that the next pause starts now.
    pub adjusted: bool,
    /// The frames to grant to the other end, if any.
    pub grant: Option<u16>,
}

/// The receive window of one stream.
#[derive(Debug)]
pub struct ReceiveWindow {
    remote: usize,
    target: usize,
}

impl View for ReceiveWindow {
    type V = WindowState;

    closed spec fn view(&self) -> WindowState {
        WindowState { remote: self.remote as int, target: self.target as int }
    }
}

impl ReceiveWindow {
    #[verifier::type_invariant]
    spec fn inv(self) -> bool {
        self@.valid()
    }

    /// The window of a fresh stream.
    pub fn new() -> (w: ReceiveWindow)
        ensures
            w@ == WindowState::initial(),
            w@.valid(),
    {
        ReceiveWindow { remote: INIT_WINDOW, target: MAX_WINDOW }
    }

    /// The frames that the other end may still send.
    pub fn remote(&self) -> (n: usize)
        ensures
            n == self@.remote,
            self@.valid(),
    {
        proof {
            use_type_invariant(self);
        }
        self.remote
    }

    /// The window that this end aims at.
    pub fn target(&self) -> (n: usize)
        ensures
            n == self@.target,
            self@.valid(),
    {
        proof {
            use_type_invariant(self);
        }
        self.target
    }

    /// Accounts for one frame that was handed to the reader of the stream. `queue_delay_ms` is
    /// the time that the frame waited in the queue, `since_adjust_ms` the time since the window
    /// was last adjusted.
    pub fn on_delivered(&mut self, queue_delay_ms: u128, since_adjust_ms: u128) -> (d: Delivery)
        ensures
            old(self)@.valid(),
            final(self)@ == old(self)@.delivered(queue_delay_ms as int, since_adjust_ms as int),
            final(self)@.valid(),
            d.adjusted == (since_adjust_ms > ADJUST_INTERVAL_MS),
            d.grant == (if old(self)@.grant(queue_delay_ms as int, since_adjust_ms as int) > 0 {
                Some(old(self)@.grant(queue_delay_ms as int, since_adjust_ms as int) as u16)
            } else {
                None::<u16>
            }),
            final(self)@.remote == old(self)@.remote - 1 + (match d.grant {
                Some(grant) => grant as int,
                None => 0,
            }),
            d.grant is Some ==> final(self)@.remote == final(self)@.target,
            !d.adjusted ==> final(self)@.target == old(self)@.target,
            d.adjusted && queue_delay_ms <= 50 ==> final(self)@.target >= old(self)@.target,
            d.adjusted && queue_delay_ms > 50 ==> final(self)@.target <= old(self)@.target,
    {
        proof {
            use_type_invariant(&*self);
            law_window_stays_valid(self@, queue_delay_ms as int, since_adjust_ms as int);
        }
        let tenth: usize = self.target / 10;
        let quantum_floor: usize = if tenth < MIN_TARGET {
            MIN_TARGET
        } else if tenth > MAX_QUANTUM {
            MAX_QUANTUM
        } else {
            tenth
        };
        let remote: usize = self.remote - 1;
        let adjusted = since_adjust_ms > ADJUST_INTERVAL_MS;
        let target: usize = if !adjusted {
            self.target
        } else if queue_delay_ms > DELAY_LIMIT_MS {
            if self.target / 2 < MIN_TARGET {
                MIN_TARGET
            } else {
                self.target / 2
            }
        } else {
            if self.target + 1 > MAX_WINDOW {
                MAX_WINDOW
            } else {
                self.target + 1
            }
        };
        if remote + quantum_floor <= target {
            let quantum: usize = target - remote;
            *self = ReceiveWindow { remote: remote + quantum, target };
            Delivery { adjusted, grant: Some(quantum as u16) }
        } else {
            *self = ReceiveWindow { remote, target };
            Delivery { adjusted, grant: None }
        }
    }
}

} // verus!
