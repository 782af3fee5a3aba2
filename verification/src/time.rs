//! Spans of time: what the library relies on of [`std::time::Duration`].

use std::time::Duration;
use vstd::prelude::*;

verus! {

/// The nanoseconds in a span of time.
pub uninterp spec fn nanos(d: Duration) -> nat;

/// `Duration::from_secs` makes a span of whole seconds.
pub assume_specification[ Duration::from_secs ](secs: u64) -> (d: Duration)
    ensures
        nanos(d) == secs * 1_000_000_000,
;

/// `Duration::as_nanos` counts the nanoseconds in a span.
pub assume_specification[ Duration::as_nanos ](d: &Duration) -> (n: u128)
    ensures
        n == nanos(*d),
;

/// `Duration::as_millis` counts the whole milliseconds in a span.
pub assume_specification[ Duration::as_millis ](d: &Duration) -> (n: u128)
    ensures
        n == nanos(*d) / 1_000_000,
;

} // verus!
