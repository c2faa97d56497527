//! Differences of counters, and the rates that they make over time.

use vstd::prelude::*;

verus! {

/// Nanoseconds in a second.
pub const NANOS: u64 = 1_000_000_000;

/// What a counter has gained; nothing where it went back.
pub open spec fn gain(now: u64, then: u64) -> u64 {
    if now >= then {
        (now - then) as u64
    } else {
        0
    }
}

/// Whether the rate of `delta` bytes is a number of 64 bits.
pub open spec fn rate_fits(delta: u64, elapsed_ns: u64) -> bool {
    elapsed_ns > 0 ==> delta * NANOS / elapsed_ns as int <= u64::MAX
}

/// `delta` bytes in `elapsed_ns` nanoseconds as bytes per second, rounded down;
/// 0 where no time has passed.
pub open spec fn rate(delta: u64, elapsed_ns: u64) -> u64 {
    if elapsed_ns > 0 {
        (delta * NANOS / elapsed_ns as int) as u64
    } else {
        0
    }
}

/// `delta` bytes in `elapsed_ns` nanoseconds as bytes per second, however many.
fn wide_rate(delta: u64, elapsed_ns: u64) -> (r: u128)
    requires
        elapsed_ns > 0,
    ensures
        r == delta * NANOS / elapsed_ns as int,
{
    assert(0 <= delta * NANOS <= u64::MAX * NANOS) by (nonlinear_arith);
    delta as u128 * NANOS as u128 / elapsed_ns as u128
}

/// Whether the rate of `delta` bytes is a number of 64 bits.
pub fn bytes_per_sec_fits(delta: u64, elapsed_ns: u64) -> (r: bool)
    ensures
        r == rate_fits(delta, elapsed_ns),
{
    elapsed_ns == 0 || wide_rate(delta, elapsed_ns) <= u64::MAX as u128
}

/// `delta` bytes in `elapsed_ns` nanoseconds as bytes per second.
pub fn bytes_per_sec(delta: u64, elapsed_ns: u64) -> (r: u64)
    requires
        rate_fits(delta, elapsed_ns),
    ensures
        r == rate(delta, elapsed_ns),
        elapsed_ns > 0 ==> r == delta * NANOS / elapsed_ns as int,
        elapsed_ns == 0 ==> r == 0,
{
    if elapsed_ns > 0 {
        wide_rate(delta, elapsed_ns) as u64
    } else {
        0
    }
}

/// Where nothing was gained the rate is 0.
pub proof fn lemma_rate_of_nothing(elapsed_ns: u64)
    ensures
        rate_fits(0, elapsed_ns),
        rate(0, elapsed_ns) == 0,
{
    if elapsed_ns > 0 {
        assert(0int / elapsed_ns as int == 0) by (nonlinear_arith)
            requires
                elapsed_ns > 0,
        ;
    }
}

} // verus!
