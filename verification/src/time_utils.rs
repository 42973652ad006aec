//! Millisecond timestamps wider than 64 bits, split into two `u64` halves so
//! they survive transport layers that only carry 64-bit integers.

use vstd::prelude::*;

verus! {

/// A count of milliseconds, split as `high * 2^64 + low`.
#[derive(Debug, Clone, Copy, PartialEq, Eq, Structural)]
pub struct MillisTime {
    pub high: u64,
    pub low: u64,
}

/// The number of milliseconds a `MillisTime` stands for.
pub open spec fn millis_value(t: MillisTime) -> int {
    t.high * 0x1_0000_0000_0000_0000 + t.low
}

pub fn millis_to_u128(time: MillisTime) -> (r: u128)
    ensures
        r == millis_value(time),
{
    let ghost h: u64 = time.high;
    let ghost l: u64 = time.low;
    proof {
        assert((h as u128) << 64u128 == h * 0x1_0000_0000_0000_0000) by (bit_vector);
        assert(h * 0x1_0000_0000_0000_0000 + l <= u128::MAX) by (nonlinear_arith)
            requires
                h <= u64::MAX,
                l <= u64::MAX,
        ;
    }
    let r: u128 = ((time.high as u128) << 64u128) + time.low as u128;
    r
}

pub fn u128_to_millis(time: u128) -> (r: MillisTime)
    ensures
        millis_value(r) == time,
{
    let low: u64 = time as u64;
    let high: u64 = (time >> 64u128) as u64;
    proof {
        assert((time >> 64u128) as u64 * 0x1_0000_0000_0000_0000 + time as u64 == time)
            by (bit_vector);
    }
    MillisTime { high, low }
}

/// The sum of two timestamps; the total must fit in 128 bits.
pub fn add_millis(t1: MillisTime, t2: MillisTime) -> (r: MillisTime)
    requires
        millis_value(t1) + millis_value(t2) <= u128::MAX,
    ensures
        millis_value(r) == millis_value(t1) + millis_value(t2),
{
    let sum: u128 = millis_to_u128(t1) + millis_to_u128(t2);
    u128_to_millis(sum)
}

/// The difference of two timestamps, saturating at zero.
pub fn sub_millis(t1: MillisTime, t2: MillisTime) -> (r: MillisTime)
    ensures
        millis_value(t1) >= millis_value(t2) ==> millis_value(r) == millis_value(t1)
            - millis_value(t2),
        millis_value(t1) < millis_value(t2) ==> millis_value(r) == 0,
{
    let sub: u128 = millis_to_u128(t1).saturating_sub(millis_to_u128(t2));
    u128_to_millis(sub)
}

/// Relies on `std::time::SystemTime::now` and
/// `SystemTime::duration_since(UNIX_EPOCH)`: one reading of the system clock,
/// in milliseconds since the epoch. `None` when the clock stands before the
/// epoch. Nothing can be promised of a clock reading.
#[verifier::external_body]
fn system_millis_since_epoch() -> Option<u128> {
    match std::time::SystemTime::now().duration_since(std::time::UNIX_EPOCH) {
        Ok(elapsed) => Some(elapsed.as_millis()),
        Err(_) => None,
    }
}

/// The current system time. System time is not guaranteed to be monotonic;
/// a clock standing before the epoch reads as zero.
pub fn time_now() -> MillisTime {
    match system_millis_since_epoch() {
        Some(millis) => u128_to_millis(millis),
        None => MillisTime { high: 0, low: 0 },
    }
}

} // verus!
