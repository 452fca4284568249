//! The free running counter of the system timer.

use vstd::prelude::*;

verus! {

/// The value of the counter from its two halves.
pub fn get_time_counter_value(lo: u32, hi: u32) -> (r: u64)
    ensures
        r == hi as int * 0x1_0000_0000 + lo as int,
{
    let lo = lo as u64;
    let hi = hi as u64;
    proof {
        assert((hi << 32) | lo == hi * 0x1_0000_0000 + lo) by (bit_vector)
            requires
                hi <= 0xFFFF_FFFF,
                lo <= 0xFFFF_FFFF,
        ;
    }
    (hi << 32) | lo
}

/// Whether a wait of `usec` microseconds that began at `time_begin` is over
/// at `time_current`. The caller reads the counter until it is.
pub fn wait_usec(usec: u64, time_begin: u64, time_current: u64) -> (r: bool)
    requires
        time_begin <= time_current,
    ensures
        r == (usec <= time_current - time_begin),
{
    usec <= (time_current - time_begin)
}

/// Whether a wait of `msec` milliseconds that began at `time_begin` is over
/// at `time_current`.
pub fn wait(msec: u64, time_begin: u64, time_current: u64) -> (r: bool)
    requires
        time_begin <= time_current,
        msec * 1000 <= u64::MAX,
    ensures
        r == (msec * 1000 <= time_current - time_begin),
{
    wait_usec(msec * 1000, time_begin, time_current)
}

} // verus!
