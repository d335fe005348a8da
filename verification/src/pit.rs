//! 8254 interval timer: the channel 0 reload value for a tick rate.
use vstd::prelude::*;

verus! {

pub const PIT_CHANNEL0: u16 = 0x40;

pub const PIT_CMD: u16 = 0x43;

pub const PIT_BASE_HZ: u32 = 1193182;

/// Channel 0, low byte then high byte, square-wave mode.
pub const PIT_MODE: u8 = 0x36;

/// Reload value for `hz` ticks per second, cut to 16 bits as the counter holds,
/// as the low byte and the high byte the counter is written with.
pub fn init(hz: u32) -> (r: (u8, u8))
    requires
        hz > 0,
    ensures
        r.0 == ((PIT_BASE_HZ / hz) as u16) & 0xFF,
        r.1 == ((PIT_BASE_HZ / hz) as u16) >> 8u16,
{
    let divisor = (PIT_BASE_HZ / hz) as u16;
    let lo = divisor & 0xFF;
    let hi = divisor >> 8u16;
    assert(lo <= 0xFF && hi <= 0xFF) by (bit_vector)
        requires
            lo == divisor & 0xFF,
            hi == divisor >> 8u16,
    ;
    (lo as u8, hi as u8)
}

} // verus!
