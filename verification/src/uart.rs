//! Generic 16550 UART: line setup values and what goes out for a string.
use vstd::prelude::*;
use vstd::string::StringSliceAdditionalSpecFns;
use crate::serial::{line_bytes, line_bytes_spec};

verus! {

pub const COM1: u16 = 0x3F8;

pub const COM2: u16 = 0x2F8;

pub const COM3: u16 = 0x3E8;

pub const COM4: u16 = 0x2E8;

/// Highest baud rate; the divisor latch divides it.
pub const UART_CLOCK: u32 = 115200;

pub struct Uart {
    pub base: u16,
}

/// Divisor latch value for `baud`, cut to 16 bits as the latch holds, as the low
/// byte and the high byte the latch is written with.
pub fn divisor_bytes(baud: u32) -> (r: (u8, u8))
    requires
        baud > 0,
    ensures
        r.0 == ((UART_CLOCK / baud) as u16) & 0xFF,
        r.1 == ((UART_CLOCK / baud) as u16) >> 8u16,
{
    let divisor = (UART_CLOCK / baud) as u16;
    let lo = divisor & 0xFF;
    let hi = divisor >> 8u16;
    assert(lo <= 0xFF && hi <= 0xFF) by (bit_vector)
        requires
            lo == divisor & 0xFF,
            hi == divisor >> 8u16,
    ;
    (lo as u8, hi as u8)
}

impl Uart {
    /// The bytes that writing `s` sends, in order: each `\n` preceded by `\r`.
    pub fn write_str(&self, s: &str) -> (out: Vec<u8>)
        ensures
            out@ == line_bytes_spec(s.spec_bytes()),
    {
        line_bytes(s.as_bytes())
    }

    /// Port of the line status register.
    pub fn status_port(&self) -> (p: u16)
        requires
            self.base + 5 <= u16::MAX,
        ensures
            p == self.base + 5,
    {
        self.base + 5
    }
}

/// Line status: the transmitter can take a byte.
pub fn transmit_ready(status: u8) -> (r: bool)
    ensures
        r == (status & 0x20 != 0),
{
    status & 0x20 != 0
}

/// Line status: a received byte is waiting.
pub fn data_ready(status: u8) -> (r: bool)
    ensures
        r == (status & 0x01 != 0),
{
    status & 0x01 != 0
}

} // verus!
