//! 8259 interrupt controllers: which ports an acknowledgement or a mask change touches.
use vstd::prelude::*;

verus! {

pub const PIC1_CMD: u16 = 0x20;

pub const PIC1_DATA: u16 = 0x21;

pub const PIC2_CMD: u16 = 0xA0;

pub const PIC2_DATA: u16 = 0xA1;

pub const ICW1_ICW4: u8 = 0x01;

pub const ICW1_INIT: u8 = 0x10;

pub const ICW4_8086: u8 = 0x01;

pub const PIC_EOI: u8 = 0x20;

/// Vector of IRQ 0 after remapping.
pub const PIC1_OFFSET: u8 = 0x20;

/// Vector of IRQ 8 after remapping.
pub const PIC2_OFFSET: u8 = 0x28;

/// Mask left on the first controller after setup: only the timer and the keyboard pass.
pub const PIC1_MASK: u8 = 0b1111_1100;

/// Mask left on the second controller after setup: everything masked.
pub const PIC2_MASK: u8 = 0b1111_1111;

/// Command ports that receive an end-of-interrupt for IRQ line `irq`: the second
/// controller first when the line is on it, then always the first.
pub fn eoi(irq: u8) -> (ports: Vec<u16>)
    ensures
        irq >= 8 ==> ports@ == seq![PIC2_CMD, PIC1_CMD],
        irq < 8 ==> ports@ == seq![PIC1_CMD],
{
    let mut ports: Vec<u16> = Vec::new();
    if irq >= 8 {
        ports.push(PIC2_CMD);
    }
    ports.push(PIC1_CMD);
    proof {
        if irq >= 8 {
            assert(ports@ =~= seq![PIC2_CMD, PIC1_CMD]);
        } else {
            assert(ports@ =~= seq![PIC1_CMD]);
        }
    }
    ports
}

/// Data port and bit of IRQ line `irq`.
pub fn irq_line(irq: u8) -> (r: (u16, u8))
    requires
        irq < 16,
    ensures
        irq < 8 ==> r == (PIC1_DATA, irq),
        irq >= 8 ==> r == (PIC2_DATA, (irq - 8) as u8),
{
    if irq < 8 {
        (PIC1_DATA, irq)
    } else {
        (PIC2_DATA, irq - 8)
    }
}

/// Mask register value after masking bit `bit` of `old`.
pub fn mask(old: u8, bit: u8) -> (r: u8)
    requires
        bit < 8,
    ensures
        r == old | (1u8 << bit),
{
    old | (1u8 << bit)
}

/// Mask register value after unmasking bit `bit` of `old`.
pub fn unmask(old: u8, bit: u8) -> (r: u8)
    requires
        bit < 8,
    ensures
        r == old & !(1u8 << bit),
{
    old & !(1u8 << bit)
}

/// Masking sets exactly the line's bit; unmasking clears exactly it.
pub proof fn law_mask_unmask(old: u8, bit: u8, other: u8)
    requires
        bit < 8,
        other < 8,
    ensures
        ((old | (1u8 << bit)) >> bit) & 1 == 1,
        ((old & !(1u8 << bit)) >> bit) & 1 == 0,
        other != bit ==> ((old | (1u8 << bit)) >> other) & 1 == (old >> other) & 1,
        other != bit ==> ((old & !(1u8 << bit)) >> other) & 1 == (old >> other) & 1,
{
    assert(((old | (1u8 << bit)) >> bit) & 1 == 1 && ((old & !(1u8 << bit)) >> bit) & 1 == 0 && (
    other != bit ==> ((old | (1u8 << bit)) >> other) & 1 == (old >> other) & 1) && (other != bit
        ==> ((old & !(1u8 << bit)) >> other) & 1 == (old >> other) & 1)) by (bit_vector)
        requires
            bit < 8,
            other < 8,
    ;
}

} // verus!
