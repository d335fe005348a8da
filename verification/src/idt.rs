//! Interrupt descriptor table entries and the decision an interrupt leads to.
use vstd::prelude::*;
use crate::gdt::sel;

verus! {

pub const IDT_LEN: usize = 256;

/// Number of vectors with an entry stub: 32 exceptions and 16 IRQs.
pub const STUB_COUNT: usize = 48;

/// Present, ring 0, 64-bit interrupt gate.
pub const INT_GATE: u8 = 0x8E;

/// Present, ring 0, 64-bit trap gate.
pub const TRAP_GATE: u8 = 0x8F;

/// Vector of the double fault, which runs on IST1.
pub const DOUBLE_FAULT: usize = 8;

/// IDT limit: the table's size in bytes less one.
pub const IDT_LIMIT: u16 = 4095;

/// A 128-bit gate descriptor.
#[derive(Clone, Copy)]
pub struct Gate {
    pub off_low: u16,
    pub selector: u16,
    pub ist: u8,
    pub attr: u8,
    pub off_mid: u16,
    pub off_high: u32,
    pub zero: u32,
}

impl Gate {
    /// The empty descriptor.
    pub fn null() -> (g: Self)
        ensures
            g == (Gate { off_low: 0, selector: 0, ist: 0, attr: 0, off_mid: 0, off_high: 0, zero: 0 }),
    {
        Gate { off_low: 0, selector: 0, ist: 0, attr: 0, off_mid: 0, off_high: 0, zero: 0 }
    }

    /// A descriptor for the handler at `handler`, split into its three parts.
    pub fn new(handler: u64, selector: u16, ist: u8, attr: u8) -> (g: Self)
        ensures
            g.off_low == handler & 0xFFFF,
            g.off_mid == (handler >> 16u64) & 0xFFFF,
            g.off_high == handler >> 32u64,
            g.selector == selector,
            g.ist == ist,
            g.attr == attr,
            g.zero == 0,
    {
        let lo = handler & 0xFFFF;
        let mid = (handler >> 16u64) & 0xFFFF;
        let hi = handler >> 32u64;
        assert(lo <= 0xFFFF && mid <= 0xFFFF && hi <= 0xFFFF_FFFF) by (bit_vector)
            requires
                lo == handler & 0xFFFF,
                mid == (handler >> 16u64) & 0xFFFF,
                hi == handler >> 32u64,
        ;
        Gate {
            off_low: lo as u16,
            selector,
            ist,
            attr,
            off_mid: mid as u16,
            off_high: hi as u32,
            zero: 0,
        }
    }
}

/// The three parts of a gate put the handler address back together.
pub proof fn law_gate_offset(handler: u64)
    ensures
        (handler & 0xFFFF) | (((handler >> 16u64) & 0xFFFF) << 16u64) | ((handler >> 32u64) << 32u64)
            == handler,
{
    assert((handler & 0xFFFF) | (((handler >> 16u64) & 0xFFFF) << 16u64) | ((handler >> 32u64)
        << 32u64) == handler) by (bit_vector);
}

/// The table: one interrupt gate per stub, in the kernel code segment, the double
/// fault on IST1; the other vectors empty.
pub fn idt_entries(stubs: &[u64]) -> (t: Vec<Gate>)
    requires
        stubs.len() == STUB_COUNT,
    ensures
        t@.len() == IDT_LEN,
        forall|i: int|
            0 <= i < STUB_COUNT ==> {
                let g = #[trigger] t@[i];
                &&& g.off_low == stubs@[i] & 0xFFFF
                &&& g.off_mid == (stubs@[i] >> 16u64) & 0xFFFF
                &&& g.off_high == stubs@[i] >> 32u64
                &&& g.selector == sel::KERNEL_CODE
                &&& g.ist == (if i == DOUBLE_FAULT { 1u8 } else { 0u8 })
                &&& g.attr == INT_GATE
                &&& g.zero == 0
            },
        forall|i: int|
            STUB_COUNT <= i < IDT_LEN ==> #[trigger] t@[i] == (Gate {
                off_low: 0,
                selector: 0,
                ist: 0,
                attr: 0,
                off_mid: 0,
                off_high: 0,
                zero: 0,
            }),
{
    let mut t: Vec<Gate> = Vec::new();
    let mut i: usize = 0;
    while i < IDT_LEN
        invariant
            stubs.len() == STUB_COUNT,
            i <= IDT_LEN,
            t@.len() == i,
            forall|j: int|
                0 <= j < i && j < STUB_COUNT ==> {
                    let g = #[trigger] t@[j];
                    &&& g.off_low == stubs@[j] & 0xFFFF
                    &&& g.off_mid == (stubs@[j] >> 16u64) & 0xFFFF
                    &&& g.off_high == stubs@[j] >> 32u64
                    &&& g.selector == sel::KERNEL_CODE
                    &&& g.ist == (if j == DOUBLE_FAULT { 1u8 } else { 0u8 })
                    &&& g.attr == INT_GATE
                    &&& g.zero == 0
                },
            forall|j: int|
                STUB_COUNT <= j < i ==> #[trigger] t@[j] == (Gate {
                    off_low: 0,
                    selector: 0,
                    ist: 0,
                    attr: 0,
                    off_mid: 0,
                    off_high: 0,
                    zero: 0,
                }),
        decreases IDT_LEN - i,
    {
        if i < STUB_COUNT {
            let ist: u8 = if i == DOUBLE_FAULT {
                1
            } else {
                0
            };
            t.push(Gate::new(stubs[i], sel::KERNEL_CODE, ist, INT_GATE));
        } else {
            t.push(Gate::null());
        }
        i = i + 1;
    }
    t
}

/// The registers saved on an interrupt, in the order the entry stub leaves them.
pub struct InterruptFrame {
    pub r15: u64,
    pub r14: u64,
    pub r13: u64,
    pub r12: u64,
    pub r11: u64,
    pub r10: u64,
    pub r9: u64,
    pub r8: u64,
    pub rbp: u64,
    pub rdi: u64,
    pub rsi: u64,
    pub rdx: u64,
    pub rcx: u64,
    pub rbx: u64,
    pub rax: u64,
    pub int_num: u64,
    pub error_code: u64,
    pub rip: u64,
    pub cs: u64,
    pub rflags: u64,
    pub rsp: u64,
    pub ss: u64,
}

/// What the kernel does for an interrupt.
#[derive(Clone, Copy, Debug, PartialEq, Eq, Structural)]
pub enum InterruptAction {
    /// Report the faulting address and halt.
    PageFault,
    /// Report and halt.
    GeneralProtection,
    /// Tick the scheduler, then acknowledge IRQ 0.
    Timer,
    /// Read the scancode, then acknowledge IRQ 1.
    Keyboard,
    /// Report this CPU exception and halt.
    Exception(u64),
    /// Acknowledge this IRQ line and go on.
    Irq(u8),
}

/// Decides what to do with the interrupt described by `frame`.
pub fn interrupt_dispatch(frame: &InterruptFrame) -> (a: InterruptAction)
    ensures
        a == (match frame.int_num {
            14 => InterruptAction::PageFault,
            13 => InterruptAction::GeneralProtection,
            32 => InterruptAction::Timer,
            33 => InterruptAction::Keyboard,
            n => if n < 32 {
                InterruptAction::Exception(n)
            } else {
                InterruptAction::Irq((n - 32) as u8)
            },
        }),
{
    let num = frame.int_num;
    match num {
        14 => InterruptAction::PageFault,
        13 => InterruptAction::GeneralProtection,
        32 => InterruptAction::Timer,
        33 => InterruptAction::Keyboard,
        _ => {
            if num < 32 {
                InterruptAction::Exception(num)
            } else {
                InterruptAction::Irq((num - 32) as u8)
            }
        },
    }
}

} // verus!
