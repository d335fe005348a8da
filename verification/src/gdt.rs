//! Task state segment layout.
use vstd::prelude::*;

pub mod sel;

verus! {

/// Size in bytes of the packed x86_64 task state segment.
pub const TSS_SIZE: u16 = 104;

/// Size of the stack used for the double-fault handler (IST1).
pub const IST_STACK_SIZE: u64 = 4096;

pub struct Tss {
    pub reserved0: u32,
    pub rsp: [u64; 3],
    pub reserved1: u64,
    pub ist: [u64; 7],
    pub reserved2: u64,
    pub reserved3: u16,
    pub iopb_off: u16,
}

impl Tss {
    /// A segment with no stacks set and the I/O permission bitmap past its end,
    /// so that no port is permitted from user mode.
    pub fn zero() -> (t: Self)
        ensures
            t.reserved0 == 0,
            forall|i: int| 0 <= i < 3 ==> t.rsp@[i] == 0,
            t.reserved1 == 0,
            forall|i: int| 0 <= i < 7 ==> t.ist@[i] == 0,
            t.reserved2 == 0,
            t.reserved3 == 0,
            t.iopb_off == TSS_SIZE,
    {
        Tss {
            reserved0: 0,
            rsp: [0, 0, 0],
            reserved1: 0,
            ist: [0, 0, 0, 0, 0, 0, 0],
            reserved2: 0,
            reserved3: 0,
            iopb_off: TSS_SIZE,
        }
    }

    /// Points IST1 at the top of the stack whose lowest byte is at `stack_base`.
    pub fn set_ist1(&mut self, stack_base: u64)
        requires
            stack_base + IST_STACK_SIZE <= u64::MAX,
        ensures
            final(self).ist@ == old(self).ist@.update(0, (stack_base + IST_STACK_SIZE) as u64),
            final(self).rsp == old(self).rsp,
            final(self).iopb_off == old(self).iopb_off,
    {
        self.ist[0] = stack_base + IST_STACK_SIZE;
    }
}

} // verus!
