//! Segment selectors, matching the GDT layout.
use vstd::prelude::*;

verus! {

pub const KERNEL_CODE: u16 = 0x08;

pub const KERNEL_DATA: u16 = 0x10;

pub const USER_CODE: u16 = 0x1B;

pub const USER_DATA: u16 = 0x23;

pub const TSS: u16 = 0x28;

} // verus!
