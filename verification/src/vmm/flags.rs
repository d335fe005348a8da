//! Page-table entry flag bits.
use vstd::prelude::*;

verus! {

pub const PRESENT: u64 = 0x1;

pub const WRITABLE: u64 = 0x2;

pub const USER: u64 = 0x4;

pub const WRITETHROUGH: u64 = 0x8;

pub const NO_CACHE: u64 = 0x10;

pub const ACCESSED: u64 = 0x20;

pub const DIRTY: u64 = 0x40;

pub const HUGE: u64 = 0x80;

pub const GLOBAL: u64 = 0x100;

pub const NX: u64 = 0x8000_0000_0000_0000;

/// Present, writable, global.
pub const KERNEL_RW: u64 = 0x103;

/// Present, global, not executable.
pub const KERNEL_RO: u64 = 0x8000_0000_0000_0101;

/// Present, writable, user-accessible.
pub const USER_RW: u64 = 0x7;

} // verus!
