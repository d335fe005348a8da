//! Verified core of a small x86_64 kernel: the physical frame allocator,
//! page-table entry arithmetic, the ELF and multiboot2 parsers, the run queue,
//! message queues and pipes, and the decisions behind the interrupt, syscall
//! and device paths. Everything that touches hardware lives outside this crate.

pub mod bits;
pub mod pmm;
pub mod pipe;
pub mod msgq;
pub mod vmm;
pub mod elf;
pub mod mb2;
pub mod task;
pub mod scheduler;
pub mod slab;
pub mod gdt;
pub mod idt;
pub mod pic;
pub mod pit;
pub mod serial;
pub mod uart;
pub mod vga;
pub mod syscall;
pub mod heap;
