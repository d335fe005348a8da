# kernel_engineering

The logic of a small x86_64 kernel, verified with Verus, and the kernel around it.

- `src/` is the verified library: the bitmap frame allocator (`pmm`), page-table
  entries and the recursive-mapping addresses (`vmm`), the slab allocator (`slab`),
  the heap's frames (`heap`), the ELF64 loader (`elf`), the multiboot2 parser (`mb2`),
  tasks and the priority round-robin scheduler (`task`, `scheduler`), message queues
  and pipes (`msgq`, `pipe`), and the decisions behind interrupts, system calls and
  the PIC, PIT, UART, serial and VGA drivers. Functions that need hardware work done
  return it as values (pages to map, cells to write, ports to acknowledge).
- `app/` is the kernel proper: boot entry, port I/O and inline assembly, the global
  state behind `spin` locks, the context switch, and the heap's `GlobalAlloc` built on
  the slab allocator and `linked_list_allocator`.
- `tests/` exercise the library on concrete values.
