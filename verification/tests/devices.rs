use kernel_engineering::gdt::{sel, Tss};
use kernel_engineering::heap::{init as heap_init, uses_slab, HEAP_PAGES, HEAP_START};
use kernel_engineering::idt::{idt_entries, interrupt_dispatch, Gate, InterruptAction, InterruptFrame};
use kernel_engineering::pic::{eoi, mask, unmask};
use kernel_engineering::pit::init as pit_init;
use kernel_engineering::pmm::{init as pmm_init, MmapEntry, Pmm};
use kernel_engineering::serial::{line_bytes, SerialWriter};
use kernel_engineering::syscall::{
    sys_read, sys_write, syscall_dispatch, write_text, Syscall, EAGAIN, EBADF,
};
use kernel_engineering::uart::{data_ready, divisor_bytes, transmit_ready, Uart, COM1};
use kernel_engineering::vga::{attr, clear, Color, Vga, CELLS, COLS, ROWS};

fn frame(n: u64) -> InterruptFrame {
    InterruptFrame {
        r15: 0, r14: 0, r13: 0, r12: 0, r11: 0, r10: 0, r9: 0, r8: 0, rbp: 0, rdi: 0, rsi: 0,
        rdx: 0, rcx: 0, rbx: 0, rax: 0, int_num: n, error_code: 0, rip: 0, cs: 0, rflags: 0,
        rsp: 0, ss: 0,
    }
}

#[test]
fn gate_splits_handler() {
    let g = Gate::new(0x1234_5678_9ABC_DEF0, sel::KERNEL_CODE, 1, 0x8E);
    assert_eq!(g.off_low, 0xDEF0);
    assert_eq!(g.off_mid, 0x9ABC);
    assert_eq!(g.off_high, 0x1234_5678);
    let back = g.off_low as u64 | (g.off_mid as u64) << 16 | (g.off_high as u64) << 32;
    assert_eq!(back, 0x1234_5678_9ABC_DEF0);
    assert_eq!(Gate::null().attr, 0);
}

#[test]
fn idt_table() {
    let stubs: Vec<u64> = (0..48).map(|i| 0xFFFF_FFFF_8000_0000 + i * 16).collect();
    let t = idt_entries(&stubs);
    assert_eq!(t.len(), 256);
    assert_eq!(t[8].ist, 1);
    assert_eq!(t[9].ist, 0);
    assert_eq!(t[47].off_low, (0x8000_0000u64 + 47 * 16) as u16);
    assert_eq!(t[47].selector, 0x08);
    assert_eq!(t[48].attr, 0);
}

#[test]
fn interrupt_decisions() {
    assert_eq!(interrupt_dispatch(&frame(14)), InterruptAction::PageFault);
    assert_eq!(interrupt_dispatch(&frame(13)), InterruptAction::GeneralProtection);
    assert_eq!(interrupt_dispatch(&frame(32)), InterruptAction::Timer);
    assert_eq!(interrupt_dispatch(&frame(33)), InterruptAction::Keyboard);
    assert_eq!(interrupt_dispatch(&frame(0)), InterruptAction::Exception(0));
    assert_eq!(interrupt_dispatch(&frame(31)), InterruptAction::Exception(31));
    assert_eq!(interrupt_dispatch(&frame(40)), InterruptAction::Irq(8));
    assert_eq!(interrupt_dispatch(&frame(300)), InterruptAction::Irq(12));
}

#[test]
fn tss_zero() {
    let mut t = Tss::zero();
    assert_eq!(t.iopb_off, 104);
    assert_eq!(t.ist, [0; 7]);
    t.set_ist1(0x1000);
    assert_eq!(t.ist[0], 0x2000);
    assert_eq!(sel::USER_CODE, 0x18 | 3);
    assert_eq!(sel::USER_DATA, 0x20 | 3);
}

#[test]
fn pic_lines() {
    assert_eq!(eoi(0), vec![0x20]);
    assert_eq!(eoi(12), vec![0xA0, 0x20]);
    assert_eq!(kernel_engineering::pic::irq_line(3), (0x21, 3));
    assert_eq!(kernel_engineering::pic::irq_line(11), (0xA1, 3));
    assert_eq!(mask(0b1111_0000, 2), 0b1111_0100);
    assert_eq!(unmask(0b1111_0100, 2), 0b1111_0000);
    assert_eq!(unmask(0b1111_1111, 0), 0b1111_1110);
}

#[test]
fn pit_divisor() {
    // 1193182 / 100 = 11931 = 0x2E9B
    assert_eq!(pit_init(100), (0x9B, 0x2E));
    // 1193182 / 1 does not fit in 16 bits and is cut
    assert_eq!(pit_init(1), ((1193182u32 as u16 & 0xFF) as u8, (1193182u32 as u16 >> 8) as u8));
}

#[test]
fn uart_setup_and_status() {
    assert_eq!(divisor_bytes(115200), (1, 0));
    assert_eq!(divisor_bytes(9600), (12, 0));
    assert_eq!(divisor_bytes(1), (0x00, 0xC2));
    let u = Uart { base: COM1 };
    assert_eq!(u.status_port(), 0x3FD);
    assert_eq!(u.write_str("a\nb"), b"a\r\nb".to_vec());
    assert!(transmit_ready(0x20));
    assert!(!transmit_ready(0x1F));
    assert!(data_ready(0x01));
    assert!(!data_ready(0x20));
}

#[test]
fn serial_line_endings() {
    assert_eq!(line_bytes(b"\n\nx"), b"\r\n\r\nx".to_vec());
    assert_eq!(line_bytes(b""), Vec::<u8>::new());
    assert_eq!(SerialWriter.write_str("[boot] ok\n"), b"[boot] ok\r\n".to_vec());
}

#[test]
fn vga_colours() {
    assert_eq!(attr(Color::BrCyan, Color::Black), 0x0B);
    assert_eq!(attr(Color::White, Color::Blue), 0x17);
    assert_eq!(attr(Color::BrWhite, Color::BrWhite), 0xFF);
}

#[test]
fn vga_cursor() {
    let mut cells = vec![0u16; CELLS];
    let mut v = Vga::new();
    v.put_char(b'A', &mut cells);
    assert_eq!(cells[0], 0x0B41);
    v.put_char(b'\n', &mut cells);
    v.put_char(b'B', &mut cells);
    assert_eq!(cells[COLS], 0x0B42);
    v.put_char(b'\r', &mut cells);
    v.set_color(Color::Red, Color::Black);
    v.put_char(b'C', &mut cells);
    assert_eq!(cells[COLS], 0x0443);
    assert_eq!(cells[1], 0);
}

#[test]
fn vga_wraps_and_scrolls() {
    let mut cells = vec![0u16; CELLS];
    let mut v = Vga::new();
    v.put_char(b'T', &mut cells);
    for _ in 0..ROWS - 1 {
        v.put_char(b'\n', &mut cells);
    }
    v.put_char(b'S', &mut cells);
    for i in 1..COLS - 1 {
        v.put_char(b'x', &mut cells);
        assert_eq!(cells[(ROWS - 1) * COLS + i], 0x0B78);
    }
    // the last cell of the last row scrolls the screen: every row moves up one,
    // and the bottom row is blank
    v.put_char(b'y', &mut cells);
    assert_eq!(cells[(ROWS - 2) * COLS], 0x0B53);
    assert_eq!(cells[(ROWS - 1) * COLS - 1], 0x0B79);
    assert_eq!(cells[0], 0);
    for c in 0..COLS {
        assert_eq!(cells[(ROWS - 1) * COLS + c], 0x0B20);
    }
    v.put_char(b'z', &mut cells);
    assert_eq!(cells[(ROWS - 1) * COLS], 0x0B7A);
    v.put_char(b'\n', &mut cells);
    assert_eq!(cells[(ROWS - 2) * COLS], 0x0B7A);
    assert_eq!(cells[(ROWS - 1) * COLS], 0x0B20);
}

#[test]
fn vga_clear_blanks_every_cell() {
    let mut cells = vec![0x1234u16; CELLS];
    let mut v = Vga::new();
    v.put_char(b'q', &mut cells);
    v.set_color(Color::White, Color::Blue);
    clear(&mut v, &mut cells);
    assert!(cells.iter().all(|&c| c == 0x1720));
    v.put_char(b'q', &mut cells);
    assert_eq!(cells[0], 0x1771);
    assert_eq!(cells[1], 0x1720);
}

#[test]
fn syscall_numbers() {
    assert_eq!(syscall_dispatch(0, 3, 4, 5, 0, 0, 0), Syscall::Read { fd: 3, buf: 4, count: 5 });
    assert_eq!(syscall_dispatch(1, 1, 2, 3, 0, 0, 0), Syscall::Write { fd: 1, buf: 2, count: 3 });
    assert_eq!(syscall_dispatch(60, 0xFFFF_FFFF, 0, 0, 0, 0, 0), Syscall::Exit { code: -1 });
    assert_eq!(syscall_dispatch(2, 0, 0, 0, 0, 0, 0), Syscall::Unknown { num: 2 });
    assert_eq!(sys_read(0, 0, 10), EAGAIN);
    assert_eq!(sys_read(0, 0, 10), -11);
}

#[test]
fn write_checks_descriptor_and_length() {
    assert_eq!(sys_write(0, 5), Err(EBADF));
    assert_eq!(sys_write(3, 5), Err(-9));
    assert_eq!(sys_write(1, 5), Ok(5));
    assert_eq!(sys_write(2, 10_000), Ok(4096));
}

#[test]
fn write_text_falls_back_to_bytes_as_chars() {
    assert_eq!(write_text("héllo".as_bytes()), "héllo".as_bytes().to_vec());
    // 0xFF alone is not UTF-8: it is printed as the character U+00FF
    assert_eq!(write_text(&[b'a', 0xFF, b'\n']), vec![b'a', 0xC3, 0xBF, b'\n']);
    assert_eq!(write_text(&[0xE9]), "é".as_bytes().to_vec());
    assert_eq!(write_text(&[]), Vec::<u8>::new());
}

#[test]
fn heap_pages() {
    assert!(uses_slab(2048));
    assert!(!uses_slab(2049));
    let mut pmm = Pmm::new();
    pmm_init(&mut pmm, &[MmapEntry { base: 0x40_0000, len: 0x80_0000, typ: 1, attr: 0 }]);
    let before = pmm.free_frames();
    let pages = heap_init(&mut pmm);
    assert_eq!(pages.len(), HEAP_PAGES);
    assert_eq!(pages[0].va, HEAP_START);
    assert_eq!(pages[2047].va, HEAP_START + 2047 * 4096);
    assert_eq!(pages[0].pa, 0x40_0000);
    assert_eq!(pmm.free_frames(), before - HEAP_PAGES);
}

#[test]
fn heap_without_enough_memory() {
    let mut pmm = Pmm::new();
    pmm.mark_free(3);
    pmm.mark_free(9);
    let pages = heap_init(&mut pmm);
    assert_eq!(pages.len(), 2);
    assert_eq!(pages[1].va, HEAP_START + 4096);
    assert_eq!(pages[1].pa, 0x9000);
}
