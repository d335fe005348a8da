use kernel_engineering::elf::{image_sound, load, ElfAction, LoadedElf, PT_GNU_STACK};
use kernel_engineering::pmm::{init, MmapEntry, Pmm};
use kernel_engineering::vmm::flags;

fn put16(d: &mut [u8], o: usize, v: u16) {
    d[o..o + 2].copy_from_slice(&v.to_le_bytes());
}
fn put32(d: &mut [u8], o: usize, v: u32) {
    d[o..o + 4].copy_from_slice(&v.to_le_bytes());
}
fn put64(d: &mut [u8], o: usize, v: u64) {
    d[o..o + 8].copy_from_slice(&v.to_le_bytes());
}

/// An x86_64 executable with one program header per `(type, flags, vaddr, filesz, memsz)`.
fn image(phdrs: &[(u32, u32, u64, u64, u64)]) -> Vec<u8> {
    let mut d = vec![0u8; 64 + 56 * phdrs.len()];
    d[0..4].copy_from_slice(&[0x7F, b'E', b'L', b'F']);
    d[4] = 2;
    d[5] = 1;
    put16(&mut d, 16, 2);
    put16(&mut d, 18, 62);
    put64(&mut d, 24, 0x40_1000);
    put64(&mut d, 32, 64);
    put16(&mut d, 54, 56);
    put16(&mut d, 56, phdrs.len() as u16);
    for (i, &(t, f, vaddr, filesz, memsz)) in phdrs.iter().enumerate() {
        let o = 64 + 56 * i;
        put32(&mut d, o, t);
        put32(&mut d, o + 4, f);
        put64(&mut d, o + 8, 0);
        put64(&mut d, o + 16, vaddr);
        put64(&mut d, o + 32, filesz);
        put64(&mut d, o + 40, memsz);
    }
    d
}

fn booted() -> Pmm {
    let mut pmm = Pmm::new();
    init(&mut pmm, &[MmapEntry { base: 0, len: 0x80_0000, typ: 1, attr: 0 }]);
    pmm
}

#[test]
fn loads_one_segment() {
    let d = image(&[(1, 5, 0x40_0000, 120, 0x1800)]);
    let mut pmm = booted();
    let (r, acts) = load(&d, &mut pmm);
    assert_eq!(r, Ok(LoadedElf { entry: 0x40_1000, load_bias: 0 }));
    let fl = flags::PRESENT | flags::USER;
    assert_eq!(
        acts,
        vec![
            ElfAction::MapPage { va: 0x40_0000, pa: 0x1000, flags: fl },
            ElfAction::MapPage { va: 0x40_1000, pa: 0x2000, flags: fl },
            ElfAction::Copy { vaddr: 0x40_0000, file_off: 0, file_size: 120, mem_size: 0x1800, p_flags: 5 },
        ]
    );
    assert_eq!(pmm.free_frames(), 2048 - 1 - 768 - 2);
}

#[test]
fn writable_data_is_not_executable() {
    let d = image(&[(PT_GNU_STACK, 6, 0, 0, 0), (1, 6, 0x60_0010, 0, 0x10)]);
    let mut pmm = booted();
    let (r, acts) = load(&d, &mut pmm);
    assert!(r.is_ok());
    let fl = flags::PRESENT | flags::USER | flags::WRITABLE | flags::NX;
    assert_eq!(acts.len(), 2);
    assert_eq!(acts[0], ElfAction::MapPage { va: 0x60_0000, pa: 0x1000, flags: fl });
}

#[test]
fn refuses_bad_headers() {
    let mut pmm = booted();
    assert_eq!(load(&[0u8; 63], &mut pmm).0, Err("too small"));
    let good = image(&[]);
    let mut d = good.clone();
    d[1] = b'X';
    assert_eq!(load(&d, &mut pmm).0, Err("bad magic"));
    let mut d = good.clone();
    d[4] = 1;
    assert_eq!(load(&d, &mut pmm).0, Err("not 64-bit"));
    let mut d = good.clone();
    put16(&mut d, 18, 3);
    assert_eq!(load(&d, &mut pmm).0, Err("not x86_64"));
    let mut d = good.clone();
    put16(&mut d, 16, 1);
    assert_eq!(load(&d, &mut pmm).0, Err("not executable"));
    let mut d = good.clone();
    put16(&mut d, 16, 3);
    assert_eq!(load(&d, &mut pmm).0, Ok(LoadedElf { entry: 0x40_1000, load_bias: 0 }));
    assert_eq!(pmm.free_frames(), 2048 - 1 - 768);
}

#[test]
fn refuses_headers_past_the_end() {
    let mut pmm = booted();
    let mut d = image(&[(1, 5, 0x40_0000, 16, 16)]);
    put16(&mut d, 56, 2);
    let (r, acts) = load(&d, &mut pmm);
    assert_eq!(r, Err("phdr out of bounds"));
    // the first segment was planned before the second header was found missing
    assert_eq!(acts.len(), 2);
}

#[test]
fn refuses_segment_past_the_end() {
    let mut pmm = booted();
    let d = image(&[(1, 5, 0x40_0000, 1000, 1000)]);
    let (r, acts) = load(&d, &mut pmm);
    assert_eq!(r, Err("segment out of bounds"));
    assert!(acts.is_empty());
}

#[test]
fn runs_out_of_frames() {
    let mut pmm = Pmm::new();
    pmm.mark_free(7);
    let d = image(&[(1, 5, 0x40_0000, 0, 0x2000)]);
    let (r, acts) = load(&d, &mut pmm);
    assert_eq!(r, Err("elf: out of memory"));
    assert_eq!(acts, vec![ElfAction::MapPage { va: 0x40_0000, pa: 0x7000, flags: flags::PRESENT | flags::USER }]);
    assert_eq!(pmm.free_frames(), 0);
}

#[test]
fn soundness_of_images() {
    assert!(image_sound(&image(&[(1, 5, 0x40_0000, 120, 0x1800)])));
    assert!(image_sound(&[0u8; 10]));
    let d = image(&[(1, 5, u64::MAX - 10, 0, 0x100)]);
    assert!(!image_sound(&d));
    // headers shorter than a program header read past the image
    let mut short = image(&[]);
    put16(&mut short, 56, 1);
    put16(&mut short, 54, 8);
    put64(&mut short, 32, 56);
    assert!(!image_sound(&short));
}
