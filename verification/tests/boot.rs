use kernel_engineering::mb2::{info_sound, parse};

fn tag(d: &mut Vec<u8>, typ: u32, body: &[u8]) {
    let size = 8 + body.len() as u32;
    d.extend_from_slice(&typ.to_le_bytes());
    d.extend_from_slice(&size.to_le_bytes());
    d.extend_from_slice(body);
    while d.len() % 8 != 0 {
        d.push(0);
    }
}

fn info(tags: &dyn Fn(&mut Vec<u8>)) -> Vec<u8> {
    let mut d = vec![0u8; 8];
    tags(&mut d);
    tag(&mut d, 0, &[]);
    let total = d.len() as u32;
    d[0..4].copy_from_slice(&total.to_le_bytes());
    d
}

#[test]
fn finds_the_memory_map() {
    let d = info(&|d| {
        tag(d, 1, b"cmdline");
        let mut body = Vec::new();
        body.extend_from_slice(&24u32.to_le_bytes());
        body.extend_from_slice(&0u32.to_le_bytes());
        body.extend_from_slice(&[0u8; 48]);
        tag(d, 6, &body);
    });
    let i = parse(&d, 0x10000);
    // the cmdline tag is 15 bytes, so the map tag starts at 8 + 16
    assert_eq!(i.mmap_ptr, 0x10000 + 24 + 16);
    assert_eq!(i.mmap_entry_size, 24);
    assert_eq!(i.mmap_count, 2);
}

#[test]
fn no_memory_map() {
    let d = info(&|d| tag(d, 4, &[0u8; 8]));
    let i = parse(&d, 0x10000);
    assert_eq!((i.mmap_count, i.mmap_ptr, i.mmap_entry_size), (0, 0, 0));
}

#[test]
fn stops_at_the_end_tag() {
    let mut d = info(&|_| {});
    // a map tag after the end tag is never read
    tag(&mut d, 6, &[24, 0, 0, 0, 0, 0, 0, 0, 0, 0, 0, 0, 0, 0, 0, 0, 0, 0, 0, 0, 0, 0, 0, 0]);
    let total = d.len() as u32;
    d[0..4].copy_from_slice(&total.to_le_bytes());
    let i = parse(&d, 0);
    assert_eq!(i.mmap_count, 0);
}

#[test]
fn soundness_of_boot_info() {
    let d = info(&|d| tag(d, 1, b"x"));
    assert!(info_sound(&d, 0));
    assert!(!info_sound(&[1, 2], 0));
    // a tag of size zero would never end the walk
    let mut bad = vec![0u8; 16];
    bad[0] = 16;
    bad[8] = 1;
    assert!(!info_sound(&bad, 0));
    // a memory map tag with entry size zero
    let bad2 = info(&|d| tag(d, 6, &[0u8; 8]));
    assert!(!info_sound(&bad2, 0));
}

#[test]
fn end_tag_size_is_not_used() {
    // an end tag whose size field is zero still ends the walk
    let mut d = vec![0u8; 16];
    d[0] = 16;
    assert!(info_sound(&d, 0));
    let i = parse(&d, 0x2000);
    assert_eq!((i.mmap_count, i.mmap_ptr, i.mmap_entry_size), (0, 0, 0));
}
