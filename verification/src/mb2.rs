//! Multiboot2 boot information: walks the tags and keeps where the memory map is.
use vstd::prelude::*;
use crate::elf::{le32};

verus! {

/// Tag type of the memory map.
pub const TAG_MMAP: u32 = 6;

/// Tag type that ends the tag list.
pub const TAG_END: u32 = 0;

#[derive(Clone, Copy)]
pub struct Info {
    pub mmap_count: usize,
    pub mmap_ptr: u64,
    pub mmap_entry_size: u32,
}

/// Bytes of the structure left from `off`.
pub open spec fn remaining(total: int, off: int) -> int {
    if off < total {
        total - off
    } else {
        0
    }
}

/// Distance from one tag to the next: its size rounded up to 8 bytes.
pub open spec fn tag_advance(d: Seq<u8>, off: int) -> int {
    (le32(d, off + 4) + 7) / 8 * 8
}

/// What the walk from the tag at `off` leaves in `info`, for a structure of
/// `total` bytes whose first byte is at `base`.
pub open spec fn parse_from(d: Seq<u8>, base: int, total: int, off: int, info: Info) -> Info
    decreases remaining(total, off),
{
    if off >= total || le32(d, off) == TAG_END || tag_advance(d, off) <= 0 {
        info
    } else {
        let next = if le32(d, off) == TAG_MMAP {
            Info {
                mmap_entry_size: le32(d, off + 8) as u32,
                mmap_ptr: (base + off + 16) as u64,
                mmap_count: ((le32(d, off + 4) - 16) / le32(d, off + 8)) as usize,
            }
        } else {
            info
        };
        parse_from(d, base, total, off + tag_advance(d, off), next)
    }
}

/// The walk from the tag at `off` reads only inside `d`, never divides by zero or
/// goes below zero, and moves forward at every tag before the end tag.
pub open spec fn walk_sound(d: Seq<u8>, base: int, total: int, off: int) -> bool
    decreases remaining(total, off),
{
    if off >= total {
        true
    } else if off + 8 > d.len() {
        false
    } else if le32(d, off) == TAG_END {
        true
    } else if tag_advance(d, off) <= 0 {
        false
    } else {
        &&& le32(d, off) == TAG_MMAP ==> {
            &&& off + 16 <= d.len()
            &&& le32(d, off + 4) >= 16
            &&& le32(d, off + 8) > 0
            &&& base + off + 16 <= u64::MAX
        }
        &&& walk_sound(d, base, total, off + tag_advance(d, off))
    }
}

/// The boot information `d` (first byte at address `base`) as `parse` reads it.
pub open spec fn parse_spec(d: Seq<u8>, base: int) -> Info {
    parse_from(d, base, le32(d, 0), 8, Info { mmap_count: 0, mmap_ptr: 0, mmap_entry_size: 0 })
}

fn read_u32(d: &[u8], o: usize) -> (r: u32)
    requires
        o + 4 <= d.len(),
    ensures
        r == le32(d@, o as int),
{
    let lo = d[o] as u32 + d[o + 1] as u32 * 256;
    let hi = d[o + 2] as u32 + d[o + 3] as u32 * 256;
    lo + hi * 0x10000
}

/// Parses the boot information structure `d`, whose first byte is at address
/// `base`: keeps the entry size, address and entry count of the last memory map
/// tag before the end tag.
pub fn parse(d: &[u8], base: u64) -> (info: Info)
    requires
        d.len() >= 4,
        walk_sound(d@, base as int, le32(d@, 0), 8),
    ensures
        info == parse_spec(d@, base as int),
{
    let total = read_u32(d, 0) as u64;
    let mut off: u64 = 8;
    let mut info = Info { mmap_count: 0, mmap_ptr: 0, mmap_entry_size: 0 };
    while off < total
        invariant
            total == le32(d@, 0),
            off <= 2 * (u32::MAX as int) + 16,
            walk_sound(d@, base as int, total as int, off as int),
            parse_spec(d@, base as int) == parse_from(d@, base as int, total as int, off as int, info),
        decreases remaining(total as int, off as int),
    {
        assert(off + 8 <= d.len());
        let o = off as usize;
        let typ = read_u32(d, o);
        if typ == TAG_END {
            return info;
        }
        let size = read_u32(d, o + 4);
        assert((size + 7) / 8 * 8 >= 8) by (nonlinear_arith)
            requires
                (size + 7) / 8 * 8 > 0,
        ;
        if typ == TAG_MMAP {
            let entry_size = read_u32(d, o + 8);
            info.mmap_entry_size = entry_size;
            info.mmap_ptr = base + off + 16;
            info.mmap_count = ((size - 16) / entry_size) as usize;
        }
        off = off + (size as u64 + 7) / 8 * 8;
    }
    info
}

/// Whether `parse` can walk the boot information `d` (first byte at `base`):
/// every tag it reaches lies inside `d`, moves the walk forward, and a memory map
/// tag is large enough and has a non-zero entry size.
pub fn info_sound(d: &[u8], base: u64) -> (r: bool)
    ensures
        r == (d.len() >= 4 && walk_sound(d@, base as int, le32(d@, 0), 8)),
{
    if d.len() < 4 {
        return false;
    }
    let total = read_u32(d, 0) as u64;
    let mut off: u64 = 8;
    while off < total
        invariant
            d.len() >= 4,
            total == le32(d@, 0),
            off <= 2 * (u32::MAX as int) + 16,
            walk_sound(d@, base as int, total as int, 8) == walk_sound(d@, base as int, total as int, off as int),
        decreases remaining(total as int, off as int),
    {
        if off + 8 > d.len() as u64 {
            return false;
        }
        let o = off as usize;
        let typ = read_u32(d, o);
        if typ == TAG_END {
            return true;
        }
        let size = read_u32(d, o + 4);
        if size == 0 {
            return false;
        }
        let adv = (size as u64 + 7) / 8 * 8;
        assert(adv >= 8) by (nonlinear_arith)
            requires
                adv == (size + 7) / 8 * 8,
                size >= 1,
        ;
        if typ == TAG_MMAP {
            if off + 16 > d.len() as u64 || size < 16 || read_u32(d, o + 8) == 0 || base as u128 + off
                as u128 + 16 > u64::MAX as u128 {
                return false;
            }
        }
        off = off + adv;
    }
    true
}

} // verus!
