//! System calls, Linux numbering: which call a number names, and the work of
//! `read` and `write` that does not touch hardware.
use vstd::prelude::*;
use vstd::utf8::valid_utf8;

verus! {

pub const SYS_READ: u64 = 0;

pub const SYS_WRITE: u64 = 1;

pub const SYS_EXIT: u64 = 60;

pub const EBADF: i64 = -9;

pub const EAGAIN: i64 = -11;

pub const ENOSYS: i64 = -38;

/// Largest number of bytes one `write` sends.
pub const WRITE_MAX: u64 = 4096;

/// A decoded system call.
#[derive(Clone, Copy, Debug, PartialEq, Eq, Structural)]
pub enum Syscall {
    Read { fd: u64, buf: u64, count: u64 },
    Write { fd: u64, buf: u64, count: u64 },
    Exit { code: i32 },
    Unknown { num: u64 },
}

/// Names the call `num` with its arguments.
pub fn syscall_dispatch(
    num: u64,
    a1: u64,
    a2: u64,
    a3: u64,
    a4: u64,
    a5: u64,
    a6: u64,
) -> (s: Syscall)
    ensures
        num == SYS_READ ==> s == (Syscall::Read { fd: a1, buf: a2, count: a3 }),
        num == SYS_WRITE ==> s == (Syscall::Write { fd: a1, buf: a2, count: a3 }),
        num == SYS_EXIT ==> s == (Syscall::Exit { code: a1 as i32 }),
        num != SYS_READ && num != SYS_WRITE && num != SYS_EXIT ==> s == (Syscall::Unknown { num }),
{
    match num {
        0 => Syscall::Read { fd: a1, buf: a2, count: a3 },
        1 => Syscall::Write { fd: a1, buf: a2, count: a3 },
        60 => Syscall::Exit { code: a1 as i32 },
        _ => Syscall::Unknown { num },
    }
}

/// Nothing can be read yet: the call always asks to try again.
pub fn sys_read(fd: u64, buf: u64, count: u64) -> (r: i64)
    ensures
        r == EAGAIN,
{
    EAGAIN
}

/// The number of bytes `write` takes from the buffer, or the error for a
/// descriptor other than standard output and standard error.
pub fn sys_write(fd: u64, count: u64) -> (r: Result<usize, i64>)
    ensures
        fd != 1 && fd != 2 ==> r == Err::<usize, i64>(EBADF),
        fd == 1 || fd == 2 ==> r == Ok::<usize, i64>((if count < WRITE_MAX {
            count
        } else {
            WRITE_MAX
        }) as usize),
{
    if fd != 1 && fd != 2 {
        return Err(EBADF);
    }
    let n = if count < WRITE_MAX {
        count
    } else {
        WRITE_MAX
    };
    Ok(n as usize)
}

/// `core::str::from_utf8` accepts exactly the well-formed UTF-8 byte strings.
#[verifier::external_body]
fn is_utf8(bytes: &[u8]) -> (r: bool)
    ensures
        r == valid_utf8(bytes@),
{
    core::str::from_utf8(bytes).is_ok()
}

/// The UTF-8 encoding of the character whose code is byte `b`.
pub open spec fn byte_as_char(b: u8) -> Seq<u8> {
    if b < 0x80 {
        seq![b]
    } else {
        seq![(0xC0 + b / 64) as u8, (0x80 + b % 64) as u8]
    }
}

/// Each byte read as the character of that code, in UTF-8.
pub open spec fn bytes_as_chars(s: Seq<u8>) -> Seq<u8>
    decreases s.len(),
{
    if s.len() == 0 {
        Seq::empty()
    } else {
        bytes_as_chars(s.drop_last()) + byte_as_char(s.last())
    }
}

/// The text that `write` prints for `data`: the bytes themselves when they are
/// UTF-8, else each byte as the character of that code.
pub fn write_text(data: &[u8]) -> (out: Vec<u8>)
    ensures
        valid_utf8(data@) ==> out@ == data@,
        !valid_utf8(data@) ==> out@ == bytes_as_chars(data@),
{
    if is_utf8(data) {
        let mut out: Vec<u8> = Vec::new();
        let mut i: usize = 0;
        while i < data.len()
            invariant
                i <= data.len(),
                out@ == data@.take(i as int),
            decreases data.len() - i,
        {
            out.push(data[i]);
            i = i + 1;
            assert(out@ =~= data@.take(i as int));
        }
        assert(data@.take(data@.len() as int) =~= data@);
        return out;
    }
    let mut out: Vec<u8> = Vec::new();
    let mut i: usize = 0;
    while i < data.len()
        invariant
            i <= data.len(),
            out@ == bytes_as_chars(data@.take(i as int)),
        decreases data.len() - i,
    {
        let b = data[i];
        if b < 0x80 {
            out.push(b);
        } else {
            out.push(0xC0 + b / 64);
            out.push(0x80 + b % 64);
        }
        proof {
            assert(data@.take(i + 1).drop_last() =~= data@.take(i as int));
        }
        i = i + 1;
        assert(out@ =~= bytes_as_chars(data@.take(i as int)));
    }
    assert(data@.take(data@.len() as int) =~= data@);
    out
}

} // verus!
