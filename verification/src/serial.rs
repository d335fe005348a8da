//! Serial line output: text goes out with every newline preceded by a carriage return.
use vstd::prelude::*;
use vstd::string::StringSliceAdditionalSpecFns;

verus! {

pub const COM1: u16 = 0x3F8;

/// The bytes that go on the line for `s`: each `\n` becomes `\r\n`.
pub open spec fn line_bytes_spec(s: Seq<u8>) -> Seq<u8>
    decreases s.len(),
{
    if s.len() == 0 {
        Seq::empty()
    } else {
        line_bytes_spec(s.drop_last()) + if s.last() == 10u8 {
            seq![13u8, 10u8]
        } else {
            seq![s.last()]
        }
    }
}

/// Encodes `s` for the line.
pub fn line_bytes(s: &[u8]) -> (out: Vec<u8>)
    ensures
        out@ == line_bytes_spec(s@),
{
    let mut out: Vec<u8> = Vec::new();
    let mut i: usize = 0;
    while i < s.len()
        invariant
            i <= s.len(),
            out@ == line_bytes_spec(s@.take(i as int)),
        decreases s.len() - i,
    {
        let b = s[i];
        if b == 10u8 {
            out.push(13u8);
        }
        out.push(b);
        proof {
            assert(s@.take(i + 1).drop_last() =~= s@.take(i as int));
        }
        i = i + 1;
        proof {
            if b == 10u8 {
                assert(out@ =~= line_bytes_spec(s@.take(i as int)));
            } else {
                assert(out@ =~= line_bytes_spec(s@.take(i as int)));
            }
        }
    }
    assert(s@.take(s@.len() as int) =~= s@);
    out
}

/// The kernel's log sink on COM1.
pub struct SerialWriter;

impl SerialWriter {
    /// The bytes that writing `s` puts on the line.
    pub fn write_str(&self, s: &str) -> (out: Vec<u8>)
        ensures
            out@ == line_bytes_spec(s.spec_bytes()),
    {
        line_bytes(s.as_bytes())
    }
}

} // verus!
