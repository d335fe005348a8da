//! Facts about single bits of 64-bit words.
use vstd::prelude::*;
use vstd::std_specs::bits::{u64_trailing_ones, axiom_u64_trailing_ones};

verus! {

/// Bit `b` of `w` is one.
pub closed spec fn bit_of(w: u64, b: int) -> bool {
    (w >> (b as u64)) & 1u64 == 1u64
}

/// Setting bit `b` changes that bit only.
pub proof fn lemma_set_bit(w: u64, b: u64, c: u64)
    requires
        b < 64,
        c < 64,
    ensures
        bit_of(w | (1u64 << b), c as int) == (c == b || bit_of(w, c as int)),
{
    assert(((w | (1u64 << b)) >> c) & 1u64 == 1u64 <==> (c == b || (w >> c) & 1u64 == 1u64))
        by (bit_vector)
        requires
            b < 64,
            c < 64,
    ;
}

/// Clearing bit `b` changes that bit only.
pub proof fn lemma_clear_bit(w: u64, b: u64, c: u64)
    requires
        b < 64,
        c < 64,
    ensures
        bit_of(w & !(1u64 << b), c as int) == (c != b && bit_of(w, c as int)),
{
    assert(((w & !(1u64 << b)) >> c) & 1u64 == 1u64 <==> (c != b && (w >> c) & 1u64 == 1u64))
        by (bit_vector)
        requires
            b < 64,
            c < 64,
    ;
}

/// Testing a bit through a one-bit mask.
pub proof fn lemma_test_bit(w: u64, b: u64)
    requires
        b < 64,
    ensures
        (w & (1u64 << b) != 0) == bit_of(w, b as int),
{
    assert((w & (1u64 << b) != 0) == ((w >> b) & 1u64 == 1u64)) by (bit_vector)
        requires
            b < 64,
    ;
}

/// Every bit of the all-ones word is set.
pub proof fn lemma_all_ones(c: u64)
    requires
        c < 64,
    ensures
        bit_of(0xffff_ffff_ffff_ffffu64, c as int),
{
    assert((0xffff_ffff_ffff_ffffu64 >> c) & 1u64 == 1u64) by (bit_vector)
        requires
            c < 64,
    ;
}

/// The number of trailing ones of a word that is not all ones names its lowest clear bit.
pub proof fn lemma_trailing_ones(w: u64)
    requires
        w != 0xffff_ffff_ffff_ffffu64,
    ensures
        u64_trailing_ones(w) < 64,
        !bit_of(w, u64_trailing_ones(w) as int),
        forall|c: int| 0 <= c < u64_trailing_ones(w) ==> #[trigger] bit_of(w, c),
{
    axiom_u64_trailing_ones(w);
    let t = u64_trailing_ones(w);
    assert forall|c: int| 0 <= c < t implies #[trigger] bit_of(w, c) by {
        assert((w >> (c as u64)) & 1u64 == 1u64);
    }
}

} // verus!
