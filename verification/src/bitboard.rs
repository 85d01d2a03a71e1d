//! Bitboard vocabulary: a `u64` is read as the set of squares whose bit is one.
use vstd::prelude::*;

verus! {

/// Square `s` (0..64, a1 = 0) is a member of bitboard `b`.
pub open spec fn has_bit(b: u64, s: u64) -> bool {
    (b >> s) & 1u64 == 1u64
}

/// Rank (row) of a square index.
pub open spec fn rank_of(s: int) -> int {
    s / 8
}

/// File (column) of a square index.
pub open spec fn file_of(s: int) -> int {
    s % 8
}

pub proof fn lemma_bit_or(a: u64, b: u64, s: u64)
    requires
        s < 64,
    ensures
        has_bit(a | b, s) == (has_bit(a, s) || has_bit(b, s)),
{
    assert(((a | b) >> s) & 1u64 == 1u64 <==> ((a >> s) & 1u64 == 1u64 || (b >> s) & 1u64 == 1u64))
        by (bit_vector)
        requires
            s < 64,
    ;
}

pub proof fn lemma_bit_and(a: u64, b: u64, s: u64)
    requires
        s < 64,
    ensures
        has_bit(a & b, s) == (has_bit(a, s) && has_bit(b, s)),
{
    assert(((a & b) >> s) & 1u64 == 1u64 <==> ((a >> s) & 1u64 == 1u64 && (b >> s) & 1u64 == 1u64))
        by (bit_vector)
        requires
            s < 64,
    ;
}

pub proof fn lemma_bit_not(a: u64, s: u64)
    requires
        s < 64,
    ensures
        has_bit(!a, s) == !has_bit(a, s),
{
    assert(((!a) >> s) & 1u64 == 1u64 <==> !((a >> s) & 1u64 == 1u64)) by (bit_vector)
        requires
            s < 64,
    ;
}

pub proof fn lemma_bit_single(u: u64, s: u64)
    requires
        u < 64,
        s < 64,
    ensures
        has_bit(1u64 << u, s) == (s == u),
{
    assert(((1u64 << u) >> s) & 1u64 == 1u64 <==> s == u) by (bit_vector)
        requires
            u < 64,
            s < 64,
    ;
}

pub proof fn lemma_bit_zero(s: u64)
    requires
        s < 64,
    ensures
        !has_bit(0u64, s),
{
    assert((0u64 >> s) & 1u64 != 1u64) by (bit_vector);
}


/// Moving a single bit by a shift moves the square it stands for.
pub proof fn lemma_shift_single(s: u64, k: u64)
    by (bit_vector)
    requires
        s < 64,
        k < 64,
    ensures
        s + k < 64 ==> (1u64 << s) << k == 1u64 << ((s + k) as u64),
        s >= k ==> (1u64 << s) >> k == 1u64 << ((s - k) as u64),
{
}

/// Absolute value on mathematical integers.
pub open spec fn abs(x: int) -> int {
    if x < 0 { -x } else { x }
}


} // verus!
