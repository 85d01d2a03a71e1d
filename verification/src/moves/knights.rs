//! Knight attack table.
use vstd::prelude::*;
use crate::bitboard::{abs, file_of, has_bit, lemma_bit_or, lemma_bit_single, lemma_bit_zero, lemma_shift_single, rank_of};

verus! {

/// A knight on `s` reaches `t`: two squares along one axis and one along the other.
pub open spec fn knight_step(s: int, t: int) -> bool {
    let dr = rank_of(t) - rank_of(s);
    let df = file_of(t) - file_of(s);
    (abs(dr) == 1 && abs(df) == 2) || (abs(dr) == 2 && abs(df) == 1)
}

proof fn lemma_knight_targets(s: int, t: int)
    requires
        0 <= s < 64,
        0 <= t < 64,
    ensures
        knight_step(s, t) <==> (
            (rank_of(s) <= 5 && file_of(s) >= 1 && t == s + 15)
            || (rank_of(s) <= 5 && file_of(s) <= 6 && t == s + 17)
            || (file_of(s) <= 5 && rank_of(s) <= 6 && t == s + 10)
            || (file_of(s) <= 5 && rank_of(s) >= 1 && t == s - 6)
            || (rank_of(s) >= 2 && file_of(s) <= 6 && t == s - 15)
            || (rank_of(s) >= 2 && file_of(s) >= 1 && t == s - 17)
            || (file_of(s) >= 2 && rank_of(s) >= 1 && t == s - 10)
            || (file_of(s) >= 2 && rank_of(s) <= 6 && t == s + 6)),
{
    assert(s == 8 * rank_of(s) + file_of(s));
    assert(t == 8 * rank_of(t) + file_of(t));
}

/// Adds `from` moved up by `k` squares to `mask`; `from` is the single bit of `square`.
proof fn lemma_add_up(mask: u64, square: u64, k: u64, t: u64)
    requires
        square < 64,
        k < 64,
        square + k < 64,
        t < 64,
    ensures
        has_bit(mask | ((1u64 << square) << k), t) == (has_bit(mask, t) || t == square + k),
{
    lemma_shift_single(square, k);
    lemma_bit_or(mask, (1u64 << square) << k, t);
    lemma_bit_single((square + k) as u64, t);
}

/// Adds `from` moved down by `k` squares to `mask`; `from` is the single bit of `square`.
proof fn lemma_add_down(mask: u64, square: u64, k: u64, t: u64)
    requires
        square < 64,
        k < 64,
        square >= k,
        t < 64,
    ensures
        has_bit(mask | ((1u64 << square) >> k), t) == (has_bit(mask, t) || t + k == square),
{
    lemma_shift_single(square, k);
    lemma_bit_or(mask, (1u64 << square) >> k, t);
    lemma_bit_single((square - k) as u64, t);
}

/// The squares a knight on `square` attacks.
pub fn knight_mask(square: u64) -> (mask: u64)
    requires
        square < 64,
    ensures
        forall|t: u64| t < 64 ==> (#[trigger] has_bit(mask, t) <==> knight_step(square as int, t as int)),
{
    let from = 1u64 << square;
    let mut mask = 0u64;
    let file = square % 8;
    let rank = square / 8;
    let ghost m0 = mask;
    if rank <= 5 && file >= 1 {
        mask |= from << 15u64;
    }
    let ghost m1 = mask;
    if rank <= 5 && file <= 6 {
        mask |= from << 17u64;
    }
    let ghost m2 = mask;
    if file <= 5 && rank <= 6 {
        mask |= from << 10u64;
    }
    let ghost m3 = mask;
    if file <= 5 && rank >= 1 {
        mask |= from >> 6u64;
    }
    let ghost m4 = mask;
    if rank >= 2 && file <= 6 {
        mask |= from >> 15u64;
    }
    let ghost m5 = mask;
    if rank >= 2 && file >= 1 {
        mask |= from >> 17u64;
    }
    let ghost m6 = mask;
    if file >= 2 && rank >= 1 {
        mask |= from >> 10u64;
    }
    let ghost m7 = mask;
    if file >= 2 && rank <= 6 {
        mask |= from << 6u64;
    }
    proof {
        assert forall|t: u64| t < 64 implies (#[trigger] has_bit(mask, t) <==> knight_step(square as int, t as int)) by {
            lemma_bit_zero(t);
            lemma_knight_targets(square as int, t as int);
            if rank <= 5 && file >= 1 { lemma_add_up(m0, square, 15, t); }
            if rank <= 5 && file <= 6 { lemma_add_up(m1, square, 17, t); }
            if file <= 5 && rank <= 6 { lemma_add_up(m2, square, 10, t); }
            if file <= 5 && rank >= 1 { lemma_add_down(m3, square, 6, t); }
            if rank >= 2 && file <= 6 { lemma_add_down(m4, square, 15, t); }
            if rank >= 2 && file >= 1 { lemma_add_down(m5, square, 17, t); }
            if file >= 2 && rank >= 1 { lemma_add_down(m6, square, 10, t); }
            if file >= 2 && rank <= 6 { lemma_add_up(m7, square, 6, t); }
        }
    }
    mask
}

/// Knight attacks for every square, indexed by the knight's square.
pub fn generate_knight_moves() -> (moves: [u64; 64])
    ensures
        forall|s: u64, t: u64| s < 64 && t < 64 ==> (#[trigger] has_bit(moves[s as int], t) <==> knight_step(s as int, t as int)),
{
    let mut moves = [0u64; 64];
    let mut square: u64 = 0;
    while square < 64
        invariant
            square <= 64,
            forall|s: u64, t: u64| s < square && t < 64 ==> (#[trigger] has_bit(moves[s as int], t) <==> knight_step(s as int, t as int)),
        decreases 64 - square,
    {
        let mask = knight_mask(square);
        moves[square as usize] = mask;
        square += 1;
    }
    moves
}


/// Knight moves go both ways, always change the colour of the square, and cover three squares
/// of distance, never staying in place: a knight on `s` reaches `t` exactly when a knight on `t`
/// reaches `s`.
pub proof fn lemma_knight_step_laws(s: int, t: int)
    ensures
        knight_step(s, t) == knight_step(t, s),
        knight_step(s, t) ==> s != t,
        knight_step(s, t) ==> abs(rank_of(t) - rank_of(s)) + abs(file_of(t) - file_of(s)) == 3,
        knight_step(s, t) ==> (rank_of(s) + file_of(s)) % 2 != (rank_of(t) + file_of(t)) % 2,
{
}

} // verus!
