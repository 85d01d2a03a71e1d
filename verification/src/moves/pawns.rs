//! Pawn pushes and captures computed for a whole bitboard at once.
use vstd::prelude::*;
use crate::bitboard::has_bit;

verus! {

pub const RANK_2: u64 = 0x000000000000FF00u64;
pub const RANK_7: u64 = 0x00FF000000000000u64;
pub const FILE_A: u64 = 0x0101010101010101u64;
pub const FILE_H: u64 = 0x8080808080808080u64;
/// Fifth rank: where white pawns stand when they may capture en passant.
pub const RANK_5: u64 = 0x000000FF00000000u64;
/// Fourth rank: where black pawns stand when they may capture en passant.
pub const RANK_4: u64 = 0x00000000FF000000u64;

/// Targets of the white pawns in `pawns`, with `enemies` the opposing pieces.
pub open spec fn white_pawn_targets(pawns: u64, enemies: u64, en_passant: u64) -> u64 {
    let empty = !(pawns | enemies);
    let single = (pawns << 8u64) & empty;
    let double = ((((pawns & RANK_2) << 8u64) & empty) << 8u64) & empty;
    let captures = (((pawns << 7u64) & !FILE_H) | ((pawns << 9u64) & !FILE_A)) & enemies;
    let ep = ((((pawns & RANK_5) << 7u64) & !FILE_H) | (((pawns & RANK_5) << 9u64) & !FILE_A))
        & en_passant;
    single | double | captures | ep
}

/// Targets of the black pawns in `pawns`, with `enemies` the opposing pieces.
pub open spec fn black_pawn_targets(pawns: u64, enemies: u64, en_passant: u64) -> u64 {
    let empty = !(pawns | enemies);
    let single = (pawns >> 8u64) & empty;
    let double = ((((pawns & RANK_7) >> 8u64) & empty) >> 8u64) & empty;
    let captures = (((pawns >> 9u64) & !FILE_H) | ((pawns >> 7u64) & !FILE_A)) & enemies;
    let ep = ((((pawns & RANK_4) >> 9u64) & !FILE_H) | (((pawns & RANK_4) >> 7u64) & !FILE_A))
        & en_passant;
    single | double | captures | ep
}

proof fn lemma_select_side(a1: u64, a2: u64, a3: u64, a4: u64, b1: u64, b2: u64, b3: u64, b4: u64, turn: u64)
    by (bit_vector)
    ensures
        ((a1 & !(0u64.wrapping_sub(turn))) | (b1 & 0u64.wrapping_sub(turn))) | ((a2 & !(0u64.wrapping_sub(turn))) | (b2 & 0u64.wrapping_sub(turn)))
            | ((a3 & !(0u64.wrapping_sub(turn))) | (b3 & 0u64.wrapping_sub(turn))) | ((a4 & !(0u64.wrapping_sub(turn))) | (b4 & 0u64.wrapping_sub(turn)))
            == ((a1 | a2 | a3 | a4) & !(0u64.wrapping_sub(turn))) | ((b1 | b2 | b3 | b4) & 0u64.wrapping_sub(turn)),
        turn == 0 ==> ((a1 | a2 | a3 | a4) & !(0u64.wrapping_sub(turn))) | ((b1 | b2 | b3 | b4) & 0u64.wrapping_sub(turn)) == (a1 | a2 | a3 | a4),
        turn == 1 ==> ((a1 | a2 | a3 | a4) & !(0u64.wrapping_sub(turn))) | ((b1 | b2 | b3 | b4) & 0u64.wrapping_sub(turn)) == (b1 | b2 | b3 | b4),
{
}

/// Pawn move targets for the side `turn` (0 = white, 1 = black).
///
/// The side is chosen without branching through the mask `0 - turn`: every bit of the white
/// targets is kept where the mask is clear and every bit of the black targets where it is set.
pub fn get_pawn_attacks(pawn_bitboard: u64, enemies: u64, turn: u64, en_passant_square: u64) -> (r: u64)
    ensures
        r == (white_pawn_targets(pawn_bitboard, enemies, en_passant_square) & !(0u64.wrapping_sub(turn)))
            | (black_pawn_targets(pawn_bitboard, enemies, en_passant_square) & 0u64.wrapping_sub(turn)),
        turn == 0 ==> r == white_pawn_targets(pawn_bitboard, enemies, en_passant_square),
        turn == 1 ==> r == black_pawn_targets(pawn_bitboard, enemies, en_passant_square),
{
    let empty = !(pawn_bitboard | enemies);

    let single_pushes_white = (pawn_bitboard << 8u64) & empty;
    let single_pushes_black = (pawn_bitboard >> 8u64) & empty;

    let double_pushes_white = ((((pawn_bitboard & RANK_2) << 8u64) & empty) << 8u64) & empty;
    let double_pushes_black = ((((pawn_bitboard & RANK_7) >> 8u64) & empty) >> 8u64) & empty;

    let captures_white = (((pawn_bitboard << 7u64) & !FILE_H) | ((pawn_bitboard << 9u64) & !FILE_A))
        & enemies;
    let captures_black = (((pawn_bitboard >> 9u64) & !FILE_H) | ((pawn_bitboard >> 7u64) & !FILE_A))
        & enemies;

    let ep_captures_white = ((((pawn_bitboard & RANK_5) << 7u64) & !FILE_H)
        | (((pawn_bitboard & RANK_5) << 9u64) & !FILE_A)) & en_passant_square;
    let ep_captures_black = ((((pawn_bitboard & RANK_4) >> 9u64) & !FILE_H)
        | (((pawn_bitboard & RANK_4) >> 7u64) & !FILE_A)) & en_passant_square;

    let mask = 0u64.wrapping_sub(turn);

    let single_pushes = (single_pushes_white & !mask) | (single_pushes_black & mask);
    let double_pushes = (double_pushes_white & !mask) | (double_pushes_black & mask);
    let captures = (captures_white & !mask) | (captures_black & mask);
    let ep_captures = (ep_captures_white & !mask) | (ep_captures_black & mask);

    let r = single_pushes | double_pushes | captures | ep_captures;
    proof {
        let w = white_pawn_targets(pawn_bitboard, enemies, en_passant_square);
        let b = black_pawn_targets(pawn_bitboard, enemies, en_passant_square);
        assert(w == single_pushes_white | double_pushes_white | captures_white | ep_captures_white);
        assert(b == single_pushes_black | double_pushes_black | captures_black | ep_captures_black);
        lemma_select_side(single_pushes_white, double_pushes_white, captures_white, ep_captures_white,
            single_pushes_black, double_pushes_black, captures_black, ep_captures_black, turn);
    }
    r
}


/// White pawn targets square by square: a square is a target exactly when it is empty and a
/// pawn stands right behind it, or it lies on the fourth rank, it and the square behind are empty
/// and a pawn stands two behind on the second rank, or it holds an enemy and a pawn stands
/// diagonally behind it (one file to either side, not across the board edge), or it is the en
/// passant square on the sixth rank with a pawn diagonally behind it.
pub proof fn lemma_white_pawn_targets(pawns: u64, enemies: u64, en_passant: u64, t: u64)
    by (bit_vector)
    requires
        t < 64,
    ensures
        has_bit(white_pawn_targets(pawns, enemies, en_passant), t) <==> (
            (t >= 8 && has_bit(pawns, (t - 8) as u64) && !has_bit(pawns, t) && !has_bit(enemies, t))
            || (24 <= t && t < 32 && has_bit(pawns, (t - 16) as u64) && !has_bit(pawns, (t - 8) as u64)
                && !has_bit(enemies, (t - 8) as u64) && !has_bit(pawns, t) && !has_bit(enemies, t))
            || (has_bit(enemies, t) && ((t >= 7 && t % 8 != 7 && has_bit(pawns, (t - 7) as u64))
                || (t >= 9 && t % 8 != 0 && has_bit(pawns, (t - 9) as u64))))
            || (has_bit(en_passant, t) && 40 <= t && t < 48 && ((t % 8 != 7 && has_bit(pawns, (t - 7) as u64))
                || (t % 8 != 0 && has_bit(pawns, (t - 9) as u64))))
        ),
{
}

/// Black pawn targets square by square, as for White toward the first rank: a push onto an empty
/// square, a double push from the seventh rank onto the fifth over an empty square, a capture of
/// an enemy diagonally ahead on either side, or an en passant capture onto the third rank.
pub proof fn lemma_black_pawn_targets(pawns: u64, enemies: u64, en_passant: u64, t: u64)
    by (bit_vector)
    requires
        t < 64,
    ensures
        has_bit(black_pawn_targets(pawns, enemies, en_passant), t) <==> (
            (t < 56 && has_bit(pawns, (t + 8) as u64) && !has_bit(pawns, t) && !has_bit(enemies, t))
            || (32 <= t && t < 40 && has_bit(pawns, (t + 16) as u64) && !has_bit(pawns, (t + 8) as u64)
                && !has_bit(enemies, (t + 8) as u64) && !has_bit(pawns, t) && !has_bit(enemies, t))
            || (has_bit(enemies, t) && ((t < 55 && t % 8 != 7 && has_bit(pawns, (t + 9) as u64))
                || (t < 57 && t % 8 != 0 && has_bit(pawns, (t + 7) as u64))))
            || (has_bit(en_passant, t) && 16 <= t && t < 24 && ((t % 8 != 7 && has_bit(pawns, (t + 9) as u64))
                || (t % 8 != 0 && has_bit(pawns, (t + 7) as u64))))
        ),
{
}

} // verus!
