//! Coarse material counts used when turning internal scores into centipawns.
use vstd::prelude::*;
use crate::features::{BISHOP, KNIGHT, PAWN, QUEEN, ROOK};
use crate::types::{Piece, Square};

verus! {

/// Coarse material of a piece type: pawn 1, knight and bishop 3, rook 5, queen 9, others 0.
pub open spec fn type_material(pt: usize) -> int {
    if pt == 1 { 1 } else if pt == 2 || pt == 3 { 3 } else if pt == 4 { 5 } else if pt == 5 { 9 } else { 0 }
}

/// Coarse material of a piece.
pub open spec fn piece_material(p: Piece) -> int {
    match p {
        Piece::WhitePawn | Piece::BlackPawn => 1,
        Piece::WhiteKnight | Piece::BlackKnight | Piece::WhiteBishop | Piece::BlackBishop => 3,
        Piece::WhiteRook | Piece::BlackRook => 5,
        Piece::WhiteQueen | Piece::BlackQueen => 9,
        _ => 0,
    }
}

/// Coarse material of the first `n` `(square, piece type, color)` entries.
pub open spec fn typed_material(pieces: Seq<(usize, usize, usize)>, n: int) -> int
    decreases n,
{
    if n <= 0 { 0 } else { typed_material(pieces, n - 1) + type_material(pieces[n - 1].1) }
}

/// Coarse material of the first `n` `(piece, square)` entries.
pub open spec fn listed_material(pieces: Seq<(Piece, Square)>, n: int) -> int
    decreases n,
{
    if n <= 0 { 0 } else { listed_material(pieces, n - 1) + piece_material(pieces[n - 1].0) }
}

/// The material of a prefix is at most that of a longer prefix.
proof fn lemma_typed_monotone(pieces: Seq<(usize, usize, usize)>, i: int, n: int)
    requires
        0 <= i <= n <= pieces.len(),
    ensures
        0 <= typed_material(pieces, i) <= typed_material(pieces, n),
    decreases n,
{
    if n > i {
        lemma_typed_monotone(pieces, i, n - 1);
    } else if n > 0 {
        lemma_typed_monotone(pieces, 0, n - 1);
    }
}

/// The material of a prefix is at most that of a longer prefix.
proof fn lemma_listed_monotone(pieces: Seq<(Piece, Square)>, i: int, n: int)
    requires
        0 <= i <= n <= pieces.len(),
    ensures
        0 <= listed_material(pieces, i) <= listed_material(pieces, n),
    decreases n,
{
    if n > i {
        lemma_listed_monotone(pieces, i, n - 1);
    } else if n > 0 {
        lemma_listed_monotone(pieces, 0, n - 1);
    }
}

/// Coarse material of `(square, piece type, color)` entries.
pub fn calculate_material(pieces: &[(usize, usize, usize)]) -> (r: i32)
    requires
        typed_material(pieces@, pieces@.len() as int) <= i32::MAX,
    ensures
        r as int == typed_material(pieces@, pieces@.len() as int),
{
    let mut material: i32 = 0;
    let mut i: usize = 0;
    while i < pieces.len()
        invariant
            typed_material(pieces@, pieces@.len() as int) <= i32::MAX,
            i <= pieces@.len(),
            material as int == typed_material(pieces@, i as int),
        decreases pieces@.len() - i,
    {
        proof { lemma_typed_monotone(pieces@, i as int + 1, pieces@.len() as int); }
        let (_, pt, _) = pieces[i];
        if pt == PAWN {
            material += 1;
        } else if pt == KNIGHT {
            material += 3;
        } else if pt == BISHOP {
            material += 3;
        } else if pt == ROOK {
            material += 5;
        } else if pt == QUEEN {
            material += 9;
        }
        i += 1;
    }
    material
}

/// Coarse material of `(piece, square)` entries.
pub fn calculate_material_from_pieces(pieces: &[(Piece, Square)]) -> (r: i32)
    requires
        listed_material(pieces@, pieces@.len() as int) <= i32::MAX,
    ensures
        r as int == listed_material(pieces@, pieces@.len() as int),
{
    let mut material: i32 = 0;
    let mut i: usize = 0;
    while i < pieces.len()
        invariant
            listed_material(pieces@, pieces@.len() as int) <= i32::MAX,
            i <= pieces@.len(),
            material as int == listed_material(pieces@, i as int),
        decreases pieces@.len() - i,
    {
        proof { lemma_listed_monotone(pieces@, i as int + 1, pieces@.len() as int); }
        let (piece, _) = pieces[i];
        match piece {
            Piece::WhitePawn | Piece::BlackPawn => material += 1,
            Piece::WhiteKnight | Piece::BlackKnight => material += 3,
            Piece::WhiteBishop | Piece::BlackBishop => material += 3,
            Piece::WhiteRook | Piece::BlackRook => material += 5,
            Piece::WhiteQueen | Piece::BlackQueen => material += 9,
            _ => {},
        }
        i += 1;
    }
    material
}

} // verus!
