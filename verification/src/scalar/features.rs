//! Explaining a feature index in words.
use vstd::prelude::*;
use vstd::string::StringExecFns;
use super::text::{push_char, usize_text, decimal};
use super::types::{Piece, square_name, square_text, piece_symbol, sf_code};
use crate::features::{feature_index, king_bucket, king_bucket_of, lemma_xor_orient, make_index, orient, orient_mask, WHITE};

verus! {

/// The explanation of the feature of `piece` on `square` from `perspective` with that side's
/// king on `king_sq`.
pub open spec fn explanation(perspective: int, square: int, piece: Piece, king_sq: int) -> Seq<char> {
    let o = orient(perspective, king_sq);
    "  "@ + (if perspective == 0 { "White"@ } else { "Black"@ }) + " perspective: "@ + seq![piece_symbol(piece)]
        + " on "@ + square_text(square) + " (king on "@ + square_text(king_sq) + ") → orient="@ + decimal(o as nat)
        + ", sq'="@ + square_text((square as usize ^ o as usize) as int) + ", ksq'="@ + square_text(king_sq)
        + ", bucket="@ + decimal(king_bucket(perspective, king_sq) as nat)
        + ", index="@ + decimal(feature_index(perspective, square, sf_code(piece) as int, king_sq) as nat)
}

/// Describes the feature of `piece` on `square` from `perspective` (0 White, 1 Black) with that
/// side's king on `king_sq`: the orientation mask, the transformed square, the king bucket and
/// the feature index.
pub fn explain_feature(perspective: usize, square: usize, piece: Piece, king_sq: usize) -> (r: String)
    requires
        perspective < 2,
        square < 64,
        king_sq < 64,
    ensures
        r@ == explanation(perspective as int, square as int, piece, king_sq as int),
{
    let persp_name = if perspective == WHITE { "White" } else { "Black" };
    let pc = piece.stockfish_code();
    let o = orient_mask(perspective, king_sq);
    proof { lemma_xor_orient(square, o); }
    let transformed_sq = square ^ o;
    let bucket_idx = king_bucket_of(perspective, king_sq);
    let index = make_index(perspective, square, pc, king_sq);
    let mut s = String::new();
    s.append("  ");
    s.append(persp_name);
    s.append(" perspective: ");
    push_char(&mut s, piece.symbol());
    s.append(" on ");
    s.append(square_name(square).as_str());
    s.append(" (king on ");
    s.append(square_name(king_sq).as_str());
    s.append(") → orient=");
    s.append(usize_text(o).as_str());
    s.append(", sq'=");
    s.append(square_name(transformed_sq).as_str());
    s.append(", ksq'=");
    s.append(square_name(king_sq).as_str());
    s.append(", bucket=");
    s.append(usize_text(bucket_idx).as_str());
    s.append(", index=");
    s.append(usize_text(index).as_str());
    proof {
        assert(s@ =~= explanation(perspective as int, square as int, piece, king_sq as int));
    }
    s
}

} // verus!
