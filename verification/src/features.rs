//! HalfKA feature indexing for the Stockfish NNUE layout.
//!
//! A feature means "from perspective P, piece X stands on square S while P's king stands on K".
//! The board is normalised before indexing: Black's view is flipped vertically, and a king on
//! files a-d mirrors the board horizontally, so 32 king buckets of 11 x 64 features remain.
use vstd::prelude::*;

verus! {

/// Number of board squares.
pub const SQUARE_NB: usize = 64;
/// White perspective index.
pub const WHITE: usize = 0;
/// Black perspective index.
pub const BLACK: usize = 1;

/// Pawn piece-type index.
pub const PAWN: usize = 1;
/// Knight piece-type index.
pub const KNIGHT: usize = 2;
/// Bishop piece-type index.
pub const BISHOP: usize = 3;
/// Rook piece-type index.
pub const ROOK: usize = 4;
/// Queen piece-type index.
pub const QUEEN: usize = 5;
/// King piece-type index.
pub const KING: usize = 6;

/// Features per king bucket: 11 piece kinds on 64 squares.
pub const PS_NB: usize = 704;
/// Total number of features: 32 king buckets of `PS_NB` features.
pub const FEATURE_DIMS: usize = 22528;

/// XOR mask that normalises a square: files are mirrored when the king stands on files a-d,
/// ranks are flipped for Black.
pub open spec fn orient(perspective: int, ksq: int) -> int {
    (if ksq % 8 < 4 { 7int } else { 0int }) + (if perspective == 1 { 56int } else { 0int })
}

/// Offset of a piece's 64 features inside a king bucket. From each side's perspective its own
/// pieces take the even blocks and the opponent's the odd blocks; both kings share block 10.
pub open spec fn piece_offset(perspective: int, pc: int) -> int {
    if pc == 6 || pc == 14 {
        640
    } else if 1 <= pc <= 5 {
        64 * (2 * (pc - 1) + (if perspective == 1 { 1int } else { 0int }))
    } else if 9 <= pc <= 13 {
        64 * (2 * (pc - 9) + (if perspective == 1 { 0int } else { 1int }))
    } else {
        0
    }
}

/// King bucket of `ksq` from `perspective`: rank counted from the side's own back rank
/// reversed (White) or as is (Black), times four, plus the file folded onto a-d.
pub open spec fn king_bucket(perspective: int, ksq: int) -> int {
    let rank = ksq / 8;
    let file = ksq % 8;
    let folded = if file < 4 { file } else { 7 - file };
    let row = if perspective == 0 { 7 - rank } else { rank };
    row * 4 + folded
}

/// The square `s` seen after normalisation.
pub open spec fn oriented_square(perspective: int, s: int, ksq: int) -> int {
    let r = s / 8;
    let f = s % 8;
    let r2 = if perspective == 1 { 7 - r } else { r };
    let f2 = if ksq % 8 < 4 { 7 - f } else { f };
    8 * r2 + f2
}

/// Feature index of piece code `pc` on `s` from `perspective` with that side's king on `ksq`.
pub open spec fn feature_index(perspective: int, s: int, pc: int, ksq: int) -> int {
    oriented_square(perspective, s, ksq) + piece_offset(perspective, pc) + king_bucket(perspective, ksq) * 704
}

pub proof fn lemma_xor_orient(s: usize, m: usize)
    by (bit_vector)
    requires
        s < 64,
        m == 0 || m == 7 || m == 56 || m == 63,
    ensures
        s ^ m < 64,
        m == 0 ==> s ^ m == s,
        m == 7 ==> s ^ m == (s & 56) + (7 - (s & 7)),
        m == 56 ==> s ^ m == (56 - (s & 56)) + (s & 7),
        m == 63 ==> s ^ m == (56 - (s & 56)) + (7 - (s & 7)),
        s & 7 == s % 8,
        s & 56 == 8 * (s / 8),
{
}

/// The XOR mask of `orient` for a side and its king square.
pub fn orient_mask(perspective: usize, ksq: usize) -> (r: usize)
    requires
        perspective < 2,
        ksq < 64,
    ensures
        r == orient(perspective as int, ksq as int),
        r == 0 || r == 7 || r == 56 || r == 63,
{
    let base: usize = if ksq % 8 < 4 { 7 } else { 0 };
    if perspective == 1 { base + 56 } else { base }
}

/// The king bucket of a side's king square.
pub fn king_bucket_of(perspective: usize, ksq: usize) -> (r: usize)
    requires
        perspective < 2,
        ksq < 64,
    ensures
        r == king_bucket(perspective as int, ksq as int),
        r < 32,
{
    let file = ksq % 8;
    let rank = ksq / 8;
    let folded = if file < 4 { file } else { 7 - file };
    let row = if perspective == 0 { 7 - rank } else { rank };
    row * 4 + folded
}

/// Builds a sparse feature index from perspective, square, piece code, and king square.
pub fn make_index(perspective: usize, s: usize, pc: usize, ksq: usize) -> (r: usize)
    requires
        perspective < 2,
        s < 64,
        pc < 16,
        ksq < 64,
    ensures
        r == feature_index(perspective as int, s as int, pc as int, ksq as int),
        r < FEATURE_DIMS,
{
    let file = ksq % 8;
    let rank = ksq / 8;
    let mut orient_mask: usize = if file < 4 { 7 } else { 0 };
    if perspective == 1 {
        orient_mask = orient_mask + 56;
    }
    let piece_off: usize = if pc == 6 || pc == 14 {
        640
    } else if 1 <= pc && pc <= 5 {
        64 * (2 * (pc - 1) + perspective)
    } else if 9 <= pc && pc <= 13 {
        64 * (2 * (pc - 9) + (1 - perspective))
    } else {
        0
    };
    let folded = if file < 4 { file } else { 7 - file };
    let row = if perspective == 0 { 7 - rank } else { rank };
    let bucket = row * 4 + folded;
    proof {
        lemma_xor_orient(s, orient_mask);
    }
    (s ^ orient_mask) + piece_off + bucket * PS_NB
}


/// Flipping the colour of a piece code, the rank of a square below 64.
proof fn lemma_flips(s: usize, pc: usize)
    by (bit_vector)
    requires
        s < 64,
        pc < 16,
    ensures
        s ^ 56 < 64,
        (s ^ 56) & 7 == s & 7,
        (s ^ 56) & 56 == 56 - (s & 56),
        1 <= pc <= 6 ==> pc ^ 8 == pc + 8,
        9 <= pc <= 14 ==> pc ^ 8 == pc - 8,
        s & 7 == s % 8,
        s & 56 == 8 * (s / 8),
        (s ^ 56) & 7 == (s ^ 56) % 8,
        (s ^ 56) & 56 == 8 * ((s ^ 56) / 8),
{
}

/// The features do not favour a colour: Black's view of a piece is White's view of the piece of
/// the other colour on the board flipped top to bottom, with Black's king square flipped alike.
pub proof fn lemma_feature_colour_symmetry(s: usize, pc: usize, ksq: usize)
    requires
        s < 64,
        ksq < 64,
        1 <= pc <= 6 || 9 <= pc <= 14,
    ensures
        feature_index(1, s as int, pc as int, ksq as int) == feature_index(0, (s ^ 56) as int, (pc ^ 8) as int,
            (ksq ^ 56) as int),
{
    lemma_flips(s, pc);
    lemma_flips(ksq, pc);
    let t = s ^ 56;
    let k2 = ksq ^ 56;
    assert(t / 8 == 7 - s / 8 && t % 8 == s % 8);
    assert(k2 / 8 == 7 - ksq / 8 && k2 % 8 == ksq % 8);
}

/// Within one king bucket the features of different pieces or squares differ: from either
/// side, two pieces on squares below 64 share a feature only when they stand on the same square
/// and are the same piece or both kings.
pub proof fn lemma_features_distinct(perspective: int, s1: int, pc1: int, s2: int, pc2: int, ksq: int)
    requires
        0 <= perspective < 2,
        0 <= s1 < 64,
        0 <= s2 < 64,
        0 <= ksq < 64,
        1 <= pc1 <= 6 || 9 <= pc1 <= 14,
        1 <= pc2 <= 6 || 9 <= pc2 <= 14,
        feature_index(perspective, s1, pc1, ksq) == feature_index(perspective, s2, pc2, ksq),
    ensures
        s1 == s2,
        pc1 == pc2 || (pc1 % 8 == 6 && pc2 % 8 == 6),
{
    let o1 = oriented_square(perspective, s1, ksq);
    let o2 = oriented_square(perspective, s2, ksq);
    assert(0 <= o1 < 64 && 0 <= o2 < 64);
    let f1 = piece_offset(perspective, pc1);
    let f2 = piece_offset(perspective, pc2);
    assert(f1 % 64 == 0 && f2 % 64 == 0);
    assert(o1 + f1 == o2 + f2);
    assert(o1 == o2 && f1 == f2);
    assert(s1 / 8 == s2 / 8 && s1 % 8 == s2 % 8);
}


/// Mirroring a square across the middle of the board, files a-h to h-a.
proof fn lemma_mirror(s: usize)
    by (bit_vector)
    requires
        s < 64,
    ensures
        s ^ 7 < 64,
        (s ^ 7) & 7 == 7 - (s & 7),
        (s ^ 7) & 56 == s & 56,
        s & 7 == s % 8,
        s & 56 == 8 * (s / 8),
        (s ^ 7) & 7 == (s ^ 7) % 8,
        (s ^ 7) & 56 == 8 * ((s ^ 7) / 8),
{
}

/// The features do not tell the two wings apart: mirroring the board left to right, the piece's
/// square and the king's alike, gives the same feature, from either side.
pub proof fn lemma_feature_mirror_symmetry(perspective: int, s: usize, pc: int, ksq: usize)
    requires
        0 <= perspective < 2,
        s < 64,
        ksq < 64,
    ensures
        feature_index(perspective, s as int, pc, ksq as int) == feature_index(perspective, (s ^ 7) as int, pc,
            (ksq ^ 7) as int),
        0 <= king_bucket(perspective, ksq as int) < 32,
{
    lemma_mirror(s);
    lemma_mirror(ksq);
    let t = s ^ 7;
    let k2 = ksq ^ 7;
    assert(t / 8 == s / 8 && t % 8 == 7 - s % 8);
    assert(k2 / 8 == ksq / 8 && k2 % 8 == 7 - ksq % 8);
}

} // verus!
