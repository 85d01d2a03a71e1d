//! The board a probe tracks: pieces by square, with counts, material and bitboards kept in step.
use vstd::prelude::*;
use crate::bitboard::{has_bit, lemma_bit_and, lemma_bit_not, lemma_bit_or, lemma_bit_single, lemma_bit_zero};
use crate::network::{BISHOP_VALUE, KNIGHT_VALUE, QUEEN_VALUE, ROOK_VALUE};
use crate::types::{color_of_code, piece_code, type_of_code, Color, Piece};

verus! {

/// Side of a piece: 0 for White, 1 for Black, -1 for no piece.
pub open spec fn side_of(p: Piece) -> int {
    match color_of_code(piece_code(p) as int) {
        Some(Color::White) => 0,
        Some(Color::Black) => 1,
        None => -1,
    }
}

/// Type of a piece: 1 pawn, 2 knight, 3 bishop, 4 rook, 5 queen, 6 king, 0 no piece.
pub open spec fn kind_of(p: Piece) -> int {
    type_of_code(piece_code(p) as int)
}

/// Material value of a knight, bishop, rook or queen; 0 for the others.
pub open spec fn material_value(p: Piece) -> int {
    if kind_of(p) == 2 { KNIGHT_VALUE as int } else if kind_of(p) == 3 { BISHOP_VALUE as int } else if kind_of(p) == 4 {
        ROOK_VALUE as int } else if kind_of(p) == 5 { QUEEN_VALUE as int } else { 0 }
}

/// 1 for a piece, 0 for an empty square.
pub open spec fn occupied() -> spec_fn(Piece) -> int {
    |p: Piece| if p != Piece::NoPiece { 1int } else { 0int }
}

/// 1 for a pawn of side `c`, 0 otherwise.
pub open spec fn pawn_of(c: int) -> spec_fn(Piece) -> int {
    |p: Piece| if kind_of(p) == 1 && side_of(p) == c { 1int } else { 0int }
}

/// Material value of a knight, bishop, rook or queen of side `c`, 0 otherwise.
pub open spec fn material_of(c: int) -> spec_fn(Piece) -> int {
    |p: Piece| if side_of(p) == c { material_value(p) } else { 0int }
}

/// Sum of `f` over the first `n` squares.
pub open spec fn board_sum(b: Seq<Piece>, n: int, f: spec_fn(Piece) -> int) -> int
    decreases n,
{
    if n <= 0 { 0 } else { board_sum(b, n - 1, f) + f(b[n - 1]) }
}

/// Changing one square changes the sum by the difference of its two values.
pub proof fn lemma_board_sum_update(b: Seq<Piece>, n: int, s: int, p: Piece, f: spec_fn(Piece) -> int)
    requires
        0 <= s < n <= b.len(),
    ensures
        board_sum(b.update(s, p), n, f) == board_sum(b, n, f) - f(b[s]) + f(p),
    decreases n,
{
    if n - 1 > s {
        lemma_board_sum_update(b, n - 1, s, p, f);
    } else {
        lemma_board_sum_frame(b, b.update(s, p), n - 1, f);
    }
}

/// Boards that agree on the first `n` squares have the same sums over them.
pub proof fn lemma_board_sum_frame(a: Seq<Piece>, b: Seq<Piece>, n: int, f: spec_fn(Piece) -> int)
    requires
        n <= a.len(),
        n <= b.len(),
        forall|i: int| 0 <= i < n ==> a[i] == b[i],
    ensures
        board_sum(a, n, f) == board_sum(b, n, f),
    decreases n,
{
    if n > 0 {
        lemma_board_sum_frame(a, b, n - 1, f);
    }
}

/// A sum of zeros is zero.
pub proof fn lemma_board_sum_zero(b: Seq<Piece>, n: int, f: spec_fn(Piece) -> int)
    requires
        n <= b.len(),
        forall|i: int| 0 <= i < n ==> f(#[trigger] b[i]) == 0,
    ensures
        board_sum(b, n, f) == 0,
    decreases n,
{
    if n > 0 {
        lemma_board_sum_zero(b, n - 1, f);
    }
}

/// A sum of values in `[0, m]` over `n` squares lies in `[0, n * m]`.
pub proof fn lemma_board_sum_bounds(b: Seq<Piece>, n: int, f: spec_fn(Piece) -> int, m: int)
    requires
        0 <= n <= b.len(),
        0 <= m,
        forall|p: Piece| 0 <= #[trigger] f(p) <= m,
    ensures
        0 <= board_sum(b, n, f) <= n * m,
    decreases n,
{
    if n > 0 {
        lemma_board_sum_bounds(b, n - 1, f, m);
        assert(f(b[n - 1]) <= m);
        assert((n - 1) * m + m == n * m) by (nonlinear_arith);
    }
}

/// The pieces by square with the quantities derived from them.
pub struct Board {
    pub pieces: [Piece; 64],
    pub king_squares: [usize; 2],
    pub piece_count: usize,
    pub pawn_count: [i32; 2],
    pub non_pawn_material: [i32; 2],
    pub by_color_bb: [u64; 2],
    pub by_type_bb: [u64; 6],
}

/// The counts, material and bitboards are those of the pieces, and the king squares are squares.
pub open spec fn board_consistent(b: &Board) -> bool {
    &&& b.piece_count as int == board_sum(b.pieces@, 64, occupied())
    &&& forall|c: int| 0 <= c < 2 ==> #[trigger] b.pawn_count[c] as int == board_sum(b.pieces@, 64, pawn_of(c))
    &&& forall|c: int| 0 <= c < 2 ==> #[trigger] b.non_pawn_material[c] as int == board_sum(b.pieces@, 64, material_of(c))
    &&& forall|c: int, s: int| 0 <= c < 2 && 0 <= s < 64 ==> (#[trigger] has_bit(b.by_color_bb[c], s as u64) <==> side_of(b.pieces@[s]) == c)
    &&& forall|t: int, s: int| 0 <= t < 6 && 0 <= s < 64 ==> (#[trigger] has_bit(b.by_type_bb[t], s as u64) <==> kind_of(b.pieces@[s]) == t + 1)
    &&& b.king_squares[0] < 64
    &&& b.king_squares[1] < 64
}

/// The board with `piece` put on `square` (nothing changes for `Piece::NoPiece`).
pub open spec fn placed(board: Seq<Piece>, piece: Piece, square: int) -> Seq<Piece> {
    if piece == Piece::NoPiece { board } else { board.update(square, piece) }
}

/// The king squares after putting `piece` on `square`.
pub open spec fn kings_after(kings: Seq<usize>, piece: Piece, square: usize) -> Seq<usize> {
    if kind_of(piece) == 6 { kings.update(side_of(piece), square) } else { kings }
}

/// The empty board.
pub open spec fn empty_board() -> Seq<Piece> {
    Seq::new(64, |i: int| Piece::NoPiece)
}

/// Material value of a knight, bishop, rook or queen, 0 for the others.
pub fn piece_value(piece: Piece) -> (r: i32)
    ensures
        r as int == material_value(piece),
{
    match piece {
        Piece::WhiteKnight | Piece::BlackKnight => KNIGHT_VALUE,
        Piece::WhiteBishop | Piece::BlackBishop => BISHOP_VALUE,
        Piece::WhiteRook | Piece::BlackRook => ROOK_VALUE,
        Piece::WhiteQueen | Piece::BlackQueen => QUEEN_VALUE,
        _ => 0,
    }
}

proof fn lemma_sum_facts(b: Seq<Piece>)
    requires
        b.len() == 64,
    ensures
        0 <= board_sum(b, 64, occupied()) <= 64,
        forall|c: int| 0 <= board_sum(b, 64, #[trigger] pawn_of(c)) <= 64,
        forall|c: int| 0 <= board_sum(b, 64, #[trigger] material_of(c)) <= 64 * 2538,
{
    lemma_board_sum_bounds(b, 64, occupied(), 1);
    assert forall|c: int| 0 <= board_sum(b, 64, #[trigger] pawn_of(c)) <= 64 by {
        lemma_board_sum_bounds(b, 64, pawn_of(c), 1);
    }
    assert forall|c: int| 0 <= board_sum(b, 64, #[trigger] material_of(c)) <= 64 * 2538 by {
        lemma_board_sum_bounds(b, 64, material_of(c), 2538);
    }
}

impl Board {
    /// An empty board with both kings recorded on square 0.
    pub fn empty() -> (r: Board)
        ensures
            board_consistent(&r),
            r.pieces@ == empty_board(),
            r.king_squares[0] == 0,
            r.king_squares[1] == 0,
    {
        let r = Board {
            pieces: [Piece::NoPiece; 64],
            king_squares: [0; 2],
            piece_count: 0,
            pawn_count: [0; 2],
            non_pawn_material: [0; 2],
            by_color_bb: [0; 2],
            by_type_bb: [0; 6],
        };
        proof {
            assert(r.pieces@ =~= empty_board());
            lemma_board_sum_zero(r.pieces@, 64, occupied());
            assert forall|c: int| 0 <= c < 2 implies #[trigger] r.pawn_count[c] as int == board_sum(r.pieces@, 64, pawn_of(c)) by {
                lemma_board_sum_zero(r.pieces@, 64, pawn_of(c));
            }
            assert forall|c: int| 0 <= c < 2 implies #[trigger] r.non_pawn_material[c] as int == board_sum(r.pieces@, 64, material_of(c)) by {
                lemma_board_sum_zero(r.pieces@, 64, material_of(c));
            }
            assert forall|c: int, s: int| 0 <= c < 2 && 0 <= s < 64 implies
                (#[trigger] has_bit(r.by_color_bb[c], s as u64) <==> side_of(r.pieces@[s]) == c) by {
                lemma_bit_zero(s as u64);
            }
            assert forall|t: int, s: int| 0 <= t < 6 && 0 <= s < 64 implies
                (#[trigger] has_bit(r.by_type_bb[t], s as u64) <==> kind_of(r.pieces@[s]) == t + 1) by {
                lemma_bit_zero(s as u64);
            }
        }
        r
    }

    /// Takes the piece off `square` and returns it (`Piece::NoPiece` if the square was empty).
    pub fn remove_piece(&mut self, square: usize) -> (r: Piece)
        requires
            board_consistent(old(self)),
            square < 64,
        ensures
            board_consistent(final(self)),
            r == old(self).pieces@[square as int],
            final(self).pieces@ == old(self).pieces@.update(square as int, Piece::NoPiece),
            final(self).king_squares == old(self).king_squares,
    {
        let piece = self.pieces[square];
        if piece == Piece::NoPiece {
            proof { assert(self.pieces@ =~= old(self).pieces@.update(square as int, Piece::NoPiece)); }
            return Piece::NoPiece;
        }
        let ghost b0 = self.pieces@;
        self.pieces[square] = Piece::NoPiece;
        let ghost b1 = self.pieces@;
        proof {
            assert(b1 == b0.update(square as int, Piece::NoPiece));
            lemma_board_sum_update(b0, 64, square as int, Piece::NoPiece, occupied());
            lemma_sum_facts(b1);
        }
        self.piece_count = self.piece_count - 1;
        let color = piece.color();
        let piece_type = piece.piece_type();
        let ghost old_color = self.by_color_bb;
        let ghost old_type = self.by_type_bb;
        if let Some(c) = color {
            if piece_type > 0 {
                let mask = !(1u64 << square);
                let ci = c.index();
                self.by_color_bb[ci] = self.by_color_bb[ci] & mask;
                self.by_type_bb[piece_type - 1] = self.by_type_bb[piece_type - 1] & mask;
            }
        }
        proof {
            assert forall|c: int, s: int| 0 <= c < 2 && 0 <= s < 64 implies
                (#[trigger] has_bit(self.by_color_bb[c], s as u64) <==> side_of(b1[s]) == c) by {
                lemma_bit_and(old_color[c], !(1u64 << square as u64), s as u64);
                lemma_bit_not(1u64 << square as u64, s as u64);
                lemma_bit_single(square as u64, s as u64);
            }
            assert forall|t: int, s: int| 0 <= t < 6 && 0 <= s < 64 implies
                (#[trigger] has_bit(self.by_type_bb[t], s as u64) <==> kind_of(b1[s]) == t + 1) by {
                lemma_bit_and(old_type[t], !(1u64 << square as u64), s as u64);
                lemma_bit_not(1u64 << square as u64, s as u64);
                lemma_bit_single(square as u64, s as u64);
            }
            lemma_sum_facts(b0);
            lemma_sum_facts(b1);
        }
        if let Some(c) = color {
            let side = c.index();
            if piece_type == 1 {
                proof {
                    lemma_board_sum_update(b0, 64, square as int, Piece::NoPiece, pawn_of(side as int));
                    lemma_board_sum_update(b0, 64, square as int, Piece::NoPiece, pawn_of(1 - side as int));
                    lemma_board_sum_update(b0, 64, square as int, Piece::NoPiece, material_of(0));
                    lemma_board_sum_update(b0, 64, square as int, Piece::NoPiece, material_of(1));
                }
                self.pawn_count[side] = self.pawn_count[side] - 1;
            } else if !piece.is_king() {
                proof {
                    lemma_board_sum_update(b0, 64, square as int, Piece::NoPiece, material_of(side as int));
                    lemma_board_sum_update(b0, 64, square as int, Piece::NoPiece, material_of(1 - side as int));
                    lemma_board_sum_update(b0, 64, square as int, Piece::NoPiece, pawn_of(0));
                    lemma_board_sum_update(b0, 64, square as int, Piece::NoPiece, pawn_of(1));
                }
                self.non_pawn_material[side] = self.non_pawn_material[side] - piece_value(piece);
            } else {
                proof {
                    lemma_board_sum_update(b0, 64, square as int, Piece::NoPiece, material_of(0));
                    lemma_board_sum_update(b0, 64, square as int, Piece::NoPiece, material_of(1));
                    lemma_board_sum_update(b0, 64, square as int, Piece::NoPiece, pawn_of(0));
                    lemma_board_sum_update(b0, 64, square as int, Piece::NoPiece, pawn_of(1));
                }
            }
        }
        piece
    }

    /// Puts `piece` on `square`, first taking off what stood there; `Piece::NoPiece` changes
    /// nothing. A king's square is recorded.
    pub fn add_piece(&mut self, piece: Piece, square: usize)
        requires
            board_consistent(old(self)),
            square < 64,
        ensures
            board_consistent(final(self)),
            final(self).pieces@ == placed(old(self).pieces@, piece, square as int),
            final(self).king_squares@ == kings_after(old(self).king_squares@, piece, square),
    {
        if piece == Piece::NoPiece {
            return;
        }
        if self.pieces[square] != Piece::NoPiece {
            self.remove_piece(square);
        }
        let ghost b0 = self.pieces@;
        assert(b0[square as int] == Piece::NoPiece);
        self.pieces[square] = piece;
        let ghost b1 = self.pieces@;
        proof {
            assert(b1 == b0.update(square as int, piece));
            lemma_board_sum_update(b0, 64, square as int, piece, occupied());
            lemma_sum_facts(b1);
        }
        self.piece_count = self.piece_count + 1;
        let color = piece.color();
        let piece_type = piece.piece_type();
        let ghost old_color = self.by_color_bb;
        let ghost old_type = self.by_type_bb;
        if let Some(c) = color {
            if piece_type > 0 {
                let mask = 1u64 << square;
                let ci = c.index();
                self.by_color_bb[ci] = self.by_color_bb[ci] | mask;
                self.by_type_bb[piece_type - 1] = self.by_type_bb[piece_type - 1] | mask;
            }
        }
        proof {
            assert forall|c: int, s: int| 0 <= c < 2 && 0 <= s < 64 implies
                (#[trigger] has_bit(self.by_color_bb[c], s as u64) <==> side_of(b1[s]) == c) by {
                lemma_bit_or(old_color[c], 1u64 << square as u64, s as u64);
                lemma_bit_single(square as u64, s as u64);
            }
            assert forall|t: int, s: int| 0 <= t < 6 && 0 <= s < 64 implies
                (#[trigger] has_bit(self.by_type_bb[t], s as u64) <==> kind_of(b1[s]) == t + 1) by {
                lemma_bit_or(old_type[t], 1u64 << square as u64, s as u64);
                lemma_bit_single(square as u64, s as u64);
            }
            lemma_sum_facts(b0);
        }
        if let Some(c) = color {
            let side = c.index();
            if piece_type == 1 {
                proof {
                    lemma_board_sum_update(b0, 64, square as int, piece, pawn_of(side as int));
                    lemma_board_sum_update(b0, 64, square as int, piece, pawn_of(1 - side as int));
                    lemma_board_sum_update(b0, 64, square as int, piece, material_of(0));
                    lemma_board_sum_update(b0, 64, square as int, piece, material_of(1));
                }
                self.pawn_count[side] = self.pawn_count[side] + 1;
            } else if piece.is_king() {
                proof {
                    lemma_board_sum_update(b0, 64, square as int, piece, material_of(0));
                    lemma_board_sum_update(b0, 64, square as int, piece, material_of(1));
                    lemma_board_sum_update(b0, 64, square as int, piece, pawn_of(0));
                    lemma_board_sum_update(b0, 64, square as int, piece, pawn_of(1));
                }
                self.king_squares[side] = square;
            } else {
                proof {
                    lemma_board_sum_update(b0, 64, square as int, piece, material_of(side as int));
                    lemma_board_sum_update(b0, 64, square as int, piece, material_of(1 - side as int));
                    lemma_board_sum_update(b0, 64, square as int, piece, pawn_of(0));
                    lemma_board_sum_update(b0, 64, square as int, piece, pawn_of(1));
                }
                self.non_pawn_material[side] = self.non_pawn_material[side] + piece_value(piece);
            }
        }
    }
}

} // verus!
