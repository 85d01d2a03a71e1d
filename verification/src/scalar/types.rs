//! Pieces numbered 1..=12 (White pawn..king, then Black), squares and material values.
use vstd::prelude::*;
use vstd::string::StrSliceExecFns;
use super::text::push_char;
pub use crate::types::Color;
pub use crate::network::{BISHOP_VALUE, KNIGHT_VALUE, PAWN_VALUE, QUEEN_VALUE, ROOK_VALUE};

verus! {

/// A chess piece, colour included.
#[derive(Debug, Clone, Copy, PartialEq, Eq, Structural)]
pub enum Piece {
    NoPiece,
    WhitePawn,
    WhiteKnight,
    WhiteBishop,
    WhiteRook,
    WhiteQueen,
    WhiteKing,
    BlackPawn,
    BlackKnight,
    BlackBishop,
    BlackRook,
    BlackQueen,
    BlackKing,
}

/// Number of a piece: 0 for none, 1..=6 White pawn..king, 7..=12 Black pawn..king.
pub open spec fn piece_number(p: Piece) -> int {
    match p {
        Piece::NoPiece => 0,
        Piece::WhitePawn => 1,
        Piece::WhiteKnight => 2,
        Piece::WhiteBishop => 3,
        Piece::WhiteRook => 4,
        Piece::WhiteQueen => 5,
        Piece::WhiteKing => 6,
        Piece::BlackPawn => 7,
        Piece::BlackKnight => 8,
        Piece::BlackBishop => 9,
        Piece::BlackRook => 10,
        Piece::BlackQueen => 11,
        Piece::BlackKing => 12,
    }
}

/// Type of a piece: 1 pawn .. 6 king, 0 for none.
pub open spec fn kind(p: Piece) -> int {
    let n = piece_number(p);
    if n == 0 { 0 } else if n <= 6 { n } else { n - 6 }
}

/// Stockfish code of a piece: `8 * black + type`, 0 for none.
pub open spec fn sf_code(p: Piece) -> usize {
    let n = piece_number(p);
    if n == 0 { 0 } else if n <= 6 { n as usize } else { (n + 2) as usize }
}

/// Material value of a piece type.
pub open spec fn kind_value(k: int) -> int {
    if k == 1 { PAWN_VALUE as int } else if k == 2 { KNIGHT_VALUE as int } else if k == 3 { BISHOP_VALUE as int }
    else if k == 4 { ROOK_VALUE as int } else if k == 5 { QUEEN_VALUE as int } else { 0 }
}

impl Piece {
    /// Piece type: 1 pawn, 2 knight, 3 bishop, 4 rook, 5 queen, 6 king, 0 for none.
    pub fn piece_type(self) -> (r: usize)
        ensures
            r as int == kind(self),
    {
        match self {
            Piece::NoPiece => 0,
            Piece::WhitePawn | Piece::BlackPawn => 1,
            Piece::WhiteKnight | Piece::BlackKnight => 2,
            Piece::WhiteBishop | Piece::BlackBishop => 3,
            Piece::WhiteRook | Piece::BlackRook => 4,
            Piece::WhiteQueen | Piece::BlackQueen => 5,
            Piece::WhiteKing | Piece::BlackKing => 6,
        }
    }

    /// Colour of the piece; none for `NoPiece`.
    pub fn color(self) -> (r: Option<Color>)
        ensures
            r == (if piece_number(self) == 0 { None } else if piece_number(self) <= 6 { Some(Color::White) } else {
                Some(Color::Black) }),
    {
        match self {
            Piece::NoPiece => None,
            Piece::WhitePawn | Piece::WhiteKnight | Piece::WhiteBishop | Piece::WhiteRook | Piece::WhiteQueen
            | Piece::WhiteKing => Some(Color::White),
            _ => Some(Color::Black),
        }
    }

    /// Whether the piece is a king.
    pub fn is_king(self) -> (r: bool)
        ensures
            r == (kind(self) == 6),
    {
        matches!(self, Piece::WhiteKing | Piece::BlackKing)
    }

    /// Stockfish code used for feature indexing: 1..=6 White pawn..king, 9..=14 Black.
    pub fn stockfish_code(self) -> (r: usize)
        ensures
            r == sf_code(self),
    {
        match self {
            Piece::NoPiece => 0,
            Piece::WhitePawn => 1,
            Piece::WhiteKnight => 2,
            Piece::WhiteBishop => 3,
            Piece::WhiteRook => 4,
            Piece::WhiteQueen => 5,
            Piece::WhiteKing => 6,
            Piece::BlackPawn => 9,
            Piece::BlackKnight => 10,
            Piece::BlackBishop => 11,
            Piece::BlackRook => 12,
            Piece::BlackQueen => 13,
            Piece::BlackKing => 14,
        }
    }

    /// Internal index used for the features: 0..=4 White pawn..queen, 5..=9 Black pawn..queen,
    /// 10 for either king (both share the king block), 0 for none.
    pub fn index(self) -> (r: usize)
        ensures
            r <= 10,
            r == (if kind(self) == 6 { 10usize } else if piece_number(self) == 0 {
                0usize } else if piece_number(self) <= 6 { (piece_number(self) - 1) as usize } else {
                (piece_number(self) - 2) as usize }),
    {
        match self {
            Piece::NoPiece => 0,
            Piece::WhitePawn => 0,
            Piece::WhiteKnight => 1,
            Piece::WhiteBishop => 2,
            Piece::WhiteRook => 3,
            Piece::WhiteQueen => 4,
            Piece::WhiteKing => 10,
            Piece::BlackPawn => 5,
            Piece::BlackKnight => 6,
            Piece::BlackBishop => 7,
            Piece::BlackRook => 8,
            Piece::BlackQueen => 9,
            Piece::BlackKing => 10,
        }
    }

    /// Human-readable name, such as "White Knight"; "None" for no piece.
    pub fn name(self) -> (r: &'static str)
        ensures
            r@ == (match self {
                Piece::NoPiece => "None"@,
                Piece::WhitePawn => "White Pawn"@,
                Piece::WhiteKnight => "White Knight"@,
                Piece::WhiteBishop => "White Bishop"@,
                Piece::WhiteRook => "White Rook"@,
                Piece::WhiteQueen => "White Queen"@,
                Piece::WhiteKing => "White King"@,
                Piece::BlackPawn => "Black Pawn"@,
                Piece::BlackKnight => "Black Knight"@,
                Piece::BlackBishop => "Black Bishop"@,
                Piece::BlackRook => "Black Rook"@,
                Piece::BlackQueen => "Black Queen"@,
                Piece::BlackKing => "Black King"@,
            }),
    {
        match self {
            Piece::NoPiece => "None",
            Piece::WhitePawn => "White Pawn",
            Piece::WhiteKnight => "White Knight",
            Piece::WhiteBishop => "White Bishop",
            Piece::WhiteRook => "White Rook",
            Piece::WhiteQueen => "White Queen",
            Piece::WhiteKing => "White King",
            Piece::BlackPawn => "Black Pawn",
            Piece::BlackKnight => "Black Knight",
            Piece::BlackBishop => "Black Bishop",
            Piece::BlackRook => "Black Rook",
            Piece::BlackQueen => "Black Queen",
            Piece::BlackKing => "Black King",
        }
    }

    /// Letter of the piece: PNBRQK for White, pnbrqk for Black, '.' for none.
    pub fn symbol(self) -> (r: char)
        ensures
            r == piece_symbol(self),
    {
        match self {
            Piece::NoPiece => '.',
            Piece::WhitePawn => 'P',
            Piece::WhiteKnight => 'N',
            Piece::WhiteBishop => 'B',
            Piece::WhiteRook => 'R',
            Piece::WhiteQueen => 'Q',
            Piece::WhiteKing => 'K',
            Piece::BlackPawn => 'p',
            Piece::BlackKnight => 'n',
            Piece::BlackBishop => 'b',
            Piece::BlackRook => 'r',
            Piece::BlackQueen => 'q',
            Piece::BlackKing => 'k',
        }
    }
}

/// Letter of a piece: PNBRQK for White, pnbrqk for Black, '.' for none.
pub open spec fn piece_symbol(p: Piece) -> char {
    match p {
        Piece::NoPiece => '.',
        Piece::WhitePawn => 'P',
        Piece::WhiteKnight => 'N',
        Piece::WhiteBishop => 'B',
        Piece::WhiteRook => 'R',
        Piece::WhiteQueen => 'Q',
        Piece::WhiteKing => 'K',
        Piece::BlackPawn => 'p',
        Piece::BlackKnight => 'n',
        Piece::BlackBishop => 'b',
        Piece::BlackRook => 'r',
        Piece::BlackQueen => 'q',
        Piece::BlackKing => 'k',
    }
}

/// Name of a square: its file letter from 'a' and its rank digit from '1'.
pub open spec fn square_text(sq: int) -> Seq<char> {
    seq![(97 + sq % 8) as char, (49 + sq / 8) as char]
}

/// Algebraic name of square `sq` (0 = a1, 7 = h1, 56 = a8, 63 = h8).
pub fn square_name(sq: usize) -> (r: String)
    requires
        sq / 8 <= 206,
    ensures
        r@ == square_text(sq as int),
{
    let file = (sq % 8) as u8;
    let rank = (sq / 8) as u8;
    let mut s = String::new();
    push_char(&mut s, (97u8 + file) as char);
    push_char(&mut s, (49u8 + rank) as char);
    proof { assert(s@ =~= square_text(sq as int)); }
    s
}

/// Square of an algebraic name: two characters, a file 'a'..='h' and a rank '1'..='8'.
pub open spec fn square_of_text(name: Seq<char>) -> Option<usize> {
    if name.len() == 2 && 'a' <= name[0] <= 'h' && '1' <= name[1] <= '8' {
        Some(((name[1] as int - 49) * 8 + (name[0] as int - 97)) as usize)
    } else {
        None
    }
}

/// Square of an algebraic name such as "e4"; `None` for anything else.
pub fn square_from_name(name: &str) -> (r: Option<usize>)
    ensures
        r == square_of_text(name@),
{
    if name.unicode_len() != 2 {
        return None;
    }
    let file = name.get_char(0);
    let rank = name.get_char(1);
    if file < 'a' || file > 'h' {
        return None;
    }
    if rank < '1' || rank > '8' {
        return None;
    }
    Some(((rank as u32 - 49) * 8 + (file as u32 - 97)) as usize)
}

/// Square names read back: the name of a square below 64 reads as that square, and a name that
/// reads as a square is that square's name.
pub proof fn lemma_square_name_round_trip(sq: int, name: Seq<char>)
    ensures
        0 <= sq < 64 ==> square_of_text(square_text(sq)) == Some(sq as usize),
        square_of_text(name) is Some ==> square_of_text(name)->Some_0 < 64
            && square_text(square_of_text(name)->Some_0 as int) == name,
{
    if 0 <= sq < 64 {
        let t = square_text(sq);
        assert(t[0] as int == 97 + sq % 8);
        assert(t[1] as int == 49 + sq / 8);
    }
    if square_of_text(name) is Some {
        let q = square_of_text(name)->Some_0 as int;
        let f = name[0] as int - 97;
        let r = name[1] as int - 49;
        assert(0 <= f < 8 && 0 <= r < 8);
        assert(q == r * 8 + f);
        assert(q % 8 == f && q / 8 == r);
        let t = square_text(q);
        assert(t[0] == name[0]);
        assert(t[1] == name[1]);
        assert(t =~= name);
    }
}

/// Material value of a piece: pawn 208, knight 781, bishop 825, rook 1276, queen 2538, 0 otherwise.
pub fn piece_value(piece: Piece) -> (r: i32)
    ensures
        r as int == kind_value(kind(piece)),
{
    match piece {
        Piece::WhitePawn | Piece::BlackPawn => PAWN_VALUE,
        Piece::WhiteKnight | Piece::BlackKnight => KNIGHT_VALUE,
        Piece::WhiteBishop | Piece::BlackBishop => BISHOP_VALUE,
        Piece::WhiteRook | Piece::BlackRook => ROOK_VALUE,
        Piece::WhiteQueen | Piece::BlackQueen => QUEEN_VALUE,
        _ => 0,
    }
}

} // verus!
