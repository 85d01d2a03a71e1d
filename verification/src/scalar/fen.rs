//! Reading a position from Forsyth-Edwards Notation: the board field, the side to move and the
//! halfmove clock.
//!
//! The fields are separated by white space. The board is read rank by rank from the eighth rank
//! down, with '/' between ranks and the digits 1..=8 standing for runs of empty squares.
use vstd::prelude::*;
use vstd::string::StrSliceExecFns;
use super::types::Piece;
use crate::types::Color;

verus! {

/// Unicode `White_Space`: the characters that separate the fields.
pub open spec fn is_space(c: char) -> bool {
    ||| '\u{9}' <= c <= '\u{d}'
    ||| c == ' '
    ||| c == '\u{85}'
    ||| c == '\u{a0}'
    ||| c == '\u{1680}'
    ||| '\u{2000}' <= c <= '\u{200a}'
    ||| c == '\u{2028}'
    ||| c == '\u{2029}'
    ||| c == '\u{202f}'
    ||| c == '\u{205f}'
    ||| c == '\u{3000}'
}

/// The fields split off the first `n` characters of `s`: those already closed, and the one
/// still open.
pub open spec fn fields_upto(s: Seq<char>, n: nat) -> (Seq<Seq<char>>, Seq<char>)
    decreases n,
{
    if n == 0 {
        (Seq::empty(), Seq::empty())
    } else {
        let prev = fields_upto(s, (n - 1) as nat);
        let c = s[n - 1];
        if is_space(c) {
            if prev.1.len() > 0 {
                (prev.0.push(prev.1), Seq::empty())
            } else {
                prev
            }
        } else {
            (prev.0, prev.1.push(c))
        }
    }
}

/// The white-space separated fields of `s`, in order, none of them empty.
pub open spec fn fields(s: Seq<char>) -> Seq<Seq<char>> {
    let st = fields_upto(s, s.len());
    if st.1.len() > 0 {
        st.0.push(st.1)
    } else {
        st.0
    }
}

/// The piece that a board letter stands for: PNBRQK White, pnbrqk Black, none otherwise.
pub open spec fn piece_of_char(c: char) -> Piece {
    if c == 'P' {
        Piece::WhitePawn
    } else if c == 'N' {
        Piece::WhiteKnight
    } else if c == 'B' {
        Piece::WhiteBishop
    } else if c == 'R' {
        Piece::WhiteRook
    } else if c == 'Q' {
        Piece::WhiteQueen
    } else if c == 'K' {
        Piece::WhiteKing
    } else if c == 'p' {
        Piece::BlackPawn
    } else if c == 'n' {
        Piece::BlackKnight
    } else if c == 'b' {
        Piece::BlackBishop
    } else if c == 'r' {
        Piece::BlackRook
    } else if c == 'q' {
        Piece::BlackQueen
    } else if c == 'k' {
        Piece::BlackKing
    } else {
        Piece::NoPiece
    }
}

/// The reading of the first `n` characters of a board field: the current rank (starting at 7),
/// the current file, and the pieces found with their squares (`8 * rank + file`).
/// A '/' steps down a rank and back to the first file, a digit skips that many files, any
/// other character takes one file and, if it names a piece, places it there.
pub open spec fn board_upto(b: Seq<char>, n: nat) -> (int, int, Seq<(Piece, usize)>)
    decreases n,
{
    if n == 0 {
        (7, 0, Seq::empty())
    } else {
        let prev = board_upto(b, (n - 1) as nat);
        let c = b[n - 1];
        if c == '/' {
            (prev.0 - 1, 0, prev.2)
        } else if '1' <= c <= '8' {
            (prev.0, prev.1 + (c as int - 48), prev.2)
        } else if piece_of_char(c) != Piece::NoPiece {
            (prev.0, prev.1 + 1, prev.2.push((piece_of_char(c), (prev.0 * 8 + prev.1) as usize)))
        } else {
            (prev.0, prev.1 + 1, prev.2)
        }
    }
}

/// The pieces of a board field with their squares, in the order the field lists them.
pub open spec fn board_pieces(b: Seq<char>) -> Seq<(Piece, usize)> {
    board_upto(b, b.len()).2
}

/// Whether every piece letter of the board field stands on a rank at or above the first.
pub open spec fn pieces_on_board(b: Seq<char>) -> bool {
    forall|k: int|
        0 <= k < b.len() && piece_of_char(#[trigger] b[k]) != Piece::NoPiece ==> board_upto(b, k as nat).0 >= 0
}

/// The number that a run of decimal digits spells.
pub open spec fn digits_value(d: Seq<char>) -> int
    decreases d.len(),
{
    if d.len() == 0 {
        0
    } else {
        digits_value(d.drop_last()) * 10 + (d.last() as int - 48)
    }
}

/// Whether every character of `d` is a decimal digit.
pub open spec fn all_digits(d: Seq<char>) -> bool {
    forall|k: int| 0 <= k < d.len() ==> '0' <= #[trigger] d[k] <= '9'
}

/// std's reading of a decimal `i32`: an optional '+' or '-', then one or more digits, whose
/// value must fit in an `i32`; `None` for anything else.
pub open spec fn parsed_i32(t: Seq<char>) -> Option<i32> {
    let signed = t.len() > 0 && (t[0] == '-' || t[0] == '+');
    let d = if signed { t.drop_first() } else { t };
    let v = if signed && t[0] == '-' { -digits_value(d) } else { digits_value(d) };
    if d.len() > 0 && all_digits(d) && i32::MIN <= v <= i32::MAX {
        Some(v as i32)
    } else {
        None
    }
}

/// The side to move of a position with these fields: White unless the second field is there
/// and is something other than "w".
pub open spec fn fen_side(f: Seq<Seq<char>>) -> Color {
    if f.len() > 1 && f[1] != seq!['w'] {
        Color::Black
    } else {
        Color::White
    }
}

/// The halfmove clock of a position with these fields: the fifth field read as an `i32`, or 0
/// where it is missing or does not read as one.
pub open spec fn fen_rule50(f: Seq<Seq<char>>) -> i32 {
    if f.len() > 4 {
        match parsed_i32(f[4]) {
            Some(v) => v,
            None => 0,
        }
    } else {
        0
    }
}

fn is_space_char(c: char) -> (r: bool)
    ensures
        r == is_space(c),
{
    ('\u{9}' <= c && c <= '\u{d}') || c == ' ' || c == '\u{85}' || c == '\u{a0}' || c == '\u{1680}' || ('\u{2000}'
        <= c && c <= '\u{200a}') || c == '\u{2028}' || c == '\u{2029}' || c == '\u{202f}' || c == '\u{205f}' || c
        == '\u{3000}'
}

/// Splits `text` into its white-space separated fields.
fn split_fields(text: &str) -> (r: Vec<Vec<char>>)
    ensures
        r@.len() == fields(text@).len(),
        forall|k: int| 0 <= k < r@.len() ==> (#[trigger] r@[k])@ == fields(text@)[k],
{
    let n = text.unicode_len();
    let mut done: Vec<Vec<char>> = Vec::new();
    let mut open: Vec<char> = Vec::new();
    let mut i: usize = 0;
    while i < n
        invariant
            i <= n,
            n == text@.len(),
            done@.len() == fields_upto(text@, i as nat).0.len(),
            forall|k: int| 0 <= k < done@.len() ==> (#[trigger] done@[k])@ == fields_upto(text@, i as nat).0[k],
            open@ == fields_upto(text@, i as nat).1,
        decreases n - i,
    {
        let c = text.get_char(i);
        let ghost prev = fields_upto(text@, i as nat);
        assert(fields_upto(text@, (i + 1) as nat) == (if is_space(c) {
            if prev.1.len() > 0 { (prev.0.push(prev.1), Seq::<char>::empty()) } else { prev }
        } else {
            (prev.0, prev.1.push(c))
        }));
        if is_space_char(c) {
            if open.len() > 0 {
                done.push(open);
                open = Vec::new();
            }
        } else {
            open.push(c);
        }
        i = i + 1;
    }
    if open.len() > 0 {
        done.push(open);
    }
    done
}

fn char_to_piece(c: char) -> (r: Piece)
    ensures
        r == piece_of_char(c),
{
    if c == 'P' {
        Piece::WhitePawn
    } else if c == 'N' {
        Piece::WhiteKnight
    } else if c == 'B' {
        Piece::WhiteBishop
    } else if c == 'R' {
        Piece::WhiteRook
    } else if c == 'Q' {
        Piece::WhiteQueen
    } else if c == 'K' {
        Piece::WhiteKing
    } else if c == 'p' {
        Piece::BlackPawn
    } else if c == 'n' {
        Piece::BlackKnight
    } else if c == 'b' {
        Piece::BlackBishop
    } else if c == 'r' {
        Piece::BlackRook
    } else if c == 'q' {
        Piece::BlackQueen
    } else if c == 'k' {
        Piece::BlackKing
    } else {
        Piece::NoPiece
    }
}


/// The value of a decimal digit character.
fn digit_value(c: char) -> (r: i64)
    requires
        '0' <= c <= '9',
    ensures
        r == c as int - 48,
{
    (c as u32 - 48) as i64
}

/// Reads `t` as std reads a decimal `i32`.
fn parse_i32_field(t: &Vec<char>) -> (r: Option<i32>)
    ensures
        r == parsed_i32(t@),
{
    let len = t.len();
    let signed = len > 0 && (t[0] == '-' || t[0] == '+');
    let negative = len > 0 && t[0] == '-';
    let start: usize = if signed { 1 } else { 0 };
    let ghost d = if signed { t@.drop_first() } else { t@ };
    assert(d =~= t@.subrange(start as int, len as int));
    if start == len {
        return None;
    }
    // `acc` is the value of the digits read so far, held at `CAP` once it reaches it.
    let cap: i64 = 0x1_0000_0000;
    let mut acc: i64 = 0;
    let mut i: usize = start;
    while i < len
        invariant
            start <= i <= len,
            len == t@.len(),
            d == t@.subrange(start as int, len as int),
            d == (if signed { t@.drop_first() } else { t@ }),
            signed == (len > 0 && (t@[0] == '-' || t@[0] == '+')),
            cap == 0x1_0000_0000,
            all_digits(t@.subrange(start as int, i as int)),
            acc == (if digits_value(t@.subrange(start as int, i as int)) < cap {
                digits_value(t@.subrange(start as int, i as int))
            } else {
                cap as int
            }),
            digits_value(t@.subrange(start as int, i as int)) >= 0,
        decreases len - i,
    {
        let c = t[i];
        let ghost prefix = t@.subrange(start as int, i as int);
        let ghost next = t@.subrange(start as int, i + 1);
        assert(next.drop_last() =~= prefix);
        if !('0' <= c && c <= '9') {
            assert(!all_digits(d)) by {
                assert(d[i - start] == c);
            }
            return None;
        }
        let v = digit_value(c);
        if acc < cap {
            acc = acc * 10 + v;
            if acc > cap {
                acc = cap;
            }
        }
        assert(all_digits(next)) by {
            assert forall|k: int| 0 <= k < next.len() implies '0' <= #[trigger] next[k] <= '9' by {
                if k < prefix.len() {
                    assert(next[k] == prefix[k]);
                }
            }
        }
        i = i + 1;
    }
    assert(t@.subrange(start as int, len as int) == d);
    if negative {
        if acc > 0x8000_0000 {
            None
        } else {
            Some((-acc) as i32)
        }
    } else {
        if acc > 0x7fff_ffff {
            None
        } else {
            Some(acc as i32)
        }
    }
}


/// A field is never longer than the text it was split from.
proof fn lemma_fields_short(s: Seq<char>, n: nat)
    requires
        n <= s.len(),
    ensures
        fields_upto(s, n).1.len() <= n,
        forall|k: int| 0 <= k < fields_upto(s, n).0.len() ==> (#[trigger] fields_upto(s, n).0[k]).len() <= n,
    decreases n,
{
    if n > 0 {
        lemma_fields_short(s, (n - 1) as nat);
    }
}

/// Places the pieces of a board field.
fn read_board(b: &Vec<char>) -> (r: Vec<(Piece, usize)>)
    requires
        pieces_on_board(b@),
        8 * b@.len() + 64 <= usize::MAX,
    ensures
        r@ == board_pieces(b@),
{
    let n = b.len();
    let mut rank: i64 = 7;
    let mut file: usize = 0;
    let mut pieces: Vec<(Piece, usize)> = Vec::new();
    let mut i: usize = 0;
    while i < n
        invariant
            i <= n,
            n == b@.len(),
            8 * n + 64 <= usize::MAX,
            pieces_on_board(b@),
            rank as int == board_upto(b@, i as nat).0,
            file as int == board_upto(b@, i as nat).1,
            pieces@ == board_upto(b@, i as nat).2,
            7 - i <= rank <= 7,
            file <= 8 * i,
        decreases n - i,
    {
        let c = b[i];
        if c == '/' {
            rank = rank - 1;
            file = 0;
        } else if '1' <= c && c <= '8' {
            file = file + digit_value(c) as usize;
        } else {
            let piece = char_to_piece(c);
            if piece != Piece::NoPiece {
                assert(rank >= 0) by {
                    assert(piece_of_char(b@[i as int]) != Piece::NoPiece);
                }
                let sq = (rank as usize) * 8 + file;
                pieces.push((piece, sq));
            }
            file = file + 1;
        }
        i = i + 1;
    }
    pieces
}

/// Reads a FEN string: the pieces of its board field with their squares (0 = a1, 63 = h8), in
/// the order the field lists them; the side to move (Black only where the second field is
/// there and is not "w"); and the halfmove clock (the fifth field as an `i32`, 0 where it is
/// missing or unreadable). The castling, en passant and fullmove fields are not read.
pub fn parse_fen(fen: &str) -> (r: (Vec<(Piece, usize)>, Color, i32))
    requires
        fields(fen@).len() > 0,
        pieces_on_board(fields(fen@)[0]),
        8 * fen@.len() + 64 <= usize::MAX,
    ensures
        r.0@ == board_pieces(fields(fen@)[0]),
        r.1 == fen_side(fields(fen@)),
        r.2 == fen_rule50(fields(fen@)),
{
    let parts = split_fields(fen);
    proof {
        lemma_fields_short(fen@, fen@.len());
        assert(parts@[0]@ == fields(fen@)[0]);
    }
    let pieces = read_board(&parts[0]);
    let side = if parts.len() > 1 && !(parts[1].len() == 1 && parts[1][0] == 'w') {
        proof {
            assert(parts@[1]@ == fields(fen@)[1]);
            if fields(fen@)[1] == seq!['w'] {
                assert(parts@[1]@.len() == 1 && parts@[1]@[0] == 'w');
            }
        }
        Color::Black
    } else {
        proof {
            if parts.len() > 1 {
                assert(parts@[1]@ == fields(fen@)[1]);
                assert(fields(fen@)[1] =~= seq!['w']);
            }
        }
        Color::White
    };
    let rule50 = if parts.len() > 4 {
        proof { assert(parts@[4]@ == fields(fen@)[4]); }
        match parse_i32_field(&parts[4]) {
            Some(v) => v,
            None => 0,
        }
    } else {
        0
    };
    (pieces, side, rule50)
}

} // verus!
