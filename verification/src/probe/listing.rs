//! Boards given as listings of their pieces: setting a probe to a listing of a board rebuilds
//! that board, and a probe that reached the board by moves scores as one set to it afresh.
use vstd::prelude::*;
use super::NNUEProbe;
use super::board::{empty_board, kind_of, kings_after, placed, side_of};
use super::edits::{added_all, kings_all, distinct_pieces, lists_square, lemma_added_all_at};
use super::evaluate::lemma_score_depends_on_position;
use super::takeback::{lemma_kings_len, lemma_kings_value};
use crate::network::alike::nets_alike;
use crate::types::{Color, Piece};

verus! {

/// Each side has exactly one king on the board, side `c`'s on square `k[c]`.
pub open spec fn kings_placed(b: Seq<Piece>, k: Seq<usize>) -> bool {
    &&& b.len() == 64
    &&& k.len() == 2
    &&& forall|c: int| 0 <= c < 2 ==> #[trigger] k[c] < 64 && kind_of(b[k[c] as int]) == 6 && side_of(b[k[c] as int]) == c
    &&& forall|s: int| 0 <= s < 64 && kind_of(#[trigger] b[s]) == 6 ==> s == k[side_of(b[s])]
}

/// `list` lists the pieces of `b`: each listed piece stands on its square, no square is listed
/// twice, and every occupied square is listed.
pub open spec fn lists_board(list: Seq<(Piece, usize)>, b: Seq<Piece>) -> bool {
    &&& b.len() == 64
    &&& distinct_pieces(list)
    &&& forall|i: int| 0 <= i < list.len() ==> b[(#[trigger] list[i]).1 as int] == list[i].0
    &&& forall|s: int| 0 <= s < 64 && #[trigger] b[s] != Piece::NoPiece ==> lists_square(list, s)
}

/// Putting the pieces of a listing of a board on an empty board gives that board back, and with
/// one king per side the recorded king squares are where the kings stand.
pub proof fn lemma_listing_rebuilds(b: Seq<Piece>, k: Seq<usize>, list: Seq<(Piece, usize)>)
    requires
        lists_board(list, b),
        kings_placed(b, k),
    ensures
        added_all(empty_board(), list, list.len() as int) == b,
        kings_all(seq![0usize, 0usize], list, list.len() as int) == k,
{
    let n = list.len() as int;
    let e = empty_board();
    let built = added_all(e, list, n);
    assert forall|s: int| 0 <= s < 64 implies #[trigger] built[s] == b[s] by {
        lemma_added_all_at(e, list, n, s);
        if lists_square(list, s) {
            let j = choose|j: int| 0 <= j < list.len() && #[trigger] list[j].1 == s;
            assert(built[s] == list[j].0);
        } else {
            assert forall|j: int| 0 <= j < n implies #[trigger] list[j].1 != s by {
                if list[j].1 == s {
                    assert(lists_square(list, s));
                }
            }
        }
    }
    lemma_added_all_at(e, list, n, 0);
    assert(built =~= b);
    let k0 = seq![0usize, 0usize];
    assert forall|p: int| 0 <= p < 2 implies #[trigger] kings_all(k0, list, n)[p] == k[p] by {
        assert(k[p] < 64);
        assert forall|i: int| 0 <= i < n && kind_of(#[trigger] list[i].0) == 6 && side_of(list[i].0) == p
            implies list[i].1 == k[p] by {
            assert(b[list[i].1 as int] == list[i].0);
        }
        lemma_kings_value(k0, list, n, p, k[p]);
        assert(b[k[p] as int] != Piece::NoPiece);
        assert(lists_square(list, k[p] as int));
        let j = choose|j: int| 0 <= j < list.len() && #[trigger] list[j].1 == k[p] as int;
        assert(b[list[j].1 as int] == list[j].0);
        assert(0 <= j < n && kind_of(list[j].0) == 6 && side_of(list[j].0) == p);
    }
    lemma_kings_len(k0, list, n);
    assert(kings_all(k0, list, n) =~= k);
}

/// A move keeps one king per side on the recorded squares: the piece moves to another square
/// that holds no king, and a king only moves as itself (no piece turns into a king, no king into
/// another piece).
pub proof fn lemma_move_keeps_kings(b: Seq<Piece>, k: Seq<usize>, from_sq: usize, to_sq: usize, piece: Piece)
    requires
        kings_placed(b, k),
        from_sq < 64,
        to_sq < 64,
        from_sq != to_sq,
        piece != Piece::NoPiece,
        kind_of(b[to_sq as int]) != 6,
        kind_of(piece) == 6 || kind_of(b[from_sq as int]) == 6 ==> piece == b[from_sq as int],
    ensures
        kings_placed(placed(b.update(from_sq as int, Piece::NoPiece), piece, to_sq as int), kings_after(k, piece, to_sq)),
{
    let f = from_sq as int;
    let t = to_sq as int;
    let nb = placed(b.update(f, Piece::NoPiece), piece, t);
    let nk = kings_after(k, piece, to_sq);
    assert(nb == b.update(f, Piece::NoPiece).update(t, piece));
    assert(kind_of(Piece::NoPiece) != 6);
    if kind_of(piece) == 6 {
        let c = side_of(piece);
        assert(c == 0 || c == 1);
        assert(f == k[c]);
        assert forall|d: int| 0 <= d < 2 implies #[trigger] nk[d] < 64 && kind_of(nb[nk[d] as int]) == 6
            && side_of(nb[nk[d] as int]) == d by {
            if d != c {
                assert(k[d] < 64 && kind_of(b[k[d] as int]) == 6 && side_of(b[k[d] as int]) == d);
                assert(k[c] < 64 && kind_of(b[k[c] as int]) == 6 && side_of(b[k[c] as int]) == c);
                assert(k[d] as int != f);
                assert(k[d] as int != t);
            }
        }
        assert forall|s: int| 0 <= s < 64 && kind_of(#[trigger] nb[s]) == 6 implies s == nk[side_of(nb[s])] by {
            if s != t {
                assert(s != f);
                assert(nb[s] == b[s]);
                let d = side_of(b[s]);
                assert(d == 0 || d == 1);
                assert(s == k[d]);
                if d == c {
                    assert(s == f);
                }
            }
        }
    } else {
        assert(kind_of(b[f]) != 6);
        assert(nk == k);
        assert forall|d: int| 0 <= d < 2 implies #[trigger] nk[d] < 64 && kind_of(nb[nk[d] as int]) == 6
            && side_of(nb[nk[d] as int]) == d by {
            assert(k[d] < 64 && kind_of(b[k[d] as int]) == 6 && side_of(b[k[d] as int]) == d);
            assert(k[d] as int != f);
            assert(k[d] as int != t);
        }
        assert forall|s: int| 0 <= s < 64 && kind_of(#[trigger] nb[s]) == 6 implies s == nk[side_of(nb[s])] by {
            assert(s != t);
            assert(s != f);
            assert(nb[s] == b[s]);
        }
    }
}

/// A probe in step with its plies scores as a probe set afresh to a listing of its board:
/// with networks holding the same parameters, one king per side on the recorded squares and the
/// same rule-50 counter, the probe `q` that `set_position` left from the listing `list` gives the
/// same score as `a`, however `a` reached its board.
pub proof fn lemma_score_matches_listing<'a, 'b>(a: &NNUEProbe<'a>, q: &NNUEProbe<'b>, list: Seq<(Piece, usize)>,
    side_to_move: Color)
    requires
        a.wf(),
        a.synced(),
        q.wf(),
        q.synced(),
        nets_alike(a.nets(), q.nets()),
        lists_board(list, a.current().pieces@),
        kings_placed(a.current().pieces@, a.current().king_squares@),
        q.current().pieces@ == added_all(empty_board(), list, list.len() as int),
        q.current().king_squares@ == kings_all(seq![0usize, 0usize], list, list.len() as int),
        q.latest().rule50 == a.latest().rule50,
    ensures
        a.score(side_to_move) == q.score(side_to_move),
{
    lemma_listing_rebuilds(a.current().pieces@, a.current().king_squares@, list);
    lemma_score_depends_on_position(a, q, side_to_move);
}

} // verus!
