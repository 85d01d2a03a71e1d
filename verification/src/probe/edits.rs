//! Board edits: pieces taken off listed squares, then pieces put on listed squares.
use vstd::prelude::*;
use vstd::multiset::Multiset;
use crate::piece_list::board_list;
use crate::types::{piece_code, Piece};
use super::board::{Board, board_consistent, placed, kings_after, kind_of, side_of};
use super::tracking::lemma_board_list_count;

verus! {

/// The board after taking off the pieces on the squares of the first `n` listed pairs.
pub open spec fn removed_all(b: Seq<Piece>, list: Seq<(Piece, usize)>, n: int) -> Seq<Piece>
    decreases n,
{
    if n <= 0 { b } else { removed_all(b, list, n - 1).update(list[n - 1].1 as int, Piece::NoPiece) }
}

/// The board after putting the pieces of the first `n` listed pairs on their squares.
pub open spec fn added_all(b: Seq<Piece>, list: Seq<(Piece, usize)>, n: int) -> Seq<Piece>
    decreases n,
{
    if n <= 0 { b } else { placed(added_all(b, list, n - 1), list[n - 1].0, list[n - 1].1 as int) }
}

/// The king squares after putting the pieces of the first `n` listed pairs on their squares.
pub open spec fn kings_all(k: Seq<usize>, list: Seq<(Piece, usize)>, n: int) -> Seq<usize>
    decreases n,
{
    if n <= 0 { k } else { kings_after(kings_all(k, list, n - 1), list[n - 1].0, list[n - 1].1) }
}

/// The board after an edit: the removals, then the additions.
pub open spec fn edited(b: Seq<Piece>, removed: Seq<(Piece, usize)>, added: Seq<(Piece, usize)>) -> Seq<Piece> {
    added_all(removed_all(b, removed, removed.len() as int), added, added.len() as int)
}

/// The listed pieces as `(square, piece code)` pairs.
pub open spec fn coded(list: Seq<(Piece, usize)>) -> Seq<(usize, usize)> {
    Seq::new(list.len(), |i: int| (list[i].1, piece_code(list[i].0)))
}

/// Some listed pair stands on square `s`.
pub open spec fn lists_square(list: Seq<(Piece, usize)>, s: int) -> bool {
    exists|k: int| 0 <= k < list.len() && #[trigger] list[k].1 == s
}

/// The listed pieces are pieces on distinct squares of the board.
pub open spec fn distinct_pieces(list: Seq<(Piece, usize)>) -> bool {
    &&& forall|i: int| 0 <= i < list.len() ==> (#[trigger] list[i]).1 < 64 && list[i].0 != Piece::NoPiece
    &&& forall|i: int, j: int| 0 <= i < j < list.len() ==> (#[trigger] list[i]).1 != (#[trigger] list[j]).1
}

/// An edit that fits the board: each removed piece stands where it is listed, and each added
/// piece goes to a square that is empty once the removals are done.
pub open spec fn edit_ok(b: Seq<Piece>, removed: Seq<(Piece, usize)>, added: Seq<(Piece, usize)>) -> bool {
    &&& b.len() == 64
    &&& distinct_pieces(removed)
    &&& distinct_pieces(added)
    &&& forall|i: int| 0 <= i < removed.len() ==> b[(#[trigger] removed[i]).1 as int] == removed[i].0
    &&& forall|i: int| 0 <= i < added.len() ==> b[(#[trigger] added[i]).1 as int] == Piece::NoPiece
        || lists_square(removed, added[i].1 as int)
}

/// A square is empty after the removals exactly when it was empty or listed.
pub proof fn lemma_removed_all_at(b: Seq<Piece>, list: Seq<(Piece, usize)>, n: int, s: int)
    requires
        0 <= n <= list.len(),
        0 <= s < b.len(),
        forall|i: int| 0 <= i < n ==> (#[trigger] list[i]).1 < b.len(),
    ensures
        removed_all(b, list, n).len() == b.len(),
        removed_all(b, list, n)[s] == (if exists|k: int| 0 <= k < n && #[trigger] list[k].1 == s { Piece::NoPiece } else { b[s] }),
    decreases n,
{
    if n > 0 {
        lemma_removed_all_at(b, list, n - 1, s);
        if list[n - 1].1 as int != s {
            if exists|k: int| 0 <= k < n && #[trigger] list[k].1 == s {
                let k = choose|k: int| 0 <= k < n && #[trigger] list[k].1 == s;
                assert(k < n - 1);
            }
        }
    }
}

/// After the additions, a listed square holds its listed piece and an unlisted one is unchanged.
pub proof fn lemma_added_all_at(b: Seq<Piece>, list: Seq<(Piece, usize)>, n: int, s: int)
    requires
        0 <= n <= list.len(),
        0 <= s < b.len(),
        forall|i: int| 0 <= i < n ==> (#[trigger] list[i]).1 < b.len() && list[i].0 != Piece::NoPiece,
        forall|i: int, j: int| 0 <= i < j < n ==> (#[trigger] list[i]).1 != (#[trigger] list[j]).1,
    ensures
        added_all(b, list, n).len() == b.len(),
        forall|k: int| 0 <= k < n && list[k].1 == s ==> added_all(b, list, n)[s] == #[trigger] list[k].0,
        (forall|k: int| 0 <= k < n ==> #[trigger] list[k].1 != s) ==> added_all(b, list, n)[s] == b[s],
    decreases n,
{
    if n > 0 {
        lemma_added_all_at(b, list, n - 1, s);
    }
}

/// The king squares change only where a king is added.
pub proof fn lemma_kings_all(k: Seq<usize>, list: Seq<(Piece, usize)>, n: int, p: int)
    requires
        0 <= n <= list.len(),
        0 <= p < 2,
        k.len() == 2,
        forall|i: int| 0 <= i < n ==> !(kind_of(#[trigger] list[i].0) == 6 && side_of(list[i].0) == p),
    ensures
        kings_all(k, list, n).len() == 2,
        kings_all(k, list, n)[p] == k[p],
    decreases n,
{
    if n > 0 {
        lemma_kings_all(k, list, n - 1, p);
        let x = list[n - 1].0;
        if kind_of(x) == 6 {
            assert(side_of(x) == 0 || side_of(x) == 1);
        }
    }
}

/// How often the coded pairs of distinct pieces name `(v, c)`.
pub proof fn lemma_coded_count(list: Seq<(Piece, usize)>, v: (usize, usize))
    requires
        forall|i: int, j: int| 0 <= i < j < list.len() ==> (#[trigger] list[i]).1 != (#[trigger] list[j]).1,
    ensures
        forall|k: int| 0 <= k < list.len() && list[k].1 == v.0 ==> coded(list).to_multiset().count(v)
            == (if piece_code(#[trigger] list[k].0) == v.1 { 1nat } else { 0nat }),
        !lists_square(list, v.0 as int) ==> coded(list).to_multiset().count(v) == 0,
    decreases list.len(),
{
    broadcast use vstd::seq_lib::group_to_multiset_ensures;
    broadcast use vstd::multiset::group_multiset_axioms;
    if list.len() == 0 {
        assert(coded(list) =~= Seq::<(usize, usize)>::empty());
        assert(Seq::<(usize, usize)>::empty().to_multiset() =~= Multiset::empty());
    } else {
        let front = list.drop_last();
        lemma_coded_count(front, v);
        let x = (list.last().1, piece_code(list.last().0));
        assert(coded(list) =~= coded(front).push(x));
        assert(coded(front).push(x).to_multiset() =~= coded(front).to_multiset().insert(x));
        assert forall|k: int| 0 <= k < list.len() && list[k].1 == v.0 implies coded(list).to_multiset().count(v)
            == (if piece_code(#[trigger] list[k].0) == v.1 { 1nat } else { 0nat }) by {
            if k < list.len() - 1 {
                assert(front[k] == list[k]);
                assert(list[k].1 != list[list.len() - 1].1);
            }
        }
        if !lists_square(list, v.0 as int) {
            assert(list[list.len() - 1].1 != v.0);
            assert forall|k: int| 0 <= k < front.len() implies #[trigger] front[k].1 != v.0 by {
                assert(front[k] == list[k]);
            }
        }
    }
}

/// A fitting edit changes the pieces of the board by the removed and the added pieces:
/// the old pieces with the added ones are the new pieces with the removed ones.
pub proof fn lemma_edit_exchange(b: Seq<Piece>, removed: Seq<(Piece, usize)>, added: Seq<(Piece, usize)>)
    requires
        edit_ok(b, removed, added),
    ensures
        edited(b, removed, added).len() == 64,
        (board_list(b, 64) + coded(added)).to_multiset() == (board_list(edited(b, removed, added), 64) + coded(removed)).to_multiset(),
{
    broadcast use vstd::multiset::group_multiset_axioms;
    let r = removed_all(b, removed, removed.len() as int);
    let nb = edited(b, removed, added);
    assert forall|s: int| 0 <= s < 64 implies r.len() == 64 && #[trigger] r[s] == (if lists_square(removed, s) { Piece::NoPiece } else { b[s] }) by {
        lemma_removed_all_at(b, removed, removed.len() as int, s);
    }
    lemma_removed_all_at(b, removed, removed.len() as int, 0);
    lemma_added_all_at(r, added, added.len() as int, 0);
    vstd::seq_lib::lemma_multiset_commutative(board_list(b, 64), coded(added));
    vstd::seq_lib::lemma_multiset_commutative(board_list(nb, 64), coded(removed));
    assert forall|v: (usize, usize)| #![trigger (board_list(b, 64) + coded(added)).to_multiset().count(v)]
        (board_list(b, 64) + coded(added)).to_multiset().count(v) == (board_list(nb, 64) + coded(removed)).to_multiset().count(v) by {
        lemma_board_list_count(b, 64, v);
        lemma_board_list_count(nb, 64, v);
        lemma_coded_count(added, v);
        lemma_coded_count(removed, v);
        let s = v.0 as int;
        if s < 64 {
            lemma_added_all_at(r, added, added.len() as int, s);
            if lists_square(added, s) {
                let k = choose|k: int| 0 <= k < added.len() && #[trigger] added[k].1 == s;
                assert(nb[s] == added[k].0);
                if lists_square(removed, s) {
                    let m = choose|m: int| 0 <= m < removed.len() && #[trigger] removed[m].1 == s;
                    assert(b[s] == removed[m].0);
                } else {
                    assert(b[s] == Piece::NoPiece);
                }
            } else {
                assert forall|k: int| 0 <= k < added.len() implies #[trigger] added[k].1 != s by {}
                assert(nb[s] == r[s]);
                if lists_square(removed, s) {
                    let m = choose|m: int| 0 <= m < removed.len() && #[trigger] removed[m].1 == s;
                    assert(b[s] == removed[m].0);
                }
            }
        } else {
            if lists_square(added, s) {
                let k = choose|k: int| 0 <= k < added.len() && #[trigger] added[k].1 == s;
            }
            if lists_square(removed, s) {
                let m = choose|m: int| 0 <= m < removed.len() && #[trigger] removed[m].1 == s;
            }
        }
    }
    assert((board_list(b, 64) + coded(added)).to_multiset() =~= (board_list(nb, 64) + coded(removed)).to_multiset());
}

/// Some listed piece is a king.
pub open spec fn lists_king(list: Seq<(Piece, usize)>) -> bool {
    exists|i: int| 0 <= i < list.len() && kind_of(#[trigger] list[i].0) == 6
}

impl Board {
    /// Takes off the pieces on the listed squares, in order.
    pub fn remove_listed(&mut self, list: &[(Piece, usize)])
        requires
            board_consistent(old(self)),
            forall|i: int| 0 <= i < list@.len() ==> (#[trigger] list@[i]).1 < 64,
        ensures
            board_consistent(final(self)),
            final(self).pieces@ == removed_all(old(self).pieces@, list@, list@.len() as int),
            final(self).king_squares == old(self).king_squares,
    {
        let mut i: usize = 0;
        while i < list.len()
            invariant
                i <= list@.len(),
                forall|k: int| 0 <= k < list@.len() ==> (#[trigger] list@[k]).1 < 64,
                board_consistent(self),
                self.pieces@ == removed_all(old(self).pieces@, list@, i as int),
                self.king_squares == old(self).king_squares,
            decreases list@.len() - i,
        {
            let (_, square) = list[i];
            self.remove_piece(square);
            i += 1;
        }
    }

    /// Puts the listed pieces on their squares, in order.
    pub fn add_listed(&mut self, list: &[(Piece, usize)])
        requires
            board_consistent(old(self)),
            forall|i: int| 0 <= i < list@.len() ==> (#[trigger] list@[i]).1 < 64,
        ensures
            board_consistent(final(self)),
            final(self).pieces@ == added_all(old(self).pieces@, list@, list@.len() as int),
            final(self).king_squares@ == kings_all(old(self).king_squares@, list@, list@.len() as int),
    {
        let mut i: usize = 0;
        while i < list.len()
            invariant
                i <= list@.len(),
                forall|k: int| 0 <= k < list@.len() ==> (#[trigger] list@[k]).1 < 64,
                board_consistent(self),
                self.pieces@ == added_all(old(self).pieces@, list@, i as int),
                self.king_squares@ == kings_all(old(self).king_squares@, list@, i as int),
            decreases list@.len() - i,
        {
            let (piece, square) = list[i];
            self.add_piece(piece, square);
            i += 1;
        }
    }
}

} // verus!
