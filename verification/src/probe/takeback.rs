//! Taking back a delta right after applying it gives the position, the ply and the score back.
use vstd::prelude::*;
use super::NNUEProbe;
use super::board::{board_consistent, kings_after, kind_of, side_of, placed};
use super::edits::{added_all, removed_all, kings_all, edited, edit_ok, distinct_pieces, lists_square,
    lemma_added_all_at, lemma_removed_all_at};
use super::moves::{change_additions, change_removals, additions_from_back, removals_from_back, lists_king_of, rule50_after_move};
use crate::delta::{DeltaChange, MoveDelta};
use crate::types::{Color, Piece};

verus! {

/// The removals of a list that starts with `c`: those of `c`, then those of the rest.
proof fn lemma_removals_front(c: DeltaChange, rest: Seq<DeltaChange>)
    ensures
        change_removals(seq![c] + rest) == (if c.piece_from != Piece::NoPiece { seq![(c.piece_from, c.from)] } else {
            Seq::<(Piece, usize)>::empty() }) + change_removals(rest),
        change_additions(seq![c] + rest) == (if c.piece_to != Piece::NoPiece { seq![(c.piece_to, c.to)] } else {
            Seq::<(Piece, usize)>::empty() }) + change_additions(rest),
    decreases rest.len(),
{
    let s = seq![c] + rest;
    if rest.len() == 0 {
        assert(s.drop_last() =~= Seq::<DeltaChange>::empty());
        assert(rest =~= Seq::<DeltaChange>::empty());
        assert(s.last() == c);
        assert(change_removals(s.drop_last()) =~= Seq::<(Piece, usize)>::empty());
        assert(change_additions(s.drop_last()) =~= Seq::<(Piece, usize)>::empty());
        assert(change_removals(rest) =~= Seq::<(Piece, usize)>::empty());
        assert(change_additions(rest) =~= Seq::<(Piece, usize)>::empty());
        assert(change_removals(s) =~= (if c.piece_from != Piece::NoPiece { seq![(c.piece_from, c.from)] } else {
            Seq::<(Piece, usize)>::empty() }) + change_removals(rest));
        assert(change_additions(s) =~= (if c.piece_to != Piece::NoPiece { seq![(c.piece_to, c.to)] } else {
            Seq::<(Piece, usize)>::empty() }) + change_additions(rest));
    } else {
        assert(s.drop_last() =~= seq![c] + rest.drop_last());
        assert(s.last() == rest.last());
        lemma_removals_front(c, rest.drop_last());
        let fr = if c.piece_from != Piece::NoPiece { seq![(c.piece_from, c.from)] } else { Seq::<(Piece, usize)>::empty() };
        let fa = if c.piece_to != Piece::NoPiece { seq![(c.piece_to, c.to)] } else { Seq::<(Piece, usize)>::empty() };
        if rest.last().piece_from != Piece::NoPiece {
            assert((fr + change_removals(rest.drop_last())).push((rest.last().piece_from, rest.last().from))
                =~= fr + change_removals(rest.drop_last()).push((rest.last().piece_from, rest.last().from)));
        }
        if rest.last().piece_to != Piece::NoPiece {
            assert((fa + change_additions(rest.drop_last())).push((rest.last().piece_to, rest.last().to))
                =~= fa + change_additions(rest.drop_last()).push((rest.last().piece_to, rest.last().to)));
        }
    }
}

/// Taking changes from the back lists the removals and additions in reverse order.
proof fn lemma_from_back(cl: Seq<DeltaChange>, i: int)
    requires
        0 <= i <= cl.len(),
    ensures
        removals_from_back(cl, i) == change_removals(cl.subrange(i, cl.len() as int)).reverse(),
        additions_from_back(cl, i) == change_additions(cl.subrange(i, cl.len() as int)).reverse(),
    decreases cl.len() - i,
{
    if i == cl.len() {
        assert(cl.subrange(i, cl.len() as int) =~= Seq::<DeltaChange>::empty());
        assert(change_removals(Seq::<DeltaChange>::empty()).reverse() =~= Seq::<(Piece, usize)>::empty());
        assert(change_additions(Seq::<DeltaChange>::empty()).reverse() =~= Seq::<(Piece, usize)>::empty());
    } else {
        lemma_from_back(cl, i + 1);
        let rest = cl.subrange(i + 1, cl.len() as int);
        let c = cl[i];
        assert(cl.subrange(i, cl.len() as int) =~= seq![c] + rest);
        lemma_removals_front(c, rest);
        let rr = change_removals(rest);
        let ra = change_additions(rest);
        if c.piece_from != Piece::NoPiece {
            assert((seq![(c.piece_from, c.from)] + rr).reverse() =~= rr.reverse().push((c.piece_from, c.from)));
        } else {
            assert(Seq::<(Piece, usize)>::empty() + rr =~= rr);
        }
        if c.piece_to != Piece::NoPiece {
            assert((seq![(c.piece_to, c.to)] + ra).reverse() =~= ra.reverse().push((c.piece_to, c.to)));
        } else {
            assert(Seq::<(Piece, usize)>::empty() + ra =~= ra);
        }
    }
}

/// Undoing a delta takes its additions off and puts its removals back, each in reverse order.
pub proof fn lemma_from_back_reverses(cl: Seq<DeltaChange>)
    ensures
        removals_from_back(cl, 0) == change_removals(cl).reverse(),
        additions_from_back(cl, 0) == change_additions(cl).reverse(),
{
    lemma_from_back(cl, 0);
    assert(cl.subrange(0, cl.len() as int) =~= cl);
}

/// A list in reverse order lists the same pieces on distinct squares.
proof fn lemma_reverse_distinct(list: Seq<(Piece, usize)>)
    requires
        distinct_pieces(list),
    ensures
        distinct_pieces(list.reverse()),
        list.reverse().len() == list.len(),
        forall|k: int| 0 <= k < list.len() ==> #[trigger] list.reverse()[k] == list[list.len() - 1 - k],
{
    let r = list.reverse();
    let n = list.len();
    assert(r.len() == n);
    assert forall|k: int| 0 <= k < n implies #[trigger] r[k] == list[n - 1 - k] by {}
    assert forall|i: int| 0 <= i < n implies (#[trigger] r[i]).1 < 64 && r[i].0 != Piece::NoPiece by {
        assert(r[i] == list[n - 1 - i]);
    }
    assert forall|i: int, j: int| 0 <= i < j < n implies (#[trigger] r[i]).1 != (#[trigger] r[j]).1 by {
        assert(r[i] == list[n - 1 - i]);
        assert(r[j] == list[n - 1 - j]);
    }
}

/// Taking off the additions of an edit that fits the board, then putting its removals back,
/// each in reverse order, gives the board back.
pub proof fn lemma_edit_undo(b: Seq<Piece>, removed: Seq<(Piece, usize)>, added: Seq<(Piece, usize)>)
    requires
        edit_ok(b, removed, added),
    ensures
        edited(edited(b, removed, added), added.reverse(), removed.reverse()) == b,
{
    let nr = removed.len() as int;
    let na = added.len() as int;
    let rr = removed.reverse();
    let ar = added.reverse();
    lemma_reverse_distinct(removed);
    lemma_reverse_distinct(added);
    let e0 = removed_all(b, removed, nr);
    let e = added_all(e0, added, na);
    let e1 = removed_all(e, ar, na);
    let f = added_all(e1, rr, nr);
    assert forall|s: int| 0 <= s < 64 implies #[trigger] f[s] == b[s] by {
        lemma_removed_all_at(b, removed, nr, s);
        lemma_added_all_at(e0, added, na, s);
        lemma_removed_all_at(e, ar, na, s);
        lemma_added_all_at(e1, rr, nr, s);
        if exists|k: int| 0 <= k < nr && #[trigger] rr[k].1 == s {
            let k = choose|k: int| 0 <= k < nr && #[trigger] rr[k].1 == s;
            assert(rr[k] == removed[nr - 1 - k]);
            assert(b[removed[nr - 1 - k].1 as int] == removed[nr - 1 - k].0);
        } else {
            assert forall|k: int| 0 <= k < nr implies #[trigger] removed[k].1 != s by {
                assert(rr[nr - 1 - k] == removed[k]);
            }
            if exists|k: int| 0 <= k < na && #[trigger] ar[k].1 == s {
                let k = choose|k: int| 0 <= k < na && #[trigger] ar[k].1 == s;
                let j = na - 1 - k;
                assert(ar[k] == added[j]);
                if lists_square(removed, added[j].1 as int) {
                    let q = choose|q: int| 0 <= q < removed.len() && #[trigger] removed[q].1 == added[j].1 as int;
                    assert(removed[q].1 != s);
                }
                assert(b[added[j].1 as int] == Piece::NoPiece);
            } else {
                assert forall|k: int| 0 <= k < na implies #[trigger] added[k].1 != s by {
                    assert(ar[na - 1 - k] == added[k]);
                }
            }
        }
    }
    lemma_removed_all_at(b, removed, nr, 0);
    lemma_added_all_at(e0, added, na, 0);
    lemma_removed_all_at(e, ar, na, 0);
    lemma_added_all_at(e1, rr, nr, 0);
    assert(f.len() == 64);
    assert(f =~= b);
}

/// The king squares come back when a delta is taken back: every king the delta takes away stands
/// on its side's king square, and a side whose king the delta puts down also has it taken away.
pub open spec fn kings_return(kings: Seq<usize>, removed: Seq<(Piece, usize)>, added: Seq<(Piece, usize)>) -> bool {
    &&& forall|i: int| 0 <= i < removed.len() && kind_of(#[trigger] removed[i].0) == 6 ==> removed[i].1
        == kings[side_of(removed[i].0)]
    &&& forall|p: int| 0 <= p < 2 && #[trigger] lists_king_of(added, p) ==> lists_king_of(removed, p)
}

/// The recorded square of side `p`'s king after a list of pieces is put down: `v` if the list
/// holds a king of that side, all of whose kings go to `v`; the old square otherwise.
pub(crate) proof fn lemma_kings_value(k: Seq<usize>, list: Seq<(Piece, usize)>, n: int, p: int, v: usize)
    requires
        0 <= n <= list.len(),
        0 <= p < 2,
        k.len() == 2,
        forall|i: int| 0 <= i < n && kind_of(#[trigger] list[i].0) == 6 && side_of(list[i].0) == p ==> list[i].1 == v,
    ensures
        kings_all(k, list, n).len() == 2,
        kings_all(k, list, n)[p] == (if exists|i: int| 0 <= i < n && kind_of(#[trigger] list[i].0) == 6 && side_of(list[i].0)
            == p { v } else { k[p] }),
    decreases n,
{
    if n > 0 {
        lemma_kings_value(k, list, n - 1, p, v);
        let x = list[n - 1].0;
        if kind_of(x) == 6 {
            assert(side_of(x) == 0 || side_of(x) == 1);
        }
        if exists|i: int| 0 <= i < n - 1 && kind_of(#[trigger] list[i].0) == 6 && side_of(list[i].0) == p {
            let i = choose|i: int| 0 <= i < n - 1 && kind_of(#[trigger] list[i].0) == 6 && side_of(list[i].0) == p;
            assert(0 <= i < n && kind_of(list[i].0) == 6 && side_of(list[i].0) == p);
        }
    }
}

/// Putting pieces down keeps two king squares.
pub(crate) proof fn lemma_kings_len(k: Seq<usize>, list: Seq<(Piece, usize)>, n: int)
    requires
        0 <= n <= list.len(),
        k.len() == 2,
    ensures
        kings_all(k, list, n).len() == 2,
    decreases n,
{
    if n > 0 {
        lemma_kings_len(k, list, n - 1);
        let x = list[n - 1].0;
        if kind_of(x) == 6 {
            assert(side_of(x) == 0 || side_of(x) == 1);
        }
    }
}

/// Taking off the additions and putting back the removals of a delta whose kings return gives
/// the king squares back.
pub proof fn lemma_kings_undo(k: Seq<usize>, removed: Seq<(Piece, usize)>, added: Seq<(Piece, usize)>)
    requires
        k.len() == 2,
        kings_return(k, removed, added),
    ensures
        kings_all(kings_all(k, added, added.len() as int), removed.reverse(), removed.len() as int) == k,
{
    let rr = removed.reverse();
    let nr = removed.len() as int;
    let mid = kings_all(k, added, added.len() as int);
    assert forall|p: int| 0 <= p < 2 implies #[trigger] kings_all(mid, rr, nr)[p] == k[p] by {
        assert forall|i: int| 0 <= i < nr && kind_of(#[trigger] rr[i].0) == 6 && side_of(rr[i].0) == p implies rr[i].1 == k[p] by {
            assert(rr[i] == removed[nr - 1 - i]);
        }
        lemma_kings_len(k, added, added.len() as int);
        if lists_king_of(removed, p) {
            let j = choose|j: int| 0 <= j < removed.len() && kind_of(#[trigger] removed[j].0) == 6 && side_of(removed[j].0) == p;
            assert(rr[nr - 1 - j] == removed[j]);
            lemma_kings_value(mid, rr, nr, p, k[p]);
        } else {
            assert(!lists_king_of(added, p));
            assert forall|i: int| 0 <= i < added.len() implies !(kind_of(#[trigger] added[i].0) == 6 && side_of(added[i].0) == p) by {}
            assert forall|i: int| 0 <= i < nr implies !(kind_of(#[trigger] rr[i].0) == 6 && side_of(rr[i].0) == p) by {
                assert(rr[i] == removed[nr - 1 - i]);
            }
            super::edits::lemma_kings_all(k, added, added.len() as int, p);
            super::edits::lemma_kings_all(mid, rr, nr, p);
        }
    }
    lemma_kings_len(k, added, added.len() as int);
    lemma_kings_len(mid, rr, nr);
    assert(kings_all(mid, rr, nr) =~= k);
}

/// Taking back a delta right after applying it restores everything the evaluation reads: for a
/// probe in step with its plies and a delta that fits its board, `apply_delta` followed by
/// `undo_delta` gives back the board, the current ply (rule-50 counter included) and the score;
/// where the delta's kings return, the king squares come back too and the probe is in step again.
pub proof fn lemma_undo_delta_restores<'a>(before: NNUEProbe<'a>, applied: NNUEProbe<'a>, undone: NNUEProbe<'a>,
    delta: MoveDelta, side: Color)
    requires
        before.wf(),
        before.synced(),
        edit_ok(before.current().pieces@, change_removals(delta.change_list()), change_additions(delta.change_list())),
        applied.wf(),
        applied.nets() == before.nets(),
        applied.current().pieces@ == edited(before.current().pieces@, change_removals(delta.change_list()),
            change_additions(delta.change_list())),
        applied.current().king_squares@ == kings_all(before.current().king_squares@, change_additions(delta.change_list()),
            change_additions(delta.change_list()).len() as int),
        applied.stack().depth() == before.stack().depth() + 1,
        applied.latest().rule50 == delta.rule50_after(),
        applied.positions() == before.positions().take(before.stack().depth()).push(
            (applied.current().pieces@, applied.current().king_squares@)),
        before.synced() && edit_ok(before.current().pieces@, change_removals(delta.change_list()),
            change_additions(delta.change_list())) ==> applied.synced() && forall|i: int| 0 <= i < before.stack().depth()
            ==> #[trigger] applied.stack().states()[i] == before.stack().states()[i],
        undone.wf(),
        undone.nets() == applied.nets(),
        undone.current().pieces@ == edited(applied.current().pieces@, additions_from_back(delta.change_list(), 0),
            removals_from_back(delta.change_list(), 0)),
        undone.current().king_squares@ == kings_all(applied.current().king_squares@, removals_from_back(delta.change_list(), 0),
            removals_from_back(delta.change_list(), 0).len() as int),
        undone.stack().states() == applied.stack().states(),
        undone.stack().depth() == (if applied.stack().depth() > 1 { applied.stack().depth() - 1 } else { 1 }),
        undone.positions() == applied.positions(),
        applied.plies_tracked() && undone.current().pieces@ == undone.positions()[undone.stack().depth() - 1].0
            && undone.current().king_squares@ == undone.positions()[undone.stack().depth() - 1].1 ==> undone.synced(),
    ensures
        undone.current().pieces@ == before.current().pieces@,
        undone.stack().depth() == before.stack().depth(),
        undone.latest() == before.latest(),
        undone.score(side) == before.score(side),
        kings_return(before.current().king_squares@, change_removals(delta.change_list()),
            change_additions(delta.change_list())) ==> undone.current().king_squares@ == before.current().king_squares@
            && undone.synced(),
{
    let cl = delta.change_list();
    let removed = change_removals(cl);
    let added = change_additions(cl);
    lemma_from_back_reverses(cl);
    lemma_edit_undo(before.current().pieces@, removed, added);
    if kings_return(before.current().king_squares@, removed, added) {
        lemma_kings_undo(before.current().king_squares@, removed, added);
    }
    let d = before.stack().depth();
    assert(undone.stack().depth() == d);
    assert(undone.positions()[d - 1] == before.positions()[d - 1]);
    assert(undone.latest() == before.latest());
    let bb = before.current();
    let bu = undone.current();
    assert(bu.pieces@ == bb.pieces@);
    assert(bu.piece_count == bb.piece_count);
    assert(bu.pawn_count[0] == bb.pawn_count[0] && bu.pawn_count[1] == bb.pawn_count[1]);
    assert(bu.non_pawn_material[0] == bb.non_pawn_material[0] && bu.non_pawn_material[1] == bb.non_pawn_material[1]);
}

/// Taking back a null move right after making it restores the current ply and the score: the
/// board never changes, and the ply below the null move is the one that was current.
pub proof fn lemma_unmake_null_move_restores<'a>(before: NNUEProbe<'a>, made: NNUEProbe<'a>, unmade: NNUEProbe<'a>,
    side: Color)
    requires
        before.wf(),
        before.synced(),
        made.wf(),
        made.nets() == before.nets(),
        made.current() == before.current(),
        made.stack().depth() == before.stack().depth() + 1,
        made.latest().rule50 == before.latest().rule50 + 1,
        made.positions() == before.positions().take(before.stack().depth()).push(
            (before.current().pieces@, before.current().king_squares@)),
        before.synced() ==> made.synced() && forall|i: int| 0 <= i < before.stack().depth()
            ==> #[trigger] made.stack().states()[i] == before.stack().states()[i],
        unmade.wf(),
        unmade.nets() == made.nets(),
        unmade.current() == made.current(),
        unmade.stack().states() == made.stack().states(),
        unmade.stack().depth() == (if made.stack().depth() > 1 { made.stack().depth() - 1 } else { 1 }),
        unmade.positions() == made.positions(),
        made.plies_tracked() && unmade.current().pieces@ == unmade.positions()[unmade.stack().depth() - 1].0
            && unmade.current().king_squares@ == unmade.positions()[unmade.stack().depth() - 1].1 ==> unmade.synced(),
    ensures
        unmade.current() == before.current(),
        unmade.stack().depth() == before.stack().depth(),
        unmade.latest() == before.latest(),
        unmade.synced(),
        unmade.score(side) == before.score(side),
{
    let d = before.stack().depth();
    assert(unmade.latest() == before.latest());
    assert(made.positions()[d - 1] == before.positions()[d - 1]);
}

/// The king squares come back when a move is taken back: a king moves only from its side's king
/// square (a piece becomes a king only where that side's king left), and a king taken stands on
/// its side's king square.
pub open spec fn move_kings_return(board: Seq<Piece>, kings: Seq<usize>, from_sq: int, to_sq: int, piece: Piece) -> bool {
    &&& kind_of(board[from_sq]) == 6 ==> from_sq == kings[side_of(board[from_sq])]
    &&& kind_of(board[to_sq]) == 6 ==> to_sq == kings[side_of(board[to_sq])]
    &&& kind_of(piece) == 6 ==> kind_of(board[from_sq]) == 6 && side_of(piece) == side_of(board[from_sq])
}

/// Taking back a move right after making it restores everything the evaluation reads: for a
/// probe in step with its plies and a move of a piece to another square, taken back with the
/// piece that moved and the piece that stood on the target square, `make_move` followed by
/// `unmake_move` gives back the board, the current ply (rule-50 counter included) and the
/// score; where the move's kings return, the king squares come back too and the probe is in
/// step again.
pub proof fn lemma_unmake_move_restores<'a>(before: NNUEProbe<'a>, made: NNUEProbe<'a>, unmade: NNUEProbe<'a>,
    from_sq: usize, to_sq: usize, piece: Piece, captured: Option<Piece>, side: Color)
    requires
        before.wf(),
        before.synced(),
        from_sq < 64,
        to_sq < 64,
        from_sq != to_sq,
        piece != Piece::NoPiece,
        captured == (if before.current().pieces@[to_sq as int] != Piece::NoPiece {
            Some(before.current().pieces@[to_sq as int]) } else { None::<Piece> }),
        made.wf(),
        made.nets() == before.nets(),
        made.current().pieces@ == placed(before.current().pieces@.update(from_sq as int, Piece::NoPiece), piece, to_sq as int),
        made.current().king_squares@ == kings_after(before.current().king_squares@, piece, to_sq),
        made.stack().depth() == before.stack().depth() + 1,
        made.latest().rule50 as int == rule50_after_move(before.current().pieces@[from_sq as int],
            before.current().pieces@[to_sq as int], before.latest().rule50 as int),
        made.positions() == before.positions().take(before.stack().depth()).push(
            (made.current().pieces@, made.current().king_squares@)),
        before.synced() && from_sq != to_sq && piece != Piece::NoPiece ==> made.synced()
            && forall|i: int| 0 <= i < before.stack().depth() ==> #[trigger] made.stack().states()[i] == before.stack().states()[i],
        unmade.wf(),
        unmade.nets() == made.nets(),
        unmade.current().pieces@ == placed(placed(made.current().pieces@.update(to_sq as int, Piece::NoPiece),
            match captured { Some(c) => c, None => Piece::NoPiece }, to_sq as int), before.current().pieces@[from_sq as int],
            from_sq as int),
        unmade.current().king_squares@ == kings_after(kings_after(made.current().king_squares@,
            match captured { Some(c) => c, None => Piece::NoPiece }, to_sq), before.current().pieces@[from_sq as int], from_sq),
        unmade.stack().states() == made.stack().states(),
        unmade.stack().depth() == (if made.stack().depth() > 1 { made.stack().depth() - 1 } else { 1 }),
        unmade.positions() == made.positions(),
        made.plies_tracked() && unmade.current().pieces@ == unmade.positions()[unmade.stack().depth() - 1].0
            && unmade.current().king_squares@ == unmade.positions()[unmade.stack().depth() - 1].1 ==> unmade.synced(),
    ensures
        unmade.current().pieces@ == before.current().pieces@,
        unmade.stack().depth() == before.stack().depth(),
        unmade.latest() == before.latest(),
        unmade.score(side) == before.score(side),
        move_kings_return(before.current().pieces@, before.current().king_squares@, from_sq as int, to_sq as int, piece)
            ==> unmade.current().king_squares@ == before.current().king_squares@ && unmade.synced(),
{
    let b = before.current().pieces@;
    let k = before.current().king_squares@;
    let f = from_sq as int;
    let t = to_sq as int;
    let cap = match captured { Some(c) => c, None => Piece::NoPiece };
    assert(cap == b[t]);
    assert(board_consistent(&before.current()));
    assert(b.len() == 64 && k.len() == 2);
    assert(unmade.current().pieces@ =~= b);
    let k1 = kings_after(k, piece, to_sq);
    let k2 = kings_after(k1, cap, to_sq);
    let k3 = kings_after(k2, b[f], from_sq);
    if kind_of(piece) == 6 {
        assert(side_of(piece) == 0 || side_of(piece) == 1);
    }
    if kind_of(cap) == 6 {
        assert(side_of(cap) == 0 || side_of(cap) == 1);
    }
    if kind_of(b[f]) == 6 {
        assert(side_of(b[f]) == 0 || side_of(b[f]) == 1);
    }
    if move_kings_return(b, k, f, t, piece) {
        assert(k3 =~= k);
    }
    let d = before.stack().depth();
    assert(unmade.stack().depth() == d);
    assert(unmade.positions()[d - 1] == before.positions()[d - 1]);
    assert(unmade.latest() == before.latest());
    let bb = before.current();
    let bu = unmade.current();
    assert(bu.piece_count == bb.piece_count);
    assert(bu.pawn_count[0] == bb.pawn_count[0] && bu.pawn_count[1] == bb.pawn_count[1]);
    assert(bu.non_pawn_material[0] == bb.non_pawn_material[0] && bu.non_pawn_material[1] == bb.non_pawn_material[1]);
}

} // verus!
