//! Making and taking back moves: a new ply per move, brought up to date incrementally.
use vstd::prelude::*;
use super::{NNUEProbe, networks_ready};
use super::board::{Board, board_consistent, placed, kings_after, kind_of, side_of};
use super::edits::{added_all, removed_all, kings_all, edited, coded, edit_ok, lists_square, distinct_pieces,
    lemma_edit_exchange, lemma_kings_all, lemma_removed_all_at, lemma_added_all_at};
use super::tracking::{Position, tracks, ply_matches, transition_ok, position_ok, lemma_bring_up_tracks, lemma_bb_pieces_of_board};
use crate::accumulator_stack::{AccumulatorState, DirtyPiece, dirty_added, dirty_removed, added_upto, removed_upto};
use crate::accumulator_stack::updates::{king_moved, king_code, last_usable, side_brought_up, same_but_side,
    lemma_last_usable_frame};
use crate::delta::{DeltaChange, MoveDelta};
use crate::piece_list::board_list;
use crate::types::{piece_code, Piece, Square};

verus! {

/// The pieces a list of changes takes away, as `(piece, square)` pairs, in order.
pub open spec fn change_removals(changes: Seq<DeltaChange>) -> Seq<(Piece, usize)>
    decreases changes.len(),
{
    if changes.len() == 0 {
        Seq::empty()
    } else if changes.last().piece_from != Piece::NoPiece {
        change_removals(changes.drop_last()).push((changes.last().piece_from, changes.last().from))
    } else {
        change_removals(changes.drop_last())
    }
}

/// The pieces a list of changes puts down, as `(piece, square)` pairs, in order.
pub open spec fn change_additions(changes: Seq<DeltaChange>) -> Seq<(Piece, usize)>
    decreases changes.len(),
{
    if changes.len() == 0 {
        Seq::empty()
    } else if changes.last().piece_to != Piece::NoPiece {
        change_additions(changes.drop_last()).push((changes.last().piece_to, changes.last().to))
    } else {
        change_additions(changes.drop_last())
    }
}

/// The rule-50 counter after a move of `moved` onto a square that held `captured`: 0 after a
/// pawn move or a capture, one more than `rule50` otherwise.
pub open spec fn rule50_after_move(moved: Piece, captured: Piece, rule50: int) -> int {
    if kind_of(moved) == 1 || captured != Piece::NoPiece { 0 } else { rule50 + 1 }
}

/// Side `p`'s king is listed.
pub open spec fn lists_king_of(list: Seq<(Piece, usize)>, p: int) -> bool {
    exists|i: int| 0 <= i < list.len() && kind_of(#[trigger] list[i].0) == 6 && side_of(list[i].0) == p
}

/// A piece code names side `p`'s king exactly when the piece is that king.
proof fn lemma_king_code(piece: Piece, p: int)
    requires
        0 <= p < 2,
    ensures
        (piece_code(piece) == king_code(p)) == (kind_of(piece) == 6 && side_of(piece) == p),
{
}

/// A move whose additions hold no king of side `p` leaves that king's recorded square alone.
proof fn lemma_no_king_keeps_square(k: Seq<usize>, list: Seq<(Piece, usize)>, p: int)
    requires
        0 <= p < 2,
        k.len() == 2,
        !lists_king_of(list, p),
    ensures
        kings_all(k, list, list.len() as int)[p] == k[p],
{
    assert forall|i: int| 0 <= i < list.len() implies !(kind_of(#[trigger] list[i].0) == 6 && side_of(list[i].0) == p) by {}
    lemma_kings_all(k, list, list.len() as int, p);
}

/// A ply computed for side `p` just below the top keeps the last usable ply at or above it.
proof fn lemma_last_usable_above(s: Seq<AccumulatorState>, top: int, p: int)
    requires
        top >= 2,
        s[top - 2].computed[p],
    ensures
        last_usable(s, top, p) >= top - 2,
{
    reveal_with_fuel(last_usable, 2);
}

impl<'a> NNUEProbe<'a> {
    /// Records the move `dirty` with rule-50 counter `rule50` as a new ply whose position is the
    /// current board, and brings it up to date for both sides.
    fn advance(&mut self, dirty: &DirtyPiece, rule50: i32)
        requires
            old(self).wf(),
            dirty.wf(),
            position_ok((old(self).current().pieces@, old(self).current().king_squares@)),
        ensures
            final(self).wf(),
            final(self).nets() == old(self).nets(),
            final(self).current() == old(self).current(),
            final(self).stack().depth() == old(self).stack().depth() + 1,
            final(self).latest().rule50 == rule50,
            final(self).latest().dirty_piece == *dirty,
            final(self).positions() == old(self).positions().take(old(self).stack().depth()).push(
                (old(self).current().pieces@, old(self).current().king_squares@)),
            ({
                let d = old(self).stack().depth();
                let prev = old(self).positions()[d - 1];
                let pos = (old(self).current().pieces@, old(self).current().king_squares@);
                old(self).plies_tracked() && transition_ok(prev, *dirty, pos, 0) && transition_ok(prev, *dirty, pos, 1)
                    ==> final(self).synced() && forall|i: int| 0 <= i < d
                        ==> #[trigger] final(self).stack().states()[i] == old(self).stack().states()[i]
            }),
    {
        let ghost d = self.accumulator_stack.depth();
        let ghost old_states = self.accumulator_stack.states();
        let ghost pos: Position = (self.board.pieces@, self.board.king_squares@);
        let nets = self.networks.as_ref();
        self.accumulator_stack.push(dirty, rule50);
        let ghost pushed = self.accumulator_stack.states();
        self.history = Ghost(self.history@.take(d).push(pos));
        let ghost h = self.history@;
        let ghost tracked_before = old(self).plies_tracked();
        proof {
            let ft_big = &nets.big_net.feature_transformer;
            let ft_small = &nets.small_net.feature_transformer;
            let prev = old(self).positions()[d - 1];
            if tracked_before && transition_ok(prev, *dirty, pos, 0) && transition_ok(prev, *dirty, pos, 1) {
                assert forall|i: int| 0 <= i < d implies #[trigger] h[i] == old(self).history@[i] by {}
                assert(h[d] == pos);
                assert forall|i: int| 0 <= i < d + 1 implies position_ok(#[trigger] h[i]) by {
                    if i < d {
                        assert(h[i] == old(self).history@[i]);
                    }
                }
                assert forall|i: int, p: int| #![trigger pushed[i].computed[p]]
                    0 <= i < d + 1 && 0 <= p < 2 && pushed[i].computed[p] implies ply_matches(pushed[i], h[i], p, ft_big, ft_small) by {
                    assert(i < d);
                    assert(pushed[i] == old_states[i]);
                    assert(h[i] == old(self).history@[i]);
                }
                assert forall|i: int, p: int| #![trigger pushed[i].computed[p]]
                    0 < i < d + 1 && 0 <= p < 2 && !pushed[i].computed[p] implies transition_ok(h[i - 1], pushed[i].dirty_piece, h[i], p) by {
                    if i < d {
                        assert(pushed[i] == old_states[i]);
                        assert(old_states[i].computed == [true, true]);
                    } else {
                        assert(h[i - 1] == prev);
                    }
                }
                assert(tracks(pushed, d + 1, h, ft_big, ft_small));
            }
        }
        self.accumulator_stack.update_incremental(self.board.king_squares, &nets.big_net.feature_transformer,
            &nets.small_net.feature_transformer, &mut self.finny_tables, self.board.by_color_bb, self.board.by_type_bb);
        proof {
            let ft_big = &nets.big_net.feature_transformer;
            let ft_small = &nets.small_net.feature_transformer;
            let prev = old(self).positions()[d - 1];
            let fin = self.accumulator_stack.states();
            if tracked_before && transition_ok(prev, *dirty, pos, 0) && transition_ok(prev, *dirty, pos, 1) {
                let mid = choose|mid: Seq<AccumulatorState>| #![trigger side_brought_up(mid, pushed, d + 1, 0,
                    self.board.king_squares[0] as int, ft_big, ft_small, self.board.by_color_bb, self.board.by_type_bb)] {
                    &&& side_brought_up(mid, pushed, d + 1, 0, self.board.king_squares[0] as int, ft_big, ft_small,
                        self.board.by_color_bb, self.board.by_type_bb)
                    &&& side_brought_up(fin, mid, d + 1, 1, self.board.king_squares[1] as int, ft_big, ft_small,
                        self.board.by_color_bb, self.board.by_type_bb)
                };
                lemma_bb_pieces_of_board(self.board.pieces@, self.board.by_color_bb, self.board.by_type_bb);
                assert(h[d] == pos);
                lemma_bring_up_tracks(mid, pushed, d + 1, 0, self.board.king_squares[0] as int, ft_big, ft_small,
                    self.board.by_color_bb, self.board.by_type_bb, h);
                assert forall|i: int| 0 <= i < mid.len() implies (#[trigger] mid[i]).wf() by {
                    assert(same_but_side(mid[i], pushed[i], 0));
                }
                lemma_bring_up_tracks(fin, mid, d + 1, 1, self.board.king_squares[1] as int, ft_big, ft_small,
                    self.board.by_color_bb, self.board.by_type_bb, h);
                assert(pushed[d - 1].computed[0] && pushed[d - 1].computed[1]) by {
                    assert(pushed[d - 1] == old_states[d - 1]);
                    assert(old_states[d - 1].computed == [true, true]);
                }
                lemma_last_usable_above(pushed, d + 1, 0);
                assert(same_but_side(mid[d - 1], pushed[d - 1], 0));
                lemma_last_usable_above(mid, d + 1, 1);
                assert forall|i: int| 0 <= i < d implies #[trigger] fin[i] == old_states[i] by {
                    assert(pushed[i] == old_states[i]);
                    if i < d - 1 {
                        assert(mid[i] == pushed[i]);
                        assert(fin[i] == mid[i]);
                    } else {
                        if pushed[last_usable(pushed, d + 1, 0)].computed[0] {
                        } else {
                            assert(mid[i] == pushed[i]);
                        }
                        if mid[last_usable(mid, d + 1, 1)].computed[1] {
                        } else {
                            assert(fin[i] == mid[i]);
                        }
                    }
                }
                assert forall|i: int| 0 <= i < d + 1 implies (#[trigger] fin[i]).computed == [true, true] by {
                    if i < d {
                        assert(fin[i] == old_states[i]);
                        assert(old_states[i].computed == [true, true]);
                    }
                }
            }
        }
    }

    /// Moves the piece on `from_sq` to `to_sq`, where it becomes `piece` (a promotion when it
    /// differs) and replaces what stood there, as a new ply; the rule-50 counter restarts after a
    /// pawn move or a capture and counts on otherwise.
    pub fn make_move(&mut self, from_sq: Square, to_sq: Square, piece: Piece)
        requires
            old(self).wf(),
            from_sq < 64,
            to_sq < 64,
            rule50_after_move(old(self).current().pieces@[from_sq as int], old(self).current().pieces@[to_sq as int],
                old(self).latest().rule50 as int) <= i32::MAX,
        ensures
            final(self).wf(),
            final(self).nets() == old(self).nets(),
            final(self).current().pieces@ == placed(old(self).current().pieces@.update(from_sq as int, Piece::NoPiece), piece, to_sq as int),
            final(self).current().king_squares@ == kings_after(old(self).current().king_squares@, piece, to_sq),
            final(self).stack().depth() == old(self).stack().depth() + 1,
            final(self).latest().rule50 as int == rule50_after_move(old(self).current().pieces@[from_sq as int],
                old(self).current().pieces@[to_sq as int], old(self).latest().rule50 as int),
            final(self).positions() == old(self).positions().take(old(self).stack().depth()).push(
                (final(self).current().pieces@, final(self).current().king_squares@)),
            old(self).synced() && from_sq != to_sq && piece != Piece::NoPiece ==> final(self).synced()
                && forall|i: int| 0 <= i < old(self).stack().depth()
                    ==> #[trigger] final(self).stack().states()[i] == old(self).stack().states()[i],
    {
        let ghost b0 = self.board.pieces@;
        let ghost k0 = self.board.king_squares@;
        let mut dirty = DirtyPiece::new();
        let from_piece = self.board.pieces[from_sq];
        let to_piece = self.board.pieces[to_sq];
        self.board.remove_piece(from_sq);
        self.board.add_piece(piece, to_sq);
        dirty.add_change(from_sq, to_sq, from_piece.index(), piece.index());
        if to_piece != Piece::NoPiece {
            dirty.add_change(to_sq, to_sq, to_piece.index(), Piece::NoPiece.index());
        }
        let new_rule50 = if from_piece.piece_type() == 1 || to_piece != Piece::NoPiece {
            0
        } else {
            self.accumulator_stack.latest().rule50 + 1
        };
        proof {
            if from_sq != to_sq && piece != Piece::NoPiece && old(self).synced() {
                let rl: Seq<(Piece, usize)> = if from_piece != Piece::NoPiece {
                    if to_piece != Piece::NoPiece { seq![(from_piece, from_sq), (to_piece, to_sq)] } else { seq![(from_piece, from_sq)] }
                } else {
                    if to_piece != Piece::NoPiece { seq![(to_piece, to_sq)] } else { Seq::empty() }
                };
                let al: Seq<(Piece, usize)> = seq![(piece, to_sq)];
                assert(edit_ok(b0, rl, al)) by {
                    if to_piece != Piece::NoPiece {
                        assert(rl[rl.len() - 1].1 == to_sq);
                    }
                }
                assert forall|s: int| 0 <= s < 64 implies #[trigger] edited(b0, rl, al)[s] == self.board.pieces@[s] by {
                    lemma_removed_all_at(b0, rl, rl.len() as int, s);
                    lemma_added_all_at(removed_all(b0, rl, rl.len() as int), al, 1, s);
                    if s == to_sq && to_piece != Piece::NoPiece {
                        assert(rl[rl.len() - 1].1 == to_sq);
                    }
                    if s == from_sq && from_piece != Piece::NoPiece {
                        assert(rl[0].1 == from_sq);
                    }
                }
                lemma_removed_all_at(b0, rl, rl.len() as int, 0);
                lemma_added_all_at(removed_all(b0, rl, rl.len() as int), al, 1, 0);
                assert(edited(b0, rl, al) =~= self.board.pieces@);
                lemma_edit_exchange(b0, rl, al);
                reveal_with_fuel(removed_upto, 3);
                reveal_with_fuel(added_upto, 3);
                assert(dirty_removed(dirty) =~= coded(rl));
                assert(dirty_added(dirty) =~= coded(al));
                assert forall|p: int| 0 <= p < 2 implies #[trigger] transition_ok(old(self).positions()[old(self).stack().depth() - 1], dirty,
                    (self.board.pieces@, self.board.king_squares@), p) by {
                    if !king_moved(dirty, p) {
                        lemma_king_code(piece, p);
                        assert(dirty.piece_to[0] == piece_code(piece));
                    }
                }
            }
        }
        self.advance(&dirty, new_rule50);
    }

    /// Takes back a move: the piece on `to_sq` goes, `captured_piece` (if any) returns there,
    /// and `from_piece` returns to `from_sq`; the stack goes back one ply.
    pub fn unmake_move(&mut self, from_sq: Square, to_sq: Square, from_piece: Piece, captured_piece: Option<Piece>)
        requires
            old(self).wf(),
            from_sq < 64,
            to_sq < 64,
        ensures
            final(self).wf(),
            final(self).nets() == old(self).nets(),
            final(self).current().pieces@ == placed(placed(old(self).current().pieces@.update(to_sq as int, Piece::NoPiece),
                match captured_piece { Some(c) => c, None => Piece::NoPiece }, to_sq as int), from_piece, from_sq as int),
            final(self).current().king_squares@ == kings_after(kings_after(old(self).current().king_squares@,
                match captured_piece { Some(c) => c, None => Piece::NoPiece }, to_sq), from_piece, from_sq),
            final(self).stack().states() == old(self).stack().states(),
            final(self).stack().depth() == (if old(self).stack().depth() > 1 { old(self).stack().depth() - 1 } else { 1 }),
            final(self).positions() == old(self).positions(),
            old(self).plies_tracked() && final(self).current().pieces@ == final(self).positions()[final(self).stack().depth() - 1].0
                && final(self).current().king_squares@ == final(self).positions()[final(self).stack().depth() - 1].1
                ==> final(self).synced(),
    {
        self.board.remove_piece(to_sq);
        match captured_piece {
            Some(captured) => self.board.add_piece(captured, to_sq),
            None => {},
        }
        proof {
            if captured_piece is None {
                assert(placed(self.board.pieces@, Piece::NoPiece, to_sq as int) == self.board.pieces@);
            }
        }
        self.board.add_piece(from_piece, from_sq);
        self.accumulator_stack.pop();
    }

    /// Applies the changes of `delta` (first every removal, then every addition) as a new ply with
    /// the delta's rule-50 counter.
    pub fn apply_delta(&mut self, delta: MoveDelta)
        requires
            old(self).wf(),
            forall|i: int| 0 <= i < delta.change_list().len() ==> (#[trigger] delta.change_list()[i]).from < 64
                && delta.change_list()[i].to < 64,
        ensures
            final(self).wf(),
            final(self).nets() == old(self).nets(),
            final(self).current().pieces@ == edited(old(self).current().pieces@, change_removals(delta.change_list()),
                change_additions(delta.change_list())),
            final(self).current().king_squares@ == kings_all(old(self).current().king_squares@,
                change_additions(delta.change_list()), change_additions(delta.change_list()).len() as int),
            final(self).stack().depth() == old(self).stack().depth() + 1,
            final(self).latest().rule50 == delta.rule50_after(),
            final(self).positions() == old(self).positions().take(old(self).stack().depth()).push(
                (final(self).current().pieces@, final(self).current().king_squares@)),
            old(self).synced() && edit_ok(old(self).current().pieces@, change_removals(delta.change_list()),
                change_additions(delta.change_list())) ==> final(self).synced()
                && forall|i: int| 0 <= i < old(self).stack().depth()
                    ==> #[trigger] final(self).stack().states()[i] == old(self).stack().states()[i],
    {
        self.apply_delta_internal(delta);
    }

    /// Takes back the changes of `delta`, last change first: each added piece goes, then each
    /// removed piece returns; the stack goes back one ply.
    pub fn undo_delta(&mut self, delta: MoveDelta)
        requires
            old(self).wf(),
            forall|i: int| 0 <= i < delta.change_list().len() ==> (#[trigger] delta.change_list()[i]).from < 64
                && delta.change_list()[i].to < 64,
        ensures
            final(self).wf(),
            final(self).nets() == old(self).nets(),
            final(self).current().pieces@ == edited(old(self).current().pieces@, additions_from_back(delta.change_list(), 0),
                removals_from_back(delta.change_list(), 0)),
            final(self).current().king_squares@ == kings_all(old(self).current().king_squares@,
                removals_from_back(delta.change_list(), 0), removals_from_back(delta.change_list(), 0).len() as int),
            final(self).stack().states() == old(self).stack().states(),
            final(self).stack().depth() == (if old(self).stack().depth() > 1 { old(self).stack().depth() - 1 } else { 1 }),
            final(self).positions() == old(self).positions(),
            old(self).plies_tracked() && final(self).current().pieces@ == final(self).positions()[final(self).stack().depth() - 1].0
                && final(self).current().king_squares@ == final(self).positions()[final(self).stack().depth() - 1].1
                ==> final(self).synced(),
    {
        let ghost b0 = self.board.pieces@;
        let ghost k0 = self.board.king_squares@;
        let changes = delta.changes();
        let ghost cl = delta.change_list();
        let mut i: usize = changes.len();
        while i > 0
            invariant
                changes@ == cl,
                cl.len() <= 3,
                i <= cl.len(),
                forall|k: int| 0 <= k < cl.len() ==> (#[trigger] cl[k]).from < 64 && cl[k].to < 64,
                self.networks == old(self).networks,
                self.scratch_big == old(self).scratch_big,
                self.scratch_small == old(self).scratch_small,
                self.accumulator_stack == old(self).accumulator_stack,
                self.finny_tables == old(self).finny_tables,
                self.history == old(self).history,
                board_consistent(&self.board),
                self.board.pieces@ == removed_all(b0, additions_from_back(cl, i as int), additions_from_back(cl, i as int).len() as int),
                self.board.king_squares@ == k0,
            decreases i,
        {
            let c = changes[i - 1];
            proof {
                let prev = additions_from_back(cl, i as int);
                if c.piece_to != Piece::NoPiece {
                    lemma_removed_all_prefix(b0, prev.push((c.piece_to, c.to)), prev.len() as int, prev);
                }
            }
            if c.piece_to != Piece::NoPiece {
                self.board.remove_piece(c.to);
            }
            i -= 1;
        }
        let ghost b1 = self.board.pieces@;
        let mut i: usize = changes.len();
        while i > 0
            invariant
                changes@ == cl,
                cl.len() <= 3,
                i <= cl.len(),
                forall|k: int| 0 <= k < cl.len() ==> (#[trigger] cl[k]).from < 64 && cl[k].to < 64,
                self.networks == old(self).networks,
                self.scratch_big == old(self).scratch_big,
                self.scratch_small == old(self).scratch_small,
                self.accumulator_stack == old(self).accumulator_stack,
                self.finny_tables == old(self).finny_tables,
                self.history == old(self).history,
                board_consistent(&self.board),
                self.board.pieces@ == added_all(b1, removals_from_back(cl, i as int), removals_from_back(cl, i as int).len() as int),
                self.board.king_squares@ == kings_all(k0, removals_from_back(cl, i as int), removals_from_back(cl, i as int).len() as int),
            decreases i,
        {
            let c = changes[i - 1];
            proof {
                let prev = removals_from_back(cl, i as int);
                if c.piece_from != Piece::NoPiece {
                    lemma_added_all_prefix(b1, k0, prev.push((c.piece_from, c.from)), prev.len() as int, prev);
                }
            }
            if c.piece_from != Piece::NoPiece {
                self.board.add_piece(c.piece_from, c.from);
            }
            i -= 1;
        }
        self.accumulator_stack.pop();
    }

    /// A null move: a new ply with no changes and the rule-50 counter one higher.
    pub fn make_null_move(&mut self)
        requires
            old(self).wf(),
            old(self).latest().rule50 < i32::MAX,
        ensures
            final(self).wf(),
            final(self).nets() == old(self).nets(),
            final(self).current() == old(self).current(),
            final(self).stack().depth() == old(self).stack().depth() + 1,
            final(self).latest().rule50 == old(self).latest().rule50 + 1,
            final(self).positions() == old(self).positions().take(old(self).stack().depth()).push(
                (old(self).current().pieces@, old(self).current().king_squares@)),
            old(self).synced() ==> final(self).synced() && forall|i: int| 0 <= i < old(self).stack().depth()
                ==> #[trigger] final(self).stack().states()[i] == old(self).stack().states()[i],
    {
        let next = self.rule50() + 1;
        self.make_null_move_with_rule50(next);
    }

    /// A null move: a new ply with no changes and the given rule-50 counter.
    pub fn make_null_move_with_rule50(&mut self, next_rule50: i32)
        requires
            old(self).wf(),
        ensures
            final(self).wf(),
            final(self).nets() == old(self).nets(),
            final(self).current() == old(self).current(),
            final(self).stack().depth() == old(self).stack().depth() + 1,
            final(self).latest().rule50 == next_rule50,
            final(self).positions() == old(self).positions().take(old(self).stack().depth()).push(
                (old(self).current().pieces@, old(self).current().king_squares@)),
            old(self).synced() ==> final(self).synced() && forall|i: int| 0 <= i < old(self).stack().depth()
                ==> #[trigger] final(self).stack().states()[i] == old(self).stack().states()[i],
    {
        let delta = MoveDelta::null(next_rule50);
        let dirty = delta.to_dirty_piece();
        proof {
            reveal_with_fuel(removed_upto, 1);
            reveal_with_fuel(added_upto, 1);
            assert(dirty_removed(dirty) =~= Seq::<(usize, usize)>::empty());
            assert(dirty_added(dirty) =~= Seq::<(usize, usize)>::empty());
            if old(self).synced() {
                assert forall|p: int| 0 <= p < 2 implies #[trigger] transition_ok(old(self).positions()[old(self).stack().depth() - 1],
                    dirty, (self.board.pieces@, self.board.king_squares@), p) by {
                    assert(board_list(self.board.pieces@, 64) + dirty_added(dirty) =~= board_list(self.board.pieces@, 64) + dirty_removed(dirty));
                }
            }
        }
        self.advance(&dirty, delta.next_rule50());
    }

    /// Takes back a null move: the stack goes back one ply.
    pub fn unmake_null_move(&mut self)
        requires
            old(self).wf(),
        ensures
            final(self).wf(),
            final(self).nets() == old(self).nets(),
            final(self).current() == old(self).current(),
            final(self).stack().states() == old(self).stack().states(),
            final(self).stack().depth() == (if old(self).stack().depth() > 1 { old(self).stack().depth() - 1 } else { 1 }),
            final(self).positions() == old(self).positions(),
            old(self).plies_tracked() && final(self).current().pieces@ == final(self).positions()[final(self).stack().depth() - 1].0
                && final(self).current().king_squares@ == final(self).positions()[final(self).stack().depth() - 1].1
                ==> final(self).synced(),
    {
        self.accumulator_stack.pop();
    }

    fn apply_delta_internal(&mut self, delta: MoveDelta)
        requires
            old(self).wf(),
            forall|i: int| 0 <= i < delta.change_list().len() ==> (#[trigger] delta.change_list()[i]).from < 64
                && delta.change_list()[i].to < 64,
        ensures
            final(self).wf(),
            final(self).nets() == old(self).nets(),
            final(self).current().pieces@ == edited(old(self).current().pieces@, change_removals(delta.change_list()),
                change_additions(delta.change_list())),
            final(self).current().king_squares@ == kings_all(old(self).current().king_squares@,
                change_additions(delta.change_list()), change_additions(delta.change_list()).len() as int),
            final(self).stack().depth() == old(self).stack().depth() + 1,
            final(self).latest().rule50 == delta.rule50_after(),
            final(self).positions() == old(self).positions().take(old(self).stack().depth()).push(
                (final(self).current().pieces@, final(self).current().king_squares@)),
            old(self).synced() && edit_ok(old(self).current().pieces@, change_removals(delta.change_list()),
                change_additions(delta.change_list())) ==> final(self).synced()
                && forall|i: int| 0 <= i < old(self).stack().depth()
                    ==> #[trigger] final(self).stack().states()[i] == old(self).stack().states()[i],
    {
        let ghost b0 = self.board.pieces@;
        let ghost k0 = self.board.king_squares@;
        let changes = delta.changes();
        let ghost cl = delta.change_list();
        let mut i: usize = 0;
        while i < changes.len()
            invariant
                changes@ == cl,
                cl.len() <= 3,
                i <= cl.len(),
                forall|k: int| 0 <= k < cl.len() ==> (#[trigger] cl[k]).from < 64 && cl[k].to < 64,
                self.networks == old(self).networks,
                self.scratch_big == old(self).scratch_big,
                self.scratch_small == old(self).scratch_small,
                self.accumulator_stack == old(self).accumulator_stack,
                self.finny_tables == old(self).finny_tables,
                self.history == old(self).history,
                board_consistent(&self.board),
                self.board.pieces@ == removed_all(b0, change_removals(cl.take(i as int)), change_removals(cl.take(i as int)).len() as int),
                self.board.king_squares@ == k0,
            decreases cl.len() - i,
        {
            let c = changes[i];
            proof { lemma_removals_step(cl, i as int, b0); }
            if c.piece_from != Piece::NoPiece {
                self.board.remove_piece(c.from);
            }
            i += 1;
        }
        proof { assert(cl.take(cl.len() as int) =~= cl); }
        let ghost b1 = self.board.pieces@;
        let mut i: usize = 0;
        while i < changes.len()
            invariant
                changes@ == cl,
                cl.len() <= 3,
                i <= cl.len(),
                forall|k: int| 0 <= k < cl.len() ==> (#[trigger] cl[k]).from < 64 && cl[k].to < 64,
                self.networks == old(self).networks,
                self.scratch_big == old(self).scratch_big,
                self.scratch_small == old(self).scratch_small,
                self.accumulator_stack == old(self).accumulator_stack,
                self.finny_tables == old(self).finny_tables,
                self.history == old(self).history,
                board_consistent(&self.board),
                self.board.pieces@ == added_all(b1, change_additions(cl.take(i as int)), change_additions(cl.take(i as int)).len() as int),
                self.board.king_squares@ == kings_all(k0, change_additions(cl.take(i as int)), change_additions(cl.take(i as int)).len() as int),
            decreases cl.len() - i,
        {
            let c = changes[i];
            proof { lemma_additions_step(cl, i as int, b1, k0); }
            if c.piece_to != Piece::NoPiece {
                self.board.add_piece(c.piece_to, c.to);
            }
            i += 1;
        }
        let dirty = delta.to_dirty_piece();
        proof {
            lemma_dirty_of_changes(dirty, cl, cl.len() as int);
            let rl = change_removals(cl);
            let al = change_additions(cl);
            if old(self).synced() && edit_ok(b0, rl, al) {
                lemma_edit_exchange(b0, rl, al);
                assert forall|p: int| 0 <= p < 2 implies #[trigger] transition_ok(old(self).positions()[old(self).stack().depth() - 1], dirty,
                    (self.board.pieces@, self.board.king_squares@), p) by {
                    if !king_moved(dirty, p) {
                        if lists_king_of(al, p) {
                            let k = choose|k: int| 0 <= k < al.len() && kind_of(#[trigger] al[k].0) == 6 && side_of(al[k].0) == p;
                            lemma_king_code(al[k].0, p);
                            lemma_addition_in_dirty(dirty, cl, cl.len() as int, k);
                        }
                        lemma_no_king_keeps_square(k0, al, p);
                    }
                }
            }
            assert forall|k: int| 0 <= k < dirty.dirty_num implies #[trigger] dirty.from[k] < 64 && dirty.to[k] < 64
                && dirty.piece_from[k] < 16 && dirty.piece_to[k] < 16 by {
                assert(dirty.from[k] == cl[k].from);
            }
        }
        self.advance(&dirty, delta.next_rule50());
    }
}

/// The pieces the changes from index `i` up put down, as `(piece, square)` pairs, last change first.
pub open spec fn additions_from_back(cl: Seq<DeltaChange>, i: int) -> Seq<(Piece, usize)>
    decreases cl.len() - i,
{
    if i < 0 || i >= cl.len() {
        Seq::empty()
    } else if cl[i].piece_to != Piece::NoPiece {
        additions_from_back(cl, i + 1).push((cl[i].piece_to, cl[i].to))
    } else {
        additions_from_back(cl, i + 1)
    }
}

/// The pieces the changes from index `i` up take away, as `(piece, square)` pairs, last change first.
pub open spec fn removals_from_back(cl: Seq<DeltaChange>, i: int) -> Seq<(Piece, usize)>
    decreases cl.len() - i,
{
    if i < 0 || i >= cl.len() {
        Seq::empty()
    } else if cl[i].piece_from != Piece::NoPiece {
        removals_from_back(cl, i + 1).push((cl[i].piece_from, cl[i].from))
    } else {
        removals_from_back(cl, i + 1)
    }
}

/// One more change of the list adds at most one removal.
proof fn lemma_removals_step(cl: Seq<DeltaChange>, i: int, b0: Seq<Piece>)
    requires
        0 <= i < cl.len(),
    ensures
        cl.take(i + 1).drop_last() == cl.take(i),
        cl.take(i + 1).last() == cl[i],
        removed_all(b0, change_removals(cl.take(i + 1)), change_removals(cl.take(i + 1)).len() as int) == (if cl[i].piece_from
            != Piece::NoPiece { removed_all(b0, change_removals(cl.take(i)), change_removals(cl.take(i)).len() as int).update(
            cl[i].from as int, Piece::NoPiece) } else { removed_all(b0, change_removals(cl.take(i)), change_removals(cl.take(i)).len() as int) }),
{
    assert(cl.take(i + 1).drop_last() =~= cl.take(i));
    let prev = change_removals(cl.take(i));
    if cl[i].piece_from != Piece::NoPiece {
        let next = prev.push((cl[i].piece_from, cl[i].from));
        assert(change_removals(cl.take(i + 1)) == next);
        lemma_removed_all_prefix(b0, next, prev.len() as int, prev);
    }
}

/// Removing along a list that extends `prev` agrees with `prev` on its first entries.
proof fn lemma_removed_all_prefix(b: Seq<Piece>, list: Seq<(Piece, usize)>, n: int, prev: Seq<(Piece, usize)>)
    requires
        0 <= n <= prev.len(),
        prev.len() <= list.len(),
        forall|k: int| 0 <= k < prev.len() ==> list[k] == prev[k],
    ensures
        removed_all(b, list, n) == removed_all(b, prev, n),
    decreases n,
{
    if n > 0 {
        lemma_removed_all_prefix(b, list, n - 1, prev);
    }
}

/// Adding along a list that extends `prev` agrees with `prev` on its first entries.
proof fn lemma_added_all_prefix(b: Seq<Piece>, k: Seq<usize>, list: Seq<(Piece, usize)>, n: int, prev: Seq<(Piece, usize)>)
    requires
        0 <= n <= prev.len(),
        prev.len() <= list.len(),
        forall|j: int| 0 <= j < prev.len() ==> list[j] == prev[j],
    ensures
        added_all(b, list, n) == added_all(b, prev, n),
        kings_all(k, list, n) == kings_all(k, prev, n),
    decreases n,
{
    if n > 0 {
        lemma_added_all_prefix(b, k, list, n - 1, prev);
    }
}

/// One more change of the list adds at most one addition.
proof fn lemma_additions_step(cl: Seq<DeltaChange>, i: int, b1: Seq<Piece>, k0: Seq<usize>)
    requires
        0 <= i < cl.len(),
    ensures
        ({
            let prev = change_additions(cl.take(i));
            let next = change_additions(cl.take(i + 1));
            &&& added_all(b1, next, next.len() as int) == (if cl[i].piece_to != Piece::NoPiece {
                placed(added_all(b1, prev, prev.len() as int), cl[i].piece_to, cl[i].to as int) } else { added_all(b1, prev, prev.len() as int) })
            &&& kings_all(k0, next, next.len() as int) == (if cl[i].piece_to != Piece::NoPiece {
                kings_after(kings_all(k0, prev, prev.len() as int), cl[i].piece_to, cl[i].to) } else { kings_all(k0, prev, prev.len() as int) })
        }),
{
    assert(cl.take(i + 1).drop_last() =~= cl.take(i));
    assert(cl.take(i + 1).last() == cl[i]);
    let prev = change_additions(cl.take(i));
    if cl[i].piece_to != Piece::NoPiece {
        let next = prev.push((cl[i].piece_to, cl[i].to));
        assert(change_additions(cl.take(i + 1)) == next);
        lemma_added_all_prefix(b1, k0, next, prev.len() as int, prev);
    }
}

/// The raw changes of a delta list the same removals and additions as the delta's changes.
proof fn lemma_dirty_of_changes(dirty: DirtyPiece, cl: Seq<DeltaChange>, n: int)
    requires
        0 <= n <= cl.len(),
        dirty.dirty_num == cl.len(),
        forall|i: int| 0 <= i < cl.len() ==> {
            &&& dirty.from[i] == (#[trigger] cl[i]).from
            &&& dirty.to[i] == cl[i].to
            &&& dirty.piece_from[i] == piece_code(cl[i].piece_from)
            &&& dirty.piece_to[i] == piece_code(cl[i].piece_to)
        },
    ensures
        removed_upto(dirty, n) == coded(change_removals(cl.take(n))),
        added_upto(dirty, n) == coded(change_additions(cl.take(n))),
        n == cl.len() ==> dirty_removed(dirty) == coded(change_removals(cl)) && dirty_added(dirty) == coded(change_additions(cl)),
    decreases n,
{
    if n == 0 {
        assert(coded(change_removals(cl.take(0))) =~= Seq::<(usize, usize)>::empty());
        assert(coded(change_additions(cl.take(0))) =~= Seq::<(usize, usize)>::empty());
    } else {
        lemma_dirty_of_changes(dirty, cl, n - 1);
        assert(cl.take(n).drop_last() =~= cl.take(n - 1));
        assert(cl.take(n).last() == cl[n - 1]);
        let c = cl[n - 1];
        assert((piece_code(c.piece_from) != 0) == (c.piece_from != Piece::NoPiece));
        assert((piece_code(c.piece_to) != 0) == (c.piece_to != Piece::NoPiece));
        assert(removed_upto(dirty, n) =~= coded(change_removals(cl.take(n))));
        assert(added_upto(dirty, n) =~= coded(change_additions(cl.take(n))));
    }
    if n == cl.len() {
        assert(cl.take(n) =~= cl);
    }
}

/// An addition listed by the changes puts its piece code into the raw changes' arrivals.
proof fn lemma_addition_in_dirty(dirty: DirtyPiece, cl: Seq<DeltaChange>, n: int, k: int)
    requires
        0 <= n <= cl.len(),
        dirty.dirty_num == cl.len(),
        forall|i: int| 0 <= i < cl.len() ==> {
            &&& dirty.from[i] == (#[trigger] cl[i]).from
            &&& dirty.to[i] == cl[i].to
            &&& dirty.piece_from[i] == piece_code(cl[i].piece_from)
            &&& dirty.piece_to[i] == piece_code(cl[i].piece_to)
        },
        0 <= k < change_additions(cl.take(n)).len(),
    ensures
        exists|i: int| 0 <= i < n && #[trigger] dirty.piece_to[i] == piece_code(change_additions(cl.take(n))[k].0),
    decreases n,
{
    assert(cl.take(n).drop_last() =~= cl.take(n - 1));
    assert(cl.take(n).last() == cl[n - 1]);
    let prev = change_additions(cl.take(n - 1));
    if cl[n - 1].piece_to != Piece::NoPiece && k == prev.len() {
        assert(dirty.piece_to[n - 1] == piece_code(cl[n - 1].piece_to));
    } else {
        assert(change_additions(cl.take(n))[k] == prev[k]);
        lemma_addition_in_dirty(dirty, cl, n - 1, k);
        let i = choose|i: int| 0 <= i < n - 1 && #[trigger] dirty.piece_to[i] == piece_code(prev[k].0);
        assert(dirty.piece_to[i] == piece_code(change_additions(cl.take(n))[k].0));
    }
}

} // verus!
