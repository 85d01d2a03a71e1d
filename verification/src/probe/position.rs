//! Setting up and directly changing the probe's position.
use vstd::prelude::*;
use super::{NNUEProbe, networks_ready};
use super::board::{Board, board_consistent, empty_board, kind_of};
use super::edits::{added_all, kings_all, edited, coded, edit_ok, lists_king, lemma_edit_exchange, lemma_kings_all};
use super::tracking::{Position, tracks, ply_matches, position_ok, lemma_bb_pieces_of_board, lemma_matches_permutation};
use crate::accumulator::{matches_pieces, updated_from, valid_pieces, lemma_incremental_matches_refresh};
use crate::finny_tables::bitsets::bb_pieces;
use crate::piece_list::{board_list, capped, collect_pieces_from, PieceList};
use crate::finny_tables::CACHE_ENTRIES;
use crate::finny_tables::refresh::bitboards_hold;
use crate::types::{piece_code, Piece, Square};

verus! {

impl<'a> NNUEProbe<'a> {
    /// Replaces the board by the listed pieces (each put on its square in order, a later piece
    /// replacing an earlier one), makes the root the only ply with rule-50 counter `rule50`,
    /// and refreshes its accumulators through the caches.
    pub fn set_position(&mut self, pieces: &[(Piece, Square)], rule50: i32)
        requires
            old(self).wf(),
            forall|i: int| 0 <= i < pieces@.len() ==> (#[trigger] pieces@[i]).1 < 64,
        ensures
            final(self).wf(),
            final(self).synced(),
            final(self).nets() == old(self).nets(),
            final(self).current().pieces@ == added_all(empty_board(), pieces@, pieces@.len() as int),
            final(self).current().king_squares@ == kings_all(seq![0usize, 0usize], pieces@, pieces@.len() as int),
            final(self).stack().depth() == 1,
            final(self).latest().rule50 == rule50,
    {
        let mut board = Board::empty();
        assert(board.king_squares@ =~= seq![0usize, 0usize]);
        board.add_listed(pieces);
        self.board = board;
        let nets = self.networks.as_ref();
        self.accumulator_stack.reset_with_refresh(self.board.king_squares, &nets.big_net.feature_transformer,
            &nets.small_net.feature_transformer, &mut self.finny_tables, self.board.by_color_bb, self.board.by_type_bb, rule50);
        let ghost pos: Position = (self.board.pieces@, self.board.king_squares@);
        self.history = Ghost(Seq::<Position>::empty().push(pos));
        proof {
            let ft_big = &nets.big_net.feature_transformer;
            let ft_small = &nets.small_net.feature_transformer;
            let root = self.accumulator_stack.states()[0];
            lemma_bb_pieces_of_board(self.board.pieces@, self.board.by_color_bb, self.board.by_type_bb);
            let list = bb_pieces(self.board.by_color_bb, self.board.by_type_bb);
            assert forall|p: int| 0 <= p < 2 implies ply_matches(root, pos, p, ft_big, ft_small) by {
                lemma_matches_permutation(root.acc_big.accumulation[p]@, root.acc_big.psqt_accumulation[p], ft_big, 3072, p,
                    self.board.king_squares[p] as int, list, board_list(self.board.pieces@, 64));
                lemma_matches_permutation(root.acc_small.accumulation[p]@, root.acc_small.psqt_accumulation[p], ft_small, 128, p,
                    self.board.king_squares[p] as int, list, board_list(self.board.pieces@, 64));
            }
            assert(position_ok(self.history@[0]));
        }
    }

    /// Refills the caches of every king square from the current board: every entry of both
    /// caches then lists the board's pieces (the first 32 of them, by square) and holds the
    /// accumulator values a refresh over them gives for its king square.
    pub fn prepopulate_cache(&mut self)
        requires
            old(self).wf(),
        ensures
            final(self).wf(),
            forall|i: int| 0 <= i < CACHE_ENTRIES ==> bitboards_hold(
                (#[trigger] final(self).tables().cache_big.entries@[i]).by_color_bb,
                final(self).tables().cache_big.entries@[i].by_type_bb, capped(board_list(old(self).current().pieces@, 64))),
            forall|i: int| 0 <= i < CACHE_ENTRIES ==> bitboards_hold(
                (#[trigger] final(self).tables().cache_small.entries@[i]).by_color_bb,
                final(self).tables().cache_small.entries@[i].by_type_bb, capped(board_list(old(self).current().pieces@, 64))),
            final(self).tables().consistent(&final(self).nets().big_net.feature_transformer,
                &final(self).nets().small_net.feature_transformer),
            final(self).nets() == old(self).nets(),
            final(self).current() == old(self).current(),
            final(self).stack() == old(self).stack(),
            final(self).latest() == old(self).latest(),
            final(self).positions() == old(self).positions(),
            final(self).synced() == old(self).synced(),
    {
        let mut list = PieceList::new();
        collect_pieces_from(&self.board.pieces, &mut list);
        let nets = self.networks.as_ref();
        self.finny_tables.prepopulate(list.as_slice(), &nets.big_net.feature_transformer, &nets.small_net.feature_transformer,
            self.board.king_squares);
    }

    /// Rebuilds the current ply's accumulators from the board, which holds at most 32 pieces.
    fn refresh_accumulators(&mut self)
        requires
            old(self).wf(),
            board_list(old(self).current().pieces@, 64).len() <= 32,
        ensures
            final(self).wf(),
            final(self).nets() == old(self).nets(),
            final(self).current() == old(self).current(),
            final(self).positions() == old(self).positions(),
            final(self).stack().depth() == old(self).stack().depth(),
            final(self).stack().states().len() == old(self).stack().states().len(),
            forall|i: int| 0 <= i < old(self).stack().states().len() && i != old(self).stack().depth() - 1
                ==> #[trigger] final(self).stack().states()[i] == old(self).stack().states()[i],
            final(self).latest().computed == [true, true],
            final(self).latest().rule50 == old(self).latest().rule50,
            final(self).latest().dirty_piece == old(self).latest().dirty_piece,
            forall|p: int| 0 <= p < 2 ==> ply_matches(#[trigger] final(self).latest(), (old(self).current().pieces@,
                old(self).current().king_squares@), p, &final(self).nets().big_net.feature_transformer,
                &final(self).nets().small_net.feature_transformer),
    {
        let mut list = PieceList::new();
        collect_pieces_from(&self.board.pieces, &mut list);
        let nets = self.networks.as_ref();
        self.accumulator_stack.refresh(list.as_slice(), self.board.king_squares, &nets.big_net.feature_transformer,
            &nets.small_net.feature_transformer);
    }

    /// Takes the `removed` pieces off their squares and puts the `added` pieces on theirs,
    /// without a new ply: the current ply's accumulators are refreshed from the board when a
    /// king is among the listed pieces, and updated by the listed pieces otherwise.
    pub fn update(&mut self, removed: &[(Piece, Square)], added: &[(Piece, Square)])
        requires
            old(self).wf(),
            forall|i: int| 0 <= i < removed@.len() ==> (#[trigger] removed@[i]).1 < 64,
            forall|i: int| 0 <= i < added@.len() ==> (#[trigger] added@[i]).1 < 64,
            lists_king(removed@) || lists_king(added@)
                ==> board_list(edited(old(self).current().pieces@, removed@, added@), 64).len() <= 32,
        ensures
            final(self).wf(),
            final(self).nets() == old(self).nets(),
            final(self).current().pieces@ == edited(old(self).current().pieces@, removed@, added@),
            final(self).current().king_squares@ == kings_all(old(self).current().king_squares@, added@, added@.len() as int),
            final(self).stack().depth() == old(self).stack().depth(),
            forall|i: int| 0 <= i < old(self).stack().states().len() && i != old(self).stack().depth() - 1
                ==> #[trigger] final(self).stack().states()[i] == old(self).stack().states()[i],
            final(self).latest().rule50 == old(self).latest().rule50,
            !lists_king(removed@) && !lists_king(added@) ==> forall|p: int| 0 <= p < 2 ==> {
                &&& updated_from(#[trigger] final(self).latest().acc_big.accumulation[p]@, final(self).latest().acc_big.psqt_accumulation[p],
                    old(self).latest().acc_big.accumulation[p]@, old(self).latest().acc_big.psqt_accumulation[p],
                    &old(self).nets().big_net.feature_transformer, 3072, p, old(self).current().king_squares[p] as int,
                    coded(added@), coded(removed@))
                &&& updated_from(final(self).latest().acc_small.accumulation[p]@, final(self).latest().acc_small.psqt_accumulation[p],
                    old(self).latest().acc_small.accumulation[p]@, old(self).latest().acc_small.psqt_accumulation[p],
                    &old(self).nets().small_net.feature_transformer, 128, p, old(self).current().king_squares[p] as int,
                    coded(added@), coded(removed@))
            },
            lists_king(removed@) || lists_king(added@) ==> forall|p: int| 0 <= p < 2 ==> ply_matches(#[trigger] final(self).latest(),
                (final(self).current().pieces@, final(self).current().king_squares@), p,
                &final(self).nets().big_net.feature_transformer, &final(self).nets().small_net.feature_transformer),
            old(self).synced() && edit_ok(old(self).current().pieces@, removed@, added@) ==> final(self).synced(),
    {
        let ghost old_pieces = self.board.pieces@;
        let ghost old_kings = self.board.king_squares@;
        let mut removed_mapped: Vec<(usize, usize)> = Vec::new();
        let mut added_mapped: Vec<(usize, usize)> = Vec::new();
        let mut king_moved = false;
        let mut i: usize = 0;
        while i < removed.len()
            invariant
                i <= removed@.len(),
                forall|k: int| 0 <= k < removed@.len() ==> (#[trigger] removed@[k]).1 < 64,
                removed_mapped@ == coded(removed@.take(i as int)),
                king_moved == lists_king(removed@.take(i as int)),
            decreases removed@.len() - i,
        {
            let (piece, square) = removed[i];
            removed_mapped.push((square, piece.index()));
            king_moved = king_moved || piece.is_king();
            proof {
                assert(removed_mapped@ =~= coded(removed@.take(i + 1)));
                assert(removed@.take(i + 1)[i as int] == (piece, square));
                if lists_king(removed@.take(i as int)) {
                    let k = choose|k: int| 0 <= k < i && kind_of(#[trigger] removed@.take(i as int)[k].0) == 6;
                    assert(removed@.take(i + 1)[k] == removed@.take(i as int)[k]);
                }
                if lists_king(removed@.take(i + 1)) {
                    let k = choose|k: int| 0 <= k < i + 1 && kind_of(#[trigger] removed@.take(i + 1)[k].0) == 6;
                    if k < i {
                        assert(removed@.take(i as int)[k] == removed@.take(i + 1)[k]);
                    }
                }
            }
            i += 1;
        }
        proof {
            assert(removed@.take(removed@.len() as int) =~= removed@);
            assert(!lists_king(added@.take(0)));
        }
        let mut i: usize = 0;
        while i < added.len()
            invariant
                i <= added@.len(),
                forall|k: int| 0 <= k < added@.len() ==> (#[trigger] added@[k]).1 < 64,
                added_mapped@ == coded(added@.take(i as int)),
                king_moved == (lists_king(removed@) || lists_king(added@.take(i as int))),
            decreases added@.len() - i,
        {
            let (piece, square) = added[i];
            added_mapped.push((square, piece.index()));
            king_moved = king_moved || piece.is_king();
            proof {
                assert(added_mapped@ =~= coded(added@.take(i + 1)));
                assert(added@.take(i + 1)[i as int] == (piece, square));
                if lists_king(added@.take(i as int)) {
                    let k = choose|k: int| 0 <= k < i && kind_of(#[trigger] added@.take(i as int)[k].0) == 6;
                    assert(added@.take(i + 1)[k] == added@.take(i as int)[k]);
                }
                if lists_king(added@.take(i + 1)) {
                    let k = choose|k: int| 0 <= k < i + 1 && kind_of(#[trigger] added@.take(i + 1)[k].0) == 6;
                    if k < i {
                        assert(added@.take(i as int)[k] == added@.take(i + 1)[k]);
                    }
                }
            }
            i += 1;
        }
        proof {
            assert(removed@.take(removed@.len() as int) =~= removed@);
            assert(added@.take(added@.len() as int) =~= added@);
        }
        self.board.remove_listed(removed);
        self.board.add_listed(added);
        let ghost new_pos: Position = (self.board.pieces@, self.board.king_squares@);
        let ghost before = self.accumulator_stack.states();
        let ghost d = self.accumulator_stack.depth();
        if king_moved {
            self.refresh_accumulators();
        } else {
            proof {
                assert forall|p: int| 0 <= p < 2 implies #[trigger] self.board.king_squares@[p] == old_kings[p] by {
                    assert forall|k: int| 0 <= k < added@.len() implies !(kind_of(#[trigger] added@[k].0) == 6
                        && super::board::side_of(added@[k].0) == p) by {}
                    lemma_kings_all(old_kings, added@, added@.len() as int, p);
                }
                assert forall|k: int| 0 <= k < added_mapped@.len() implies (#[trigger] added_mapped@[k]).0 < 64
                    && added_mapped@[k].1 < 16 by {}
                assert forall|k: int| 0 <= k < removed_mapped@.len() implies (#[trigger] removed_mapped@[k]).0 < 64
                    && removed_mapped@[k].1 < 16 by {}
            }
            let nets = self.networks.as_ref();
            let ksq = self.board.king_squares;
            let state = self.accumulator_stack.mut_latest();
            state.acc_big.update_with_ksq(added_mapped.as_slice(), removed_mapped.as_slice(), ksq, &nets.big_net.feature_transformer);
            state.acc_small.update_with_ksq(added_mapped.as_slice(), removed_mapped.as_slice(), ksq,
                &nets.small_net.feature_transformer);
        }
        proof {
            if old(self).synced() && edit_ok(old_pieces, removed@, added@) {
                let nets = self.networks.nets();
                let ft_big = &nets.big_net.feature_transformer;
                let ft_small = &nets.small_net.feature_transformer;
                let top = d - 1;
                assert(before[top].computed == [true, true]);
                if !king_moved {
                    lemma_edit_exchange(old_pieces, removed@, added@);
                    assert forall|p: int| 0 <= p < 2 implies ply_matches(self.latest(), new_pos, p, ft_big, ft_small) by {
                        assert(ply_matches(before[top], self.history@[top], p, ft_big, ft_small));
                        lemma_incremental_matches_refresh(ft_big, 3072, p, old_kings[p] as int, board_list(old_pieces, 64),
                            board_list(new_pos.0, 64), coded(added@), coded(removed@), before[top].acc_big.accumulation[p]@,
                            before[top].acc_big.psqt_accumulation[p], self.latest().acc_big.accumulation[p]@,
                            self.latest().acc_big.psqt_accumulation[p]);
                        lemma_incremental_matches_refresh(ft_small, 128, p, old_kings[p] as int, board_list(old_pieces, 64),
                            board_list(new_pos.0, 64), coded(added@), coded(removed@), before[top].acc_small.accumulation[p]@,
                            before[top].acc_small.psqt_accumulation[p], self.latest().acc_small.accumulation[p]@,
                            self.latest().acc_small.psqt_accumulation[p]);
                    }
                }
                assert(!king_moved ==> forall|p: int| 0 <= p < 2 ==> #[trigger] ply_matches(self.latest(), new_pos, p, ft_big,
                    ft_small));
            }
        }
        let ghost lat = self.latest();
        proof {
            if old(self).synced() && edit_ok(old_pieces, removed@, added@) {
                let nets = self.networks.nets();
                assert(forall|p: int| 0 <= p < 2 ==> #[trigger] ply_matches(lat, new_pos, p,
                    &nets.big_net.feature_transformer, &nets.small_net.feature_transformer));
            }
        }
        self.history = Ghost(self.history@.update(self.accumulator_stack.depth() - 1, new_pos));
        proof {
            if old(self).synced() && edit_ok(old_pieces, removed@, added@) {
                let nets = self.networks.nets();
                let ft_big = &nets.big_net.feature_transformer;
                let ft_small = &nets.small_net.feature_transformer;
                let states = self.accumulator_stack.states();
                assert forall|k: int, p: int| 0 <= k < d && 0 <= p < 2 && states[k].computed[p]
                    implies ply_matches(states[k], self.history@[k], p, ft_big, ft_small) by {
                    if k != d - 1 {
                        assert(states[k] == before[k]);
                    } else {
                        assert(states[k] == self.latest());
                        assert(self.history@[k] == new_pos);
                        assert(nets == self.nets());
                        assert(states[k] == lat);
                        assert(ply_matches(lat, new_pos, p, ft_big, ft_small));
                    }
                }
                assert forall|k: int| 0 <= k < d implies position_ok(#[trigger] self.history@[k]) by {}
                assert forall|k: int| 0 <= k < d implies (#[trigger] states[k]).computed == [true, true] by {
                    if k != d - 1 {
                        assert(states[k] == before[k]);
                    }
                }
            }
        }
    }
}

} // verus!
