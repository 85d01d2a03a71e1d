//! How the accumulators of the plies on the stack relate to the boards of those plies.
use vstd::prelude::*;
use vstd::multiset::Multiset;
use crate::accumulator::{matches_pieces, lemma_sum_over_permutation, feature_sum, psqt_sum, column_weight, bucket_weight,
    lemma_incremental_matches_refresh, leading, updated_from};
use crate::accumulator_stack::{AccumulatorStack, AccumulatorState, dirty_added, dirty_removed};
use crate::accumulator_stack::updates::{king_moved, last_usable, side_brought_up, step_applied, same_but_side,
    lemma_last_usable_range, lemma_dirty_lists_valid};
use crate::bitboard::{has_bit, lemma_bit_and};
use crate::feature_transformer::FeatureTransformer;
use crate::finny_tables::bitsets::{bb_pieces, board_masks, slot_mask, slot_of_code, lemma_slots_count};
use crate::piece_list::board_list;
use crate::types::{piece_code, Piece};
use super::board::{side_of, kind_of};

verus! {

/// A board and the recorded king squares of both sides.
pub type Position = (Seq<Piece>, Seq<usize>);

/// Both networks' side-`p` accumulators of `s` are what a refresh over the pieces of `h` gives,
/// with `p`'s king on its recorded square.
pub open spec fn ply_matches(s: AccumulatorState, h: Position, p: int, ft_big: &FeatureTransformer, ft_small: &FeatureTransformer) -> bool {
    &&& matches_pieces(s.acc_big.accumulation[p]@, s.acc_big.psqt_accumulation[p], ft_big, 3072, p, h.1[p] as int, board_list(h.0, 64))
    &&& matches_pieces(s.acc_small.accumulation[p]@, s.acc_small.psqt_accumulation[p], ft_small, 128, p, h.1[p] as int, board_list(h.0, 64))
}

/// The move recorded in `dp` turns the pieces of `prev` into those of `cur`, and leaves side
/// `p`'s king square alone unless it moves that king.
pub open spec fn transition_ok(prev: Position, dp: crate::accumulator_stack::DirtyPiece, cur: Position, p: int) -> bool {
    &&& (board_list(prev.0, 64) + dirty_added(dp)).to_multiset() == (board_list(cur.0, 64) + dirty_removed(dp)).to_multiset()
    &&& (!king_moved(dp, p) ==> cur.1[p] == prev.1[p])
}

/// A position is a full board with two king squares on the board.
pub open spec fn position_ok(h: Position) -> bool {
    &&& h.0.len() == 64
    &&& h.1.len() == 2
    &&& h.1[0] < 64
    &&& h.1[1] < 64
}

/// The live plies follow the positions in `history`: every computed side matches its ply's
/// position, and every ply not computed for a side is reached from the ply below by its move.
pub open spec fn tracks(states: Seq<AccumulatorState>, depth: int, history: Seq<Position>, ft_big: &FeatureTransformer,
    ft_small: &FeatureTransformer) -> bool
{
    &&& history.len() >= depth
    &&& depth <= states.len()
    &&& forall|i: int| 0 <= i < depth ==> position_ok(#[trigger] history[i])
    &&& forall|i: int, p: int| #![trigger states[i].computed[p]]
        0 <= i < depth && 0 <= p < 2 && states[i].computed[p] ==> ply_matches(states[i], history[i], p, ft_big, ft_small)
    &&& forall|i: int, p: int| #![trigger states[i].computed[p]]
        0 < i < depth && 0 <= p < 2 && !states[i].computed[p] ==> transition_ok(history[i - 1], states[i].dirty_piece, history[i], p)
}

/// How often the listing of the first `n` squares names `(v, c)`: once when square `v` is
/// among them and holds the piece of code `c`.
pub proof fn lemma_board_list_count(b: Seq<Piece>, n: int, v: (usize, usize))
    requires
        0 <= n <= b.len(),
        n <= 64,
    ensures
        board_list(b, n).to_multiset().count(v)
            == (if v.0 < n && b[v.0 as int] != Piece::NoPiece && piece_code(b[v.0 as int]) == v.1 { 1nat } else { 0nat }),
    decreases n,
{
    broadcast use vstd::seq_lib::group_to_multiset_ensures;
    broadcast use vstd::multiset::group_multiset_axioms;
    if n == 0 {
        assert(board_list(b, 0) =~= Seq::<(usize, usize)>::empty());
        assert(Seq::<(usize, usize)>::empty().to_multiset() =~= Multiset::empty());
    } else {
        lemma_board_list_count(b, n - 1, v);
        let prev = board_list(b, n - 1);
        if b[n - 1] != Piece::NoPiece {
            let x = ((n - 1) as usize, piece_code(b[n - 1]));
            assert(board_list(b, n) == prev.push(x));
            assert(prev.push(x).to_multiset() =~= prev.to_multiset().insert(x));
            if v == x {
                assert(v.0 == n - 1);
            } else {
                assert(v.0 != n - 1 || v.1 != piece_code(b[n - 1]));
            }
        } else {
            assert(board_list(b, n) == prev);
        }
    }
}

/// The pieces of bitboards kept in step with a board are the pieces of the board.
pub proof fn lemma_bb_pieces_of_board(b: Seq<Piece>, color_bb: [u64; 2], type_bb: [u64; 6])
    requires
        b.len() == 64,
        forall|c: int, s: int| 0 <= c < 2 && 0 <= s < 64 ==> (#[trigger] has_bit(color_bb[c], s as u64) <==> side_of(b[s]) == c),
        forall|t: int, s: int| 0 <= t < 6 && 0 <= s < 64 ==> (#[trigger] has_bit(type_bb[t], s as u64) <==> kind_of(b[s]) == t + 1),
    ensures
        bb_pieces(color_bb, type_bb).to_multiset() == board_list(b, 64).to_multiset(),
{
    let m = board_masks(color_bb, type_bb);
    assert forall|v: (usize, usize)| #![trigger bb_pieces(color_bb, type_bb).to_multiset().count(v)]
        bb_pieces(color_bb, type_bb).to_multiset().count(v) == board_list(b, 64).to_multiset().count(v) by {
        lemma_slots_count(m, 12, v);
        lemma_board_list_count(b, 64, v);
        let k = slot_of_code(v.1);
        if v.0 < 64 {
            let s = v.0 as int;
            if 0 <= k < 12 {
                lemma_bit_and(color_bb[k / 6], type_bb[k % 6], s as u64);
                assert(m(k) == slot_mask(color_bb, type_bb, k));
                assert(has_bit(color_bb[k / 6], s as u64) == (side_of(b[s]) == k / 6));
                assert(has_bit(type_bb[k % 6], s as u64) == (kind_of(b[s]) == k % 6 + 1));
            }
        }
    }
    assert(bb_pieces(color_bb, type_bb).to_multiset() =~= board_list(b, 64).to_multiset());
}

/// Accumulators that match one listing of some pieces match every listing of the same pieces.
pub proof fn lemma_matches_permutation(acc: Seq<i16>, psqt: [i32; 8], ft: &FeatureTransformer, size: int, p: int, ksq: int,
    a: Seq<(usize, usize)>, b: Seq<(usize, usize)>)
    requires
        matches_pieces(acc, psqt, ft, size, p, ksq, a),
        a.to_multiset() == b.to_multiset(),
    ensures
        matches_pieces(acc, psqt, ft, size, p, ksq, b),
{
    assert forall|j: int| 0 <= j < size implies feature_sum(ft.weights@, size, p, ksq, a, j) == feature_sum(ft.weights@, size, p, ksq, b, j) by {
        lemma_sum_over_permutation(a, b, column_weight(ft.weights@, size, p, ksq, j));
    }
    assert forall|k: int| 0 <= k < 8 implies psqt_sum(ft.psqt_weights@, p, ksq, a, k) == psqt_sum(ft.psqt_weights@, p, ksq, b, k) by {
        lemma_sum_over_permutation(a, b, bucket_weight(ft.psqt_weights@, p, ksq, k));
    }
}

/// A side brought up to date by one step from a ply that matches its position matches its own.
proof fn lemma_step_matches(target: AccumulatorState, source: AccumulatorState, p: int, ksq: int, ft_big: &FeatureTransformer,
    ft_small: &FeatureTransformer, added: Seq<(usize, usize)>, removed: Seq<(usize, usize)>, hs: Position, ht: Position)
    requires
        step_applied(target, source, p, ksq, ft_big, ft_small, added, removed),
        added.len() <= 3,
        removed.len() <= 3,
        ply_matches(source, hs, p, ft_big, ft_small),
        hs.1[p] == ksq,
        ht.1[p] == ksq,
        (board_list(hs.0, 64) + added).to_multiset() == (board_list(ht.0, 64) + removed).to_multiset(),
    ensures
        ply_matches(target, ht, p, ft_big, ft_small),
{
    assert(leading(added) == added);
    assert(leading(removed) == removed);
    lemma_incremental_matches_refresh(ft_big, 3072, p, ksq, board_list(hs.0, 64), board_list(ht.0, 64), added, removed,
        source.acc_big.accumulation[p]@, source.acc_big.psqt_accumulation[p], target.acc_big.accumulation[p]@,
        target.acc_big.psqt_accumulation[p]);
    lemma_incremental_matches_refresh(ft_small, 128, p, ksq, board_list(hs.0, 64), board_list(ht.0, 64), added, removed,
        source.acc_small.accumulation[p]@, source.acc_small.psqt_accumulation[p], target.acc_small.accumulation[p]@,
        target.acc_small.psqt_accumulation[p]);
}

/// Bringing side `p` of the current ply up to date keeps the plies following their positions,
/// when the king square used is the current position's and the cache bitboards hold its pieces;
/// afterwards every ply from the last usable one up is computed for `p`.
pub proof fn lemma_bring_up_tracks(fin: Seq<AccumulatorState>, old: Seq<AccumulatorState>, top: int, p: int, ksq: int,
    ft_big: &FeatureTransformer, ft_small: &FeatureTransformer, color_bb: [u64; 2], type_bb: [u64; 6], history: Seq<Position>)
    requires
        1 <= top,
        0 <= p < 2,
        tracks(old, top, history, ft_big, ft_small),
        forall|i: int| 0 <= i < old.len() ==> (#[trigger] old[i]).wf(),
        side_brought_up(fin, old, top, p, ksq, ft_big, ft_small, color_bb, type_bb),
        ksq == history[top - 1].1[p],
        bb_pieces(color_bb, type_bb).to_multiset() == board_list(history[top - 1].0, 64).to_multiset(),
    ensures
        tracks(fin, top, history, ft_big, ft_small),
        forall|i: int| 0 <= i < top && (#[trigger] old[i]).computed[p] ==> fin[i].computed[p],
        forall|i: int| last_usable(old, top, p) <= i < top ==> (#[trigger] fin[i]).computed[p],
        forall|i: int| 0 <= i < top ==> same_but_side(#[trigger] fin[i], old[i], p),
{
    let l = last_usable(old, top, p);
    lemma_last_usable_range(old, top, p);
    // The king square of `p` stays the same from ply `l` up.
    assert forall|i: int| l <= i < top implies #[trigger] history[i].1[p] == ksq by {
        lemma_kings_steady(old, history, top, p, l, i, ft_big, ft_small);
    }
    if old[l].computed[p] {
        assert forall|i: int| l <= i < top implies ply_matches(#[trigger] fin[i], history[i], p, ft_big, ft_small) by {
            lemma_forward_matches(fin, old, top, p, ksq, ft_big, ft_small, history, l, i);
        }
    } else {
        assert(ply_matches(fin[top - 1], history[top - 1], p, ft_big, ft_small)) by {
            lemma_matches_permutation(fin[top - 1].acc_big.accumulation[p]@, fin[top - 1].acc_big.psqt_accumulation[p], ft_big, 3072, p,
                ksq, bb_pieces(color_bb, type_bb), board_list(history[top - 1].0, 64));
            lemma_matches_permutation(fin[top - 1].acc_small.accumulation[p]@, fin[top - 1].acc_small.psqt_accumulation[p], ft_small, 128, p,
                ksq, bb_pieces(color_bb, type_bb), board_list(history[top - 1].0, 64));
        }
        assert forall|i: int| l <= i < top implies ply_matches(#[trigger] fin[i], history[i], p, ft_big, ft_small) by {
            lemma_backward_matches(fin, old, top, p, ksq, ft_big, ft_small, history, l, i);
        }
    }
    assert forall|i: int, q: int| #![trigger fin[i].computed[q]]
        0 <= i < top && 0 <= q < 2 && fin[i].computed[q] implies ply_matches(fin[i], history[i], q, ft_big, ft_small) by {
        assert(same_but_side(fin[i], old[i], p));
        if q != p {
            assert(1 - p == q);
            assert(old[i].computed[q]);
            assert(ply_matches(old[i], history[i], q, ft_big, ft_small));
        } else if !(l <= i < top) {
            assert(fin[i] == old[i]);
        }
    }
    assert forall|i: int, q: int| #![trigger fin[i].computed[q]]
        0 < i < top && 0 <= q < 2 && !fin[i].computed[q] implies transition_ok(history[i - 1], fin[i].dirty_piece, history[i], q) by {
        assert(same_but_side(fin[i], old[i], p));
        if q != p {
            assert(1 - p == q);
        } else if !(l <= i < top) {
            assert(fin[i] == old[i]);
        }
    }
    assert forall|i: int| 0 <= i < top && (#[trigger] old[i]).computed[p] implies fin[i].computed[p] by {
        if !(l <= i < top) {
            assert(fin[i] == old[i]);
        }
    }
}

/// Incremental updates of the stack agree with full refreshes: when the live plies of a stack
/// follow the positions in `history`, and the king squares and cache bitboards that
/// `update_incremental` is given are those of the current position, the update leaves the
/// current ply computed for both sides with what a refresh over the current position gives, and
/// the live plies still follow `history`.
pub proof fn lemma_stack_update_matches_refresh(before: AccumulatorStack, after: AccumulatorStack, king_squares: [usize; 2],
    ft_big: &FeatureTransformer, ft_small: &FeatureTransformer, color_bb: [u64; 2], type_bb: [u64; 6], history: Seq<Position>)
    requires
        before.wf(),
        tracks(before.states(), before.depth(), history, ft_big, ft_small),
        king_squares[0] == history[before.depth() - 1].1[0],
        king_squares[1] == history[before.depth() - 1].1[1],
        bb_pieces(color_bb, type_bb).to_multiset() == board_list(history[before.depth() - 1].0, 64).to_multiset(),
        after.depth() == before.depth(),
        exists|mid: Seq<AccumulatorState>| {
            &&& side_brought_up(mid, before.states(), before.depth(), 0, king_squares[0] as int, ft_big, ft_small, color_bb,
                type_bb)
            &&& side_brought_up(after.states(), mid, before.depth(), 1, king_squares[1] as int, ft_big, ft_small, color_bb,
                type_bb)
        },
    ensures
        tracks(after.states(), after.depth(), history, ft_big, ft_small),
        after.live().last().computed == [true, true],
        forall|p: int| 0 <= p < 2 ==> #[trigger] ply_matches(after.live().last(), history[after.depth() - 1], p, ft_big,
            ft_small),
{
    let d = before.depth();
    let old = before.states();
    let fin = after.states();
    let mid = choose|mid: Seq<AccumulatorState>| {
        &&& side_brought_up(mid, old, d, 0, king_squares[0] as int, ft_big, ft_small, color_bb, type_bb)
        &&& side_brought_up(fin, mid, d, 1, king_squares[1] as int, ft_big, ft_small, color_bb, type_bb)
    };
    lemma_bring_up_tracks(mid, old, d, 0, king_squares[0] as int, ft_big, ft_small, color_bb, type_bb, history);
    assert forall|i: int| 0 <= i < mid.len() implies (#[trigger] mid[i]).wf() by {
        assert(same_but_side(mid[i], old[i], 0));
    }
    lemma_bring_up_tracks(fin, mid, d, 1, king_squares[1] as int, ft_big, ft_small, color_bb, type_bb, history);
    assert(same_but_side(fin[d - 1], mid[d - 1], 1));
    assert(fin[d - 1].computed[0] && fin[d - 1].computed[1]);
    assert(fin[d - 1].computed =~= [true, true]);
    assert(after.live().last() == fin[d - 1]);
    assert forall|p: int| 0 <= p < 2 implies #[trigger] ply_matches(after.live().last(), history[d - 1], p, ft_big,
        ft_small) by {
        assert(fin[d - 1].computed[p]);
    }
}

/// From the last usable ply up, no move changes side `p`'s king square.
proof fn lemma_kings_steady(old: Seq<AccumulatorState>, history: Seq<Position>, top: int, p: int, l: int, i: int,
    ft_big: &FeatureTransformer, ft_small: &FeatureTransformer)
    requires
        tracks(old, top, history, ft_big, ft_small),
        0 <= p < 2,
        l == last_usable(old, top, p),
        0 <= l <= i < top,
        forall|k: int| l < k < top ==> !(#[trigger] old[k]).computed[p] && !king_moved(old[k].dirty_piece, p),
    ensures
        history[i].1[p] == history[top - 1].1[p],
    decreases top - i,
{
    if i < top - 1 {
        lemma_kings_steady(old, history, top, p, l, i + 1, ft_big, ft_small);
        assert(!old[i + 1].computed[p]);
        assert(transition_ok(history[i], old[i + 1].dirty_piece, history[i + 1], p));
    }
}

/// Forward updates from a matching last usable ply match every ply above it.
proof fn lemma_forward_matches(fin: Seq<AccumulatorState>, old: Seq<AccumulatorState>, top: int, p: int, ksq: int,
    ft_big: &FeatureTransformer, ft_small: &FeatureTransformer, history: Seq<Position>, l: int, i: int)
    requires
        tracks(old, top, history, ft_big, ft_small),
        forall|k: int| 0 <= k < old.len() ==> (#[trigger] old[k]).wf(),
        0 <= p < 2,
        l == last_usable(old, top, p),
        0 <= l <= i < top,
        old[l].computed[p],
        fin[l] == old[l],
        forall|k: int| l < k < top ==> step_applied(#[trigger] fin[k], fin[k - 1], p, ksq, ft_big, ft_small,
            dirty_added(fin[k].dirty_piece), dirty_removed(fin[k].dirty_piece)),
        forall|k: int| 0 <= k < fin.len() ==> same_but_side(#[trigger] fin[k], old[k], p),
        fin.len() == old.len(),
        forall|k: int| l < k < top ==> !(#[trigger] old[k]).computed[p] && !king_moved(old[k].dirty_piece, p),
        forall|k: int| l <= k < top ==> #[trigger] history[k].1[p] == ksq,
    ensures
        ply_matches(fin[i], history[i], p, ft_big, ft_small),
    decreases i - l,
{
    if i > l {
        lemma_forward_matches(fin, old, top, p, ksq, ft_big, ft_small, history, l, i - 1);
        let dp = fin[i].dirty_piece;
        assert(same_but_side(fin[i], old[i], p));
        assert(!old[i].computed[p]);
        assert(transition_ok(history[i - 1], old[i].dirty_piece, history[i], p));
        lemma_dirty_lists_valid(dp, dp.dirty_num as int);
        assert(history[i - 1].1[p] == ksq && history[i].1[p] == ksq);
        lemma_step_matches(fin[i], fin[i - 1], p, ksq, ft_big, ft_small, dirty_added(dp), dirty_removed(dp), history[i - 1], history[i]);
    }
}

/// Backward updates from a matching current ply match every ply down to the last usable one.
proof fn lemma_backward_matches(fin: Seq<AccumulatorState>, old: Seq<AccumulatorState>, top: int, p: int, ksq: int,
    ft_big: &FeatureTransformer, ft_small: &FeatureTransformer, history: Seq<Position>, l: int, i: int)
    requires
        tracks(old, top, history, ft_big, ft_small),
        forall|k: int| 0 <= k < old.len() ==> (#[trigger] old[k]).wf(),
        0 <= p < 2,
        l == last_usable(old, top, p),
        0 <= l <= i < top,
        ply_matches(fin[top - 1], history[top - 1], p, ft_big, ft_small),
        forall|k: int| l <= k < top - 1 ==> step_applied(#[trigger] fin[k], fin[k + 1], p, ksq, ft_big, ft_small,
            dirty_removed(fin[k + 1].dirty_piece), dirty_added(fin[k + 1].dirty_piece)),
        forall|k: int| 0 <= k < fin.len() ==> same_but_side(#[trigger] fin[k], old[k], p),
        fin.len() == old.len(),
        forall|k: int| l < k < top ==> !(#[trigger] old[k]).computed[p] && !king_moved(old[k].dirty_piece, p),
        forall|k: int| l <= k < top ==> #[trigger] history[k].1[p] == ksq,
    ensures
        ply_matches(fin[i], history[i], p, ft_big, ft_small),
    decreases top - i,
{
    if i < top - 1 {
        lemma_backward_matches(fin, old, top, p, ksq, ft_big, ft_small, history, l, i + 1);
        let dp = fin[i + 1].dirty_piece;
        assert(same_but_side(fin[i + 1], old[i + 1], p));
        assert(!old[i + 1].computed[p]);
        assert(transition_ok(history[i], old[i + 1].dirty_piece, history[i + 1], p));
        lemma_dirty_lists_valid(dp, dp.dirty_num as int);
        assert(history[i].1[p] == ksq && history[i + 1].1[p] == ksq);
        lemma_step_matches(fin[i], fin[i + 1], p, ksq, ft_big, ft_small, dirty_removed(dp), dirty_added(dp), history[i + 1], history[i]);
    }
}

} // verus!
