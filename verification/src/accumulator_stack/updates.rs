//! Bringing the current ply's accumulators up to date, from an earlier ply or from the caches.
use vstd::prelude::*;
use super::{AccumulatorStack, AccumulatorState, DirtyPiece, dirty_added, dirty_removed, added_upto, removed_upto};
use crate::accumulator::{Accumulator, ft_ready, valid_pieces, matches_pieces, columns_updated, psqt_updated, leading};
use crate::feature_transformer::FeatureTransformer;
use crate::finny_tables::{FinnyTables, CACHE_ENTRIES};
use crate::finny_tables::bitsets::bb_pieces;
use crate::finny_tables::refresh::update_accumulator_refresh_cache;

verus! {

/// The king code of side `p`: 6 for White, 14 for Black.
pub open spec fn king_code(p: int) -> usize {
    if p == 0 { 6 } else { 14 }
}

/// The move recorded in `dp` puts side `p`'s king down somewhere.
pub open spec fn king_moved(dp: DirtyPiece, p: int) -> bool {
    exists|i: int| 0 <= i < dp.dirty_num && #[trigger] dp.piece_to[i] == king_code(p)
}

/// The ply from which side `p` is brought up to date: scanning down from ply `top - 1` to ply 1,
/// the first that is computed for `p` or whose move moved `p`'s king; the root otherwise.
pub open spec fn last_usable(states: Seq<AccumulatorState>, top: int, p: int) -> int
    decreases top,
{
    if top <= 1 {
        0
    } else if states[top - 1].computed[p] || king_moved(states[top - 1].dirty_piece, p) {
        top - 1
    } else {
        last_usable(states, top - 1, p)
    }
}

/// Side `p` of `target` follows from side `p` of `source` in both networks by the listed
/// changes (the columns by the first three of each list), and is computed.
pub open spec fn step_applied(target: AccumulatorState, source: AccumulatorState, p: int, ksq: int, ft_big: &FeatureTransformer,
    ft_small: &FeatureTransformer, added: Seq<(usize, usize)>, removed: Seq<(usize, usize)>) -> bool
{
    &&& columns_updated(target.acc_big.accumulation[p]@, source.acc_big.accumulation[p]@, ft_big, 3072, p, ksq, leading(added), leading(removed))
    &&& psqt_updated(target.acc_big.psqt_accumulation[p], source.acc_big.psqt_accumulation[p], ft_big, p, ksq, added, removed)
    &&& columns_updated(target.acc_small.accumulation[p]@, source.acc_small.accumulation[p]@, ft_small, 128, p, ksq, leading(added), leading(removed))
    &&& psqt_updated(target.acc_small.psqt_accumulation[p], source.acc_small.psqt_accumulation[p], ft_small, p, ksq, added, removed)
    &&& target.computed[p]
}

/// `a` and `b` agree everywhere but on side `p`'s values and flags.
pub open spec fn same_but_side(a: AccumulatorState, b: AccumulatorState, p: int) -> bool {
    &&& a.dirty_piece == b.dirty_piece
    &&& a.rule50 == b.rule50
    &&& a.computed[1 - p] == b.computed[1 - p]
    &&& a.acc_big.accumulation[1 - p] == b.acc_big.accumulation[1 - p]
    &&& a.acc_big.psqt_accumulation[1 - p] == b.acc_big.psqt_accumulation[1 - p]
    &&& a.acc_big.computed[1 - p] == b.acc_big.computed[1 - p]
    &&& a.acc_small.accumulation[1 - p] == b.acc_small.accumulation[1 - p]
    &&& a.acc_small.psqt_accumulation[1 - p] == b.acc_small.psqt_accumulation[1 - p]
    &&& a.acc_small.computed[1 - p] == b.acc_small.computed[1 - p]
    &&& a.wf() == b.wf()
}

/// What bringing side `p` up to date did to the states, with `fin` after and `old` before, the
/// current ply at `top - 1`, the king of `p` on `ksq`, and the cache refreshing to the pieces of
/// `color_bb` and `type_bb`.
pub open spec fn side_brought_up(fin: Seq<AccumulatorState>, old: Seq<AccumulatorState>, top: int, p: int, ksq: int,
    ft_big: &FeatureTransformer, ft_small: &FeatureTransformer, color_bb: [u64; 2], type_bb: [u64; 6]) -> bool
{
    let l = last_usable(old, top, p);
    &&& fin.len() == old.len()
    &&& forall|i: int| 0 <= i < fin.len() ==> same_but_side(#[trigger] fin[i], old[i], p)
    &&& forall|i: int| 0 <= i < fin.len() && !(l <= i < top) ==> #[trigger] fin[i] == old[i]
    &&& fin[top - 1].computed[p]
    &&& if old[l].computed[p] {
        &&& fin[l] == old[l]
        &&& forall|i: int| l < i < top ==> step_applied(#[trigger] fin[i], fin[i - 1], p, ksq, ft_big, ft_small,
            dirty_added(fin[i].dirty_piece), dirty_removed(fin[i].dirty_piece))
    } else {
        &&& matches_pieces(fin[top - 1].acc_big.accumulation[p]@, fin[top - 1].acc_big.psqt_accumulation[p], ft_big, 3072, p, ksq,
            bb_pieces(color_bb, type_bb))
        &&& matches_pieces(fin[top - 1].acc_small.accumulation[p]@, fin[top - 1].acc_small.psqt_accumulation[p], ft_small, 128, p, ksq,
            bb_pieces(color_bb, type_bb))
        &&& forall|i: int| l <= i < top - 1 ==> step_applied(#[trigger] fin[i], fin[i + 1], p, ksq, ft_big, ft_small,
            dirty_removed(fin[i + 1].dirty_piece), dirty_added(fin[i + 1].dirty_piece))
    }
}

/// The listed changes of a well-formed move are valid pieces.
pub proof fn lemma_dirty_lists_valid(dp: DirtyPiece, n: int)
    requires
        dp.wf(),
        0 <= n <= dp.dirty_num,
    ensures
        valid_pieces(added_upto(dp, n)),
        valid_pieces(removed_upto(dp, n)),
        added_upto(dp, n).len() <= n,
        removed_upto(dp, n).len() <= n,
    decreases n,
{
    if n > 0 {
        lemma_dirty_lists_valid(dp, n - 1);
        assert(dp.from[n - 1] < 64 && dp.to[n - 1] < 64 && dp.piece_from[n - 1] < 16 && dp.piece_to[n - 1] < 16);
    }
}

/// Side `p` only: states agreeing but on side `p` have the same last usable ply for the other side.
pub proof fn lemma_last_usable_frame(a: Seq<AccumulatorState>, b: Seq<AccumulatorState>, top: int, p: int)
    requires
        0 <= p < 2,
        top <= a.len(),
        a.len() == b.len(),
        forall|i: int| 0 <= i < a.len() ==> same_but_side(#[trigger] a[i], b[i], 1 - p),
    ensures
        last_usable(a, top, p) == last_usable(b, top, p),
    decreases top,
{
    if top > 1 {
        assert(same_but_side(a[top - 1], b[top - 1], 1 - p));
        lemma_last_usable_frame(a, b, top - 1, p);
    }
}

/// The last usable ply lies below the top (or is the root).
pub proof fn lemma_last_usable_range(s: Seq<AccumulatorState>, top: int, p: int)
    requires
        1 <= top,
    ensures
        0 <= last_usable(s, top, p) < top,
        last_usable(s, top, p) > 0 ==> s[last_usable(s, top, p)].computed[p]
            || king_moved(s[last_usable(s, top, p)].dirty_piece, p),
        forall|i: int| last_usable(s, top, p) < i < top ==> !(#[trigger] s[i]).computed[p] && !king_moved(s[i].dirty_piece, p),
    decreases top,
{
    if top > 1 {
        lemma_last_usable_range(s, top - 1, p);
    }
}

impl AccumulatorStack {
    /// Makes the root the only live ply, with rule-50 counter `rule50`, and fills both sides of
    /// both networks' root accumulators from the caches for the given bitboards.
    pub fn reset_with_refresh(&mut self, king_squares: [usize; 2], ft_big: &FeatureTransformer, ft_small: &FeatureTransformer,
        caches: &mut FinnyTables, current_color_bb: [u64; 2], current_type_bb: [u64; 6], rule50: i32)
        requires
            old(self).wf(),
            king_squares[0] < 64,
            king_squares[1] < 64,
            ft_ready(ft_big, 3072),
            ft_ready(ft_small, 128),
            old(caches).consistent(ft_big, ft_small),
        ensures
            final(self).wf(),
            final(caches).consistent(ft_big, ft_small),
            final(self).depth() == 1,
            final(self).states().len() == old(self).states().len(),
            forall|i: int| 1 <= i < final(self).states().len() ==> #[trigger] final(self).states()[i] == old(self).states()[i],
            ({
                let r = final(self).states()[0];
                &&& forall|p: int| 0 <= p < 2 ==> matches_pieces(#[trigger] r.acc_big.accumulation[p]@, r.acc_big.psqt_accumulation[p],
                    ft_big, 3072, p, king_squares[p] as int, bb_pieces(current_color_bb, current_type_bb))
                &&& forall|p: int| 0 <= p < 2 ==> matches_pieces(#[trigger] r.acc_small.accumulation[p]@, r.acc_small.psqt_accumulation[p],
                    ft_small, 128, p, king_squares[p] as int, bb_pieces(current_color_bb, current_type_bb))
                &&& r.computed == [true, true]
                &&& r.acc_big.computed == [true, true]
                &&& r.acc_small.computed == [true, true]
                &&& r.rule50 == rule50
                &&& r.dirty_piece.dirty_num == 0
            }),
            final(self).live() == seq![final(self).states()[0]],
    {
        self.current_idx = 1;
        let mut root = self.stack.remove(0);
        root.clear_root(rule50);
        proof {
            assert(2 * king_squares[0] + 0 < CACHE_ENTRIES && 2 * king_squares[1] + 1 < CACHE_ENTRIES);
        }
        update_accumulator_refresh_cache(ft_big, &mut root.acc_big, &mut caches.cache_big, 0, king_squares[0],
            &current_color_bb, &current_type_bb);
        update_accumulator_refresh_cache(ft_big, &mut root.acc_big, &mut caches.cache_big, 1, king_squares[1],
            &current_color_bb, &current_type_bb);
        update_accumulator_refresh_cache(ft_small, &mut root.acc_small, &mut caches.cache_small, 0, king_squares[0],
            &current_color_bb, &current_type_bb);
        update_accumulator_refresh_cache(ft_small, &mut root.acc_small, &mut caches.cache_small, 1, king_squares[1],
            &current_color_bb, &current_type_bb);
        root.computed = [true, true];
        self.stack.insert(0, root);
        proof {
            assert(self.states()[0] == root);
            assert forall|i: int| 1 <= i < self.states().len() implies #[trigger] self.states()[i] == old(self).states()[i] by {}
            assert(self.live() =~= seq![self.states()[0]]);
        }
    }

    /// Whether the move of ply `idx` moved side `perspective`'s king.
    fn requires_refresh(&self, idx: usize, perspective: usize) -> (r: bool)
        requires
            self.wf(),
            idx < self.states().len(),
            perspective < 2,
        ensures
            r == king_moved(self.states()[idx as int].dirty_piece, perspective as int),
    {
        let dp = &self.stack[idx].dirty_piece;
        assert(*dp == self.states()[idx as int].dirty_piece);
        let mut i: usize = 0;
        while i < dp.dirty_num
            invariant
                perspective < 2,
                dp.wf(),
                idx < self.states().len(),
                *dp == self.states()[idx as int].dirty_piece,
                i <= dp.dirty_num,
                forall|k: int| 0 <= k < i ==> #[trigger] dp.piece_to[k] != king_code(perspective as int),
            decreases dp.dirty_num - i,
        {
            let pc = dp.piece_to[i];
            if perspective == 0 && pc == 6 {
                assert(dp.piece_to[i as int] == king_code(perspective as int));
                return true;
            }
            if perspective == 1 && pc == 14 {
                assert(dp.piece_to[i as int] == king_code(perspective as int));
                return true;
            }
            i += 1;
        }
        false
    }

    /// The ply from which side `perspective` is brought up to date.
    fn find_last_usable_accumulator(&self, perspective: usize) -> (r: usize)
        requires
            self.wf(),
            perspective < 2,
        ensures
            r == last_usable(self.states(), self.depth(), perspective as int),
    {
        let mut idx = self.current_idx;
        while idx > 1
            invariant
                self.wf(),
                perspective < 2,
                1 <= idx <= self.depth(),
                last_usable(self.states(), self.depth(), perspective as int) == last_usable(self.states(), idx as int, perspective as int),
            decreases idx,
        {
            let k = idx - 1;
            if self.stack[k].computed[perspective] {
                return k;
            }
            if self.requires_refresh(k, perspective) {
                return k;
            }
            idx = k;
        }
        0
    }

    /// Brings side `P` of plies `begin + 1 .. depth` up to date, each from the ply below.
    fn forward_update_incremental<const P: usize>(&mut self, begin: usize, ksq: usize, ft_big: &FeatureTransformer,
        ft_small: &FeatureTransformer)
        requires
            old(self).wf(),
            P < 2,
            ksq < 64,
            ft_ready(ft_big, 3072),
            ft_ready(ft_small, 128),
            begin < old(self).depth(),
        ensures
            final(self).wf(),
            final(self).depth() == old(self).depth(),
            final(self).states().len() == old(self).states().len(),
            forall|i: int| 0 <= i < old(self).states().len() ==> same_but_side(#[trigger] final(self).states()[i], old(self).states()[i], P as int),
            forall|i: int| 0 <= i < old(self).states().len() && !(begin < i < old(self).depth())
                ==> #[trigger] final(self).states()[i] == old(self).states()[i],
            forall|i: int| begin < i < old(self).depth() ==> step_applied(#[trigger] final(self).states()[i], final(self).states()[i - 1],
                P as int, ksq as int, ft_big, ft_small, dirty_added(final(self).states()[i].dirty_piece),
                dirty_removed(final(self).states()[i].dirty_piece)),
    {
        let mut i = begin + 1;
        while i < self.current_idx
            invariant
                P < 2,
                ksq < 64,
                ft_ready(ft_big, 3072),
                ft_ready(ft_small, 128),
                self.wf(),
                self.depth() == old(self).depth(),
                self.states().len() == old(self).states().len(),
                begin < i <= self.depth(),
                forall|k: int| 0 <= k < old(self).states().len() ==> same_but_side(#[trigger] self.states()[k], old(self).states()[k], P as int),
                forall|k: int| 0 <= k < old(self).states().len() && !(begin < k < i) ==> #[trigger] self.states()[k] == old(self).states()[k],
                forall|k: int| begin < k < i ==> step_applied(#[trigger] self.states()[k], self.states()[k - 1],
                    P as int, ksq as int, ft_big, ft_small, dirty_added(self.states()[k].dirty_piece),
                    dirty_removed(self.states()[k].dirty_piece)),
            decreases self.depth() - i,
        {
            let ghost before = self.states();
            let mut target = self.stack.remove(i);
            let dp = target.dirty_piece;
            assert(before[i as int - 1].wf() && before[i as int].wf());
            Self::apply_update::<P, true>(&self.stack[i - 1], &mut target, &dp, ksq, ft_big, ft_small);
            self.stack.insert(i, target);
            proof {
                assert forall|k: int| 0 <= k < self.states().len() && k != i implies #[trigger] self.states()[k] == before[k] by {}
            }
            i += 1;
        }
    }

    /// Brings side `P` of plies `end .. depth - 1` up to date, each from the ply above.
    fn backward_update_incremental<const P: usize>(&mut self, end: usize, ksq: usize, ft_big: &FeatureTransformer,
        ft_small: &FeatureTransformer)
        requires
            old(self).wf(),
            P < 2,
            ksq < 64,
            ft_ready(ft_big, 3072),
            ft_ready(ft_small, 128),
            end < old(self).depth(),
        ensures
            final(self).wf(),
            final(self).depth() == old(self).depth(),
            final(self).states().len() == old(self).states().len(),
            forall|i: int| 0 <= i < old(self).states().len() ==> same_but_side(#[trigger] final(self).states()[i], old(self).states()[i], P as int),
            forall|i: int| 0 <= i < old(self).states().len() && !(end <= i < old(self).depth() - 1)
                ==> #[trigger] final(self).states()[i] == old(self).states()[i],
            forall|i: int| end <= i < old(self).depth() - 1 ==> step_applied(#[trigger] final(self).states()[i], final(self).states()[i + 1],
                P as int, ksq as int, ft_big, ft_small, dirty_removed(final(self).states()[i + 1].dirty_piece),
                dirty_added(final(self).states()[i + 1].dirty_piece)),
    {
        let mut i = self.current_idx - 1;
        while i > end
            invariant
                P < 2,
                ksq < 64,
                ft_ready(ft_big, 3072),
                ft_ready(ft_small, 128),
                self.wf(),
                self.depth() == old(self).depth(),
                self.states().len() == old(self).states().len(),
                end <= i <= self.depth() - 1,
                forall|k: int| 0 <= k < old(self).states().len() ==> same_but_side(#[trigger] self.states()[k], old(self).states()[k], P as int),
                forall|k: int| 0 <= k < old(self).states().len() && !(i <= k < self.depth() - 1) ==> #[trigger] self.states()[k] == old(self).states()[k],
                forall|k: int| i <= k < self.depth() - 1 ==> step_applied(#[trigger] self.states()[k], self.states()[k + 1],
                    P as int, ksq as int, ft_big, ft_small, dirty_removed(self.states()[k + 1].dirty_piece),
                    dirty_added(self.states()[k + 1].dirty_piece)),
            decreases i,
        {
            let t = i - 1;
            let ghost before = self.states();
            let mut target = self.stack.remove(t);
            let dp = self.stack[t].dirty_piece;
            assert(before[t as int].wf() && before[t as int + 1].wf());
            Self::apply_update::<P, false>(&self.stack[t], &mut target, &dp, ksq, ft_big, ft_small);
            self.stack.insert(t, target);
            proof {
                assert forall|k: int| 0 <= k < self.states().len() && k != t implies #[trigger] self.states()[k] == before[k] by {}
            }
            i = t;
        }
    }

    /// Brings side `P` of the current ply up to date: from the last usable ply when it is
    /// computed, else from the caches, filling the plies in between backwards.
    fn evaluate_side<const P: usize>(&mut self, ksq: usize, ft_big: &FeatureTransformer, ft_small: &FeatureTransformer,
        caches: &mut FinnyTables, current_color_bb: &[u64; 2], current_type_bb: &[u64; 6])
        requires
            old(self).wf(),
            P < 2,
            ksq < 64,
            ft_ready(ft_big, 3072),
            ft_ready(ft_small, 128),
            old(caches).consistent(ft_big, ft_small),
        ensures
            final(self).wf(),
            final(caches).consistent(ft_big, ft_small),
            final(self).depth() == old(self).depth(),
            side_brought_up(final(self).states(), old(self).states(), old(self).depth(), P as int, ksq as int, ft_big, ft_small,
                *current_color_bb, *current_type_bb),
    {
        let last = self.find_last_usable_accumulator(P);
        proof { lemma_last_usable_range(self.states(), self.depth(), P as int); }
        if self.stack[last].computed[P] {
            self.forward_update_incremental::<P>(last, ksq, ft_big, ft_small);
            proof {
                if last + 1 < old(self).depth() {
                    assert(step_applied(self.states()[old(self).depth() - 1], self.states()[old(self).depth() - 2], P as int,
                        ksq as int, ft_big, ft_small, dirty_added(self.states()[old(self).depth() - 1].dirty_piece),
                        dirty_removed(self.states()[old(self).depth() - 1].dirty_piece)));
                }
            }
        } else {
            let cur = self.current_idx - 1;
            let ghost before = self.states();
            let mut current = self.stack.remove(cur);
            proof {
                assert(2 * ksq + P < CACHE_ENTRIES);
                assert(before[cur as int].wf());
            }
            update_accumulator_refresh_cache(ft_big, &mut current.acc_big, &mut caches.cache_big, P, ksq,
                current_color_bb, current_type_bb);
            update_accumulator_refresh_cache(ft_small, &mut current.acc_small, &mut caches.cache_small, P, ksq,
                current_color_bb, current_type_bb);
            current.computed[P] = true;
            self.stack.insert(cur, current);
            proof {
                assert forall|k: int| 0 <= k < self.states().len() && k != cur implies #[trigger] self.states()[k] == before[k] by {}
                assert(same_but_side(self.states()[cur as int], before[cur as int], P as int));
            }
            let ghost mid = self.states();
            self.backward_update_incremental::<P>(last, ksq, ft_big, ft_small);
            proof {
                assert(self.states()[cur as int] == mid[cur as int]);
                assert forall|k: int| 0 <= k < self.states().len() implies same_but_side(#[trigger] self.states()[k], old(self).states()[k], P as int) by {
                    assert(same_but_side(self.states()[k], mid[k], P as int));
                    assert(same_but_side(mid[k], old(self).states()[k], P as int));
                }
            }
        }
    }

    /// Brings both sides of the current ply up to date, side 0 with king on `king_squares[0]`
    /// first, then side 1; a cache refresh uses the given bitboards.
    pub fn update_incremental(&mut self, king_squares: [usize; 2], ft_big: &FeatureTransformer, ft_small: &FeatureTransformer,
        caches: &mut FinnyTables, current_color_bb: [u64; 2], current_type_bb: [u64; 6])
        requires
            old(self).wf(),
            king_squares[0] < 64,
            king_squares[1] < 64,
            ft_ready(ft_big, 3072),
            ft_ready(ft_small, 128),
            old(caches).consistent(ft_big, ft_small),
        ensures
            final(self).wf(),
            final(caches).consistent(ft_big, ft_small),
            final(self).depth() == old(self).depth(),
            exists|mid: Seq<AccumulatorState>| {
                &&& side_brought_up(mid, old(self).states(), old(self).depth(), 0, king_squares[0] as int, ft_big, ft_small,
                    current_color_bb, current_type_bb)
                &&& side_brought_up(final(self).states(), mid, old(self).depth(), 1, king_squares[1] as int, ft_big, ft_small,
                    current_color_bb, current_type_bb)
            },
            final(self).states()[final(self).depth() - 1].computed == [true, true],
    {
        self.evaluate_side::<0>(king_squares[0], ft_big, ft_small, caches, &current_color_bb, &current_type_bb);
        let ghost mid = self.states();
        self.evaluate_side::<1>(king_squares[1], ft_big, ft_small, caches, &current_color_bb, &current_type_bb);
        proof {
            let top = old(self).depth() - 1;
            assert(same_but_side(self.states()[top], mid[top], 1));
            assert(self.states()[top].computed =~= [true, true]);
        }
    }

    /// Brings side `P` of `target` to follow from side `P` of `source` by the move of `dp`,
    /// forwards (`FORWARD`: its pieces removed and added) or backwards (the lists swapped).
    fn apply_update<const P: usize, const FORWARD: bool>(source: &AccumulatorState, target: &mut AccumulatorState,
        dp: &DirtyPiece, ksq: usize, ft_big: &FeatureTransformer, ft_small: &FeatureTransformer)
        requires
            P < 2,
            ksq < 64,
            ft_ready(ft_big, 3072),
            ft_ready(ft_small, 128),
            source.wf(),
            old(target).wf(),
            dp.wf(),
        ensures
            final(target).wf(),
            same_but_side(*final(target), *old(target), P as int),
            step_applied(*final(target), *source, P as int, ksq as int, ft_big, ft_small,
                if FORWARD { dirty_added(*dp) } else { dirty_removed(*dp) },
                if FORWARD { dirty_removed(*dp) } else { dirty_added(*dp) }),
    {
        let mut added: Vec<(usize, usize)> = Vec::new();
        let mut removed: Vec<(usize, usize)> = Vec::new();
        let mut i: usize = 0;
        while i < dp.dirty_num
            invariant
                dp.wf(),
                i <= dp.dirty_num,
                added@ == added_upto(*dp, i as int),
                removed@ == removed_upto(*dp, i as int),
            decreases dp.dirty_num - i,
        {
            if dp.piece_from[i] != 0 {
                removed.push((dp.from[i], dp.piece_from[i]));
            }
            if dp.piece_to[i] != 0 {
                added.push((dp.to[i], dp.piece_to[i]));
            }
            i += 1;
        }
        proof { lemma_dirty_lists_valid(*dp, dp.dirty_num as int); }
        let (eff_added, eff_removed) = if FORWARD {
            (added.as_slice(), removed.as_slice())
        } else {
            (removed.as_slice(), added.as_slice())
        };
        target.acc_big.update_incremental_perspective::<P>(&source.acc_big, eff_added, eff_removed, ksq, ft_big);
        target.acc_small.update_incremental_perspective::<P>(&source.acc_small, eff_added, eff_removed, ksq, ft_small);
        target.computed[P] = true;
    }
}

} // verus!
