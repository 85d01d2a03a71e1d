//! The stack of accumulator states along a line of play.
use vstd::prelude::*;
use crate::accumulator::{Accumulator, ft_ready, valid_pieces, matches_pieces, columns_updated, psqt_updated, leading};
use crate::feature_transformer::FeatureTransformer;

pub mod updates;


verus! {

/// Size of the big network's accumulator.
pub const BIG_SIZE: usize = 3072;
/// Size of the small network's accumulator.
pub const SMALL_SIZE: usize = 128;

/// Up to three raw board changes of one move: square `from[i]` loses piece code
/// `piece_from[i]` and square `to[i]` gains piece code `piece_to[i]` (code 0: nothing).
#[derive(Clone, Copy, Debug)]
pub struct DirtyPiece {
    pub dirty_num: usize,
    pub from: [usize; 3],
    pub to: [usize; 3],
    pub piece_from: [usize; 3],
    pub piece_to: [usize; 3],
}

impl DirtyPiece {
    /// At most three changes, each on squares below 64 with piece codes below 16.
    pub open spec fn wf(&self) -> bool {
        &&& self.dirty_num <= 3
        &&& forall|i: int| 0 <= i < self.dirty_num ==> #[trigger] self.from[i] < 64 && self.to[i] < 64
            && self.piece_from[i] < 16 && self.piece_to[i] < 16
    }

    /// No changes.
    pub fn new() -> (r: Self)
        ensures
            r.wf(),
            r.dirty_num == 0,
            forall|i: int| 0 <= i < 3 ==> #[trigger] r.from[i] == 0 && r.to[i] == 0 && r.piece_from[i] == 0
                && r.piece_to[i] == 0,
    {
        DirtyPiece { dirty_num: 0, from: [0; 3], to: [0; 3], piece_from: [0; 3], piece_to: [0; 3] }
    }

    /// Forgets the recorded changes.
    pub fn reset(&mut self)
        ensures
            final(self).dirty_num == 0,
            final(self).from == old(self).from,
            final(self).to == old(self).to,
            final(self).piece_from == old(self).piece_from,
            final(self).piece_to == old(self).piece_to,
    {
        self.dirty_num = 0;
    }

    /// Records one more change, unless three are recorded already.
    pub fn add_change(&mut self, from_sq: usize, to_sq: usize, piece_from: usize, piece_to: usize)
        ensures
            old(self).dirty_num < 3 ==> {
                &&& final(self).dirty_num == old(self).dirty_num + 1
                &&& final(self).from@ == old(self).from@.update(old(self).dirty_num as int, from_sq)
                &&& final(self).to@ == old(self).to@.update(old(self).dirty_num as int, to_sq)
                &&& final(self).piece_from@ == old(self).piece_from@.update(old(self).dirty_num as int, piece_from)
                &&& final(self).piece_to@ == old(self).piece_to@.update(old(self).dirty_num as int, piece_to)
            },
            old(self).dirty_num >= 3 ==> *final(self) == *old(self),
    {
        if self.dirty_num < 3 {
            let n = self.dirty_num;
            self.from[n] = from_sq;
            self.to[n] = to_sq;
            self.piece_from[n] = piece_from;
            self.piece_to[n] = piece_to;
            self.dirty_num = n + 1;
        }
    }
}

/// The pieces that the first `n` changes take away: `(from, piece_from)` where a piece leaves.
pub open spec fn removed_upto(dp: DirtyPiece, n: int) -> Seq<(usize, usize)>
    decreases n,
{
    if n <= 0 {
        Seq::empty()
    } else if dp.piece_from[n - 1] != 0 {
        removed_upto(dp, n - 1).push((dp.from[n - 1], dp.piece_from[n - 1]))
    } else {
        removed_upto(dp, n - 1)
    }
}

/// The pieces that the first `n` changes put down: `(to, piece_to)` where a piece arrives.
pub open spec fn added_upto(dp: DirtyPiece, n: int) -> Seq<(usize, usize)>
    decreases n,
{
    if n <= 0 {
        Seq::empty()
    } else if dp.piece_to[n - 1] != 0 {
        added_upto(dp, n - 1).push((dp.to[n - 1], dp.piece_to[n - 1]))
    } else {
        added_upto(dp, n - 1)
    }
}

/// The pieces a move takes away.
pub open spec fn dirty_removed(dp: DirtyPiece) -> Seq<(usize, usize)> {
    removed_upto(dp, dp.dirty_num as int)
}

/// The pieces a move puts down.
pub open spec fn dirty_added(dp: DirtyPiece) -> Seq<(usize, usize)> {
    added_upto(dp, dp.dirty_num as int)
}

/// Both networks' accumulators at one ply, with the move that led there.
pub struct AccumulatorState {
    pub acc_big: Accumulator<3072>,
    pub acc_small: Accumulator<128>,
    pub dirty_piece: DirtyPiece,
    pub computed: [bool; 2],
    pub rule50: i32,
}

impl AccumulatorState {
    /// Both accumulators have their full width and the recorded move is well formed.
    pub open spec fn wf(&self) -> bool {
        &&& self.acc_big.wf()
        &&& self.acc_small.wf()
        &&& self.dirty_piece.wf()
    }

    /// A fresh state: empty accumulators, no move, nothing computed, rule-50 counter 0.
    pub fn new() -> (r: Self)
        ensures
            r.wf(),
            r.dirty_piece.dirty_num == 0,
            r.computed == [false, false],
            r.acc_big.computed == [false, false],
            r.acc_small.computed == [false, false],
            r.rule50 == 0,
    {
        AccumulatorState {
            acc_big: Accumulator::new(),
            acc_small: Accumulator::new(),
            dirty_piece: DirtyPiece::new(),
            computed: [false, false],
            rule50: 0,
        }
    }

    /// Records the move `dp` that leads to this ply and its rule-50 counter; nothing is computed.
    pub fn reset(&mut self, dp: &DirtyPiece, rule50: i32)
        ensures
            final(self).dirty_piece == *dp,
            final(self).computed == [false, false],
            final(self).rule50 == rule50,
            final(self).acc_big == old(self).acc_big,
            final(self).acc_small == old(self).acc_small,
    {
        self.dirty_piece = DirtyPiece {
            dirty_num: dp.dirty_num,
            from: dp.from,
            to: dp.to,
            piece_from: dp.piece_from,
            piece_to: dp.piece_to,
        };
        self.computed = [false, false];
        self.rule50 = rule50;
    }

    /// Makes this the root: no move, nothing computed in the state or its accumulators.
    pub fn clear_root(&mut self, rule50: i32)
        requires
            old(self).wf(),
        ensures
            final(self).wf(),
            final(self).dirty_piece.dirty_num == 0,
            final(self).dirty_piece.from == old(self).dirty_piece.from,
            final(self).dirty_piece.to == old(self).dirty_piece.to,
            final(self).dirty_piece.piece_from == old(self).dirty_piece.piece_from,
            final(self).dirty_piece.piece_to == old(self).dirty_piece.piece_to,
            final(self).computed == [false, false],
            final(self).rule50 == rule50,
            final(self).acc_big.computed == [false, false],
            final(self).acc_small.computed == [false, false],
            final(self).acc_big.accumulation == old(self).acc_big.accumulation,
            final(self).acc_big.psqt_accumulation == old(self).acc_big.psqt_accumulation,
            final(self).acc_small.accumulation == old(self).acc_small.accumulation,
            final(self).acc_small.psqt_accumulation == old(self).acc_small.psqt_accumulation,
    {
        self.dirty_piece.reset();
        self.computed = [false, false];
        self.rule50 = rule50;
        self.acc_big.computed = [false, false];
        self.acc_small.computed = [false, false];
    }
}

/// The states from the root up to the current ply; `current_idx` counts the live ones.
pub struct AccumulatorStack {
    stack: Vec<AccumulatorState>,
    current_idx: usize,
}

impl AccumulatorStack {
    /// All allocated states, live or not.
    pub closed spec fn states(&self) -> Seq<AccumulatorState> {
        self.stack@
    }

    /// Number of live states; the last live one is the current ply.
    pub closed spec fn depth(&self) -> int {
        self.current_idx as int
    }

    /// The live states, root first; the last one is the current ply.
    pub open spec fn live(&self) -> Seq<AccumulatorState> {
        self.states().take(self.depth())
    }

    /// At least the root is live, no more states are live than exist, and every state is well formed.
    pub open spec fn wf(&self) -> bool {
        &&& 1 <= self.depth() <= self.states().len()
        &&& forall|i: int| 0 <= i < self.states().len() ==> (#[trigger] self.states()[i]).wf()
    }

    /// A stack holding only a fresh root.
    pub fn new() -> (r: Self)
        ensures
            r.wf(),
            r.depth() == 1,
            r.states().len() == 1,
            r.states()[0].dirty_piece.dirty_num == 0,
            r.states()[0].computed == [false, false],
            r.states()[0].acc_big.computed == [false, false],
            r.states()[0].acc_small.computed == [false, false],
            r.states()[0].rule50 == 0,
            r.live() == seq![r.states()[0]],
    {
        let mut stack: Vec<AccumulatorState> = Vec::new();
        stack.push(AccumulatorState::new());
        let r = AccumulatorStack { stack, current_idx: 1 };
        assert(r.live() =~= seq![r.states()[0]]);
        r
    }

    /// The state of the current ply.
    pub fn latest(&self) -> (r: &AccumulatorState)
        requires
            self.wf(),
        ensures
            *r == self.states()[self.depth() - 1],
            *r == self.live().last(),
            r.wf(),
    {
        &self.stack[self.current_idx - 1]
    }

    /// Records the move `dirty_piece` and its rule-50 counter as a new current ply, reusing an
    /// allocated state where there is one; nothing is computed at the new ply.
    pub fn push(&mut self, dirty_piece: &DirtyPiece, rule50: i32)
        requires
            old(self).wf(),
            dirty_piece.wf(),
        ensures
            final(self).wf(),
            final(self).depth() == old(self).depth() + 1,
            final(self).states().len() == (if old(self).depth() < old(self).states().len() {
                old(self).states().len()
            } else {
                old(self).states().len() + 1
            }),
            forall|i: int| 0 <= i < final(self).states().len() && i != old(self).depth()
                ==> #[trigger] final(self).states()[i] == old(self).states()[i],
            ({
                let s = final(self).states()[old(self).depth()];
                &&& s.dirty_piece == *dirty_piece
                &&& s.computed == [false, false]
                &&& s.rule50 == rule50
            }),
            final(self).live() == old(self).live().push(final(self).states()[old(self).depth()]),
    {
        if self.current_idx >= self.stack.len() {
            self.stack.push(AccumulatorState::new());
        }
        let idx = self.current_idx;
        let mut state = self.stack.remove(idx);
        state.reset(dirty_piece, rule50);
        self.stack.insert(idx, state);
        let n = self.stack.len();
        assert(idx < n);
        self.current_idx = idx + 1;
        assert(self.live() =~= old(self).live().push(self.states()[old(self).depth()]));
    }

    /// The state of the current ply, for writing.
    pub fn mut_latest(&mut self) -> (r: &mut AccumulatorState)
        requires
            old(self).wf(),
        ensures
            *r == old(self).states()[old(self).depth() - 1],
            final(self).depth() == old(self).depth(),
            final(self).states() == old(self).states().update(old(self).depth() - 1, *final(r)),
    {
        let idx = self.current_idx - 1;
        &mut self.stack[idx]
    }

    /// Goes back one ply, never below the root.
    pub fn pop(&mut self)
        requires
            old(self).wf(),
        ensures
            final(self).wf(),
            final(self).states() == old(self).states(),
            final(self).depth() == (if old(self).depth() > 1 { old(self).depth() - 1 } else { old(self).depth() }),
            final(self).live() == (if old(self).depth() > 1 { old(self).live().drop_last() } else { old(self).live() }),
    {
        if self.current_idx > 1 {
            self.current_idx = self.current_idx - 1;
        }
        assert(self.live() =~= (if old(self).depth() > 1 { old(self).live().drop_last() } else { old(self).live() }));
    }

    /// Rebuilds both networks' accumulators of the current ply from the listed pieces, with the
    /// kings on `king_squares`; the ply is then computed for both sides.
    pub fn refresh(&mut self, pieces: &[(usize, usize)], king_squares: [usize; 2], ft_big: &FeatureTransformer,
        ft_small: &FeatureTransformer)
        requires
            old(self).wf(),
            king_squares[0] < 64,
            king_squares[1] < 64,
            ft_ready(ft_big, 3072),
            ft_ready(ft_small, 128),
            valid_pieces(pieces@),
        ensures
            final(self).wf(),
            final(self).depth() == old(self).depth(),
            final(self).states().len() == old(self).states().len(),
            forall|i: int| 0 <= i < final(self).states().len() && i != old(self).depth() - 1
                ==> #[trigger] final(self).states()[i] == old(self).states()[i],
            ({
                let s = final(self).states()[old(self).depth() - 1];
                let o = old(self).states()[old(self).depth() - 1];
                &&& forall|p: int| 0 <= p < 2 ==> matches_pieces(#[trigger] s.acc_big.accumulation[p]@,
                    s.acc_big.psqt_accumulation[p], ft_big, 3072, p, king_squares[p] as int, pieces@)
                &&& forall|p: int| 0 <= p < 2 ==> matches_pieces(#[trigger] s.acc_small.accumulation[p]@,
                    s.acc_small.psqt_accumulation[p], ft_small, 128, p, king_squares[p] as int, pieces@)
                &&& s.computed == [true, true]
                &&& s.acc_big.computed == [true, true]
                &&& s.acc_small.computed == [true, true]
                &&& s.dirty_piece == o.dirty_piece
                &&& s.rule50 == o.rule50
            }),
    {
        let idx = self.current_idx - 1;
        let mut state = self.stack.remove(idx);
        state.acc_big.refresh(pieces, king_squares, ft_big);
        state.acc_small.refresh(pieces, king_squares, ft_small);
        state.computed = [true, true];
        self.stack.insert(idx, state);
    }
}

/// Pushing a ply and popping it again leaves the live states, and with them the current ply,
/// as they were.
pub proof fn lemma_pop_undoes_push(before: AccumulatorStack, pushed: AccumulatorStack, popped: AccumulatorStack)
    requires
        before.wf(),
        pushed.depth() == before.depth() + 1,
        pushed.live() == before.live().push(pushed.states()[before.depth()]),
        popped.live() == (if pushed.depth() > 1 { pushed.live().drop_last() } else { pushed.live() }),
    ensures
        popped.live() == before.live(),
        popped.live().last() == before.live().last(),
{
    assert(before.live().push(pushed.states()[before.depth()]).drop_last() =~= before.live());
}

impl Default for DirtyPiece {
    /// No changes, as `new` makes it.
    fn default() -> (r: Self)
        ensures
            r.wf(),
            r.dirty_num == 0,
    {
        Self::new()
    }
}

impl Default for AccumulatorState {
    /// A fresh state, as `new` makes it.
    fn default() -> (r: Self)
        ensures
            r.wf(),
            r.dirty_piece.dirty_num == 0,
            r.computed == [false, false],
            r.rule50 == 0,
    {
        Self::new()
    }
}

impl Default for AccumulatorStack {
    /// A stack holding only a fresh root, as `new` makes it.
    fn default() -> (r: Self)
        ensures
            r.wf(),
            r.depth() == 1,
    {
        Self::new()
    }
}

} // verus!
