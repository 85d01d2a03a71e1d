//! Moves described as up to three piece changes, for incremental accumulator updates.
use vstd::prelude::*;
use crate::accumulator_stack::DirtyPiece;
use crate::types::{piece_code, Piece, Square};

verus! {

/// One board change inside an incremental update: `piece_from` leaves `from` and `piece_to`
/// arrives on `to`; `Piece::NoPiece` on either side means nothing leaves or arrives.
#[derive(Clone, Copy, Debug, PartialEq, Eq, Structural)]
pub struct DeltaChange {
    pub from: Square,
    pub to: Square,
    pub piece_from: Piece,
    pub piece_to: Piece,
}

/// A change that neither takes a piece away nor puts one down.
pub open spec fn change_is_empty(c: DeltaChange) -> bool {
    c.piece_from == Piece::NoPiece && c.piece_to == Piece::NoPiece
}

impl DeltaChange {
    /// Builds a raw board change.
    pub fn new(from: Square, to: Square, piece_from: Piece, piece_to: Piece) -> (r: Self)
        ensures
            r == (DeltaChange { from, to, piece_from, piece_to }),
    {
        DeltaChange { from, to, piece_from, piece_to }
    }

    /// A move of `piece_from` on `from` that becomes `piece_to` on `to`.
    pub fn move_piece(from: Square, to: Square, piece_from: Piece, piece_to: Piece) -> (r: Self)
        ensures
            r == (DeltaChange { from, to, piece_from, piece_to }),
    {
        Self::new(from, to, piece_from, piece_to)
    }

    /// Taking `piece` off `square`.
    pub fn removal(square: Square, piece: Piece) -> (r: Self)
        ensures
            r == (DeltaChange { from: square, to: square, piece_from: piece, piece_to: Piece::NoPiece }),
    {
        Self::new(square, square, piece, Piece::NoPiece)
    }

    /// Putting `piece` onto `square`.
    pub fn addition(square: Square, piece: Piece) -> (r: Self)
        ensures
            r == (DeltaChange { from: square, to: square, piece_from: Piece::NoPiece, piece_to: piece }),
    {
        Self::new(square, square, Piece::NoPiece, piece)
    }

    /// Whether the change neither removes nor adds a piece.
    pub fn is_empty(self) -> (r: bool)
        ensures
            r == change_is_empty(self),
    {
        matches!(self.piece_from, Piece::NoPiece) && matches!(self.piece_to, Piece::NoPiece)
    }
}

/// Why a change could not be added to a move delta.
#[derive(Clone, Copy, Debug, PartialEq, Eq, Structural)]
pub enum DeltaError {
    EmptyChange,
    TooManyChanges,
}

impl DeltaError {
    /// A sentence describing the error.
    pub fn message(&self) -> (r: &'static str)
        ensures
            r@ == (match self {
                DeltaError::EmptyChange => "delta change must modify at least one piece"@,
                DeltaError::TooManyChanges => "move delta exceeds the 3-change limit"@,
            }),
    {
        match self {
            DeltaError::EmptyChange => "delta change must modify at least one piece",
            DeltaError::TooManyChanges => "move delta exceeds the 3-change limit",
        }
    }
}

/// A chess move as up to three piece changes, with the rule-50 counter that follows it.
#[derive(Clone, Copy, Debug, PartialEq, Eq)]
pub struct MoveDelta {
    changes: [DeltaChange; 3],
    len: usize,
    next_rule50: i32,
}

/// Most changes one delta holds.
pub const MAX_CHANGES: usize = 3;

impl MoveDelta {
    /// Invariant: at most three changes are stored.
    #[verifier::type_invariant]
    closed spec fn inv(self) -> bool {
        self.len <= 3
    }

    /// The stored changes, in the order they were pushed.
    pub closed spec fn change_list(self) -> Seq<DeltaChange> {
        self.changes@.take(self.len as int)
    }

    /// The rule-50 counter after the move.
    pub closed spec fn rule50_after(self) -> i32 {
        self.next_rule50
    }

    /// An empty delta with the given rule-50 counter for after the move.
    pub fn new(next_rule50: i32) -> (r: Self)
        ensures
            r.change_list() == Seq::<DeltaChange>::empty(),
            r.rule50_after() == next_rule50,
    {
        let blank = DeltaChange::new(0, 0, Piece::NoPiece, Piece::NoPiece);
        let r = MoveDelta { changes: [blank, blank, blank], len: 0, next_rule50 };
        assert(r.change_list() =~= Seq::<DeltaChange>::empty());
        r
    }

    /// The delta of a null move: no changes.
    pub fn null(next_rule50: i32) -> (r: Self)
        ensures
            r.change_list() == Seq::<DeltaChange>::empty(),
            r.rule50_after() == next_rule50,
    {
        Self::new(next_rule50)
    }

    /// Number of stored changes.
    pub fn len(&self) -> (r: usize)
        ensures
            r == self.change_list().len(),
            r <= 3,
    {
        proof { use_type_invariant(self); }
        self.len
    }

    /// Whether no change is stored.
    pub fn is_empty(&self) -> (r: bool)
        ensures
            r == (self.change_list().len() == 0),
    {
        proof { use_type_invariant(self); }
        self.len == 0
    }

    /// The rule-50 counter after the move.
    pub fn next_rule50(&self) -> (r: i32)
        ensures
            r == self.rule50_after(),
    {
        self.next_rule50
    }

    /// Overwrites the rule-50 counter for after the move.
    pub fn set_next_rule50(&mut self, next_rule50: i32)
        ensures
            final(self).change_list() == old(self).change_list(),
            final(self).rule50_after() == next_rule50,
    {
        proof { use_type_invariant(&*self); }
        self.next_rule50 = next_rule50;
    }

    /// Appends a change: refused when it changes nothing, or when three are stored already.
    pub fn push(&mut self, change: DeltaChange) -> (r: Result<(), DeltaError>)
        ensures
            final(self).rule50_after() == old(self).rule50_after(),
            change_is_empty(change) ==> r == Err::<(), DeltaError>(DeltaError::EmptyChange)
                && final(self).change_list() == old(self).change_list(),
            !change_is_empty(change) && old(self).change_list().len() >= 3 ==> r == Err::<(), DeltaError>(
                DeltaError::TooManyChanges) && final(self).change_list() == old(self).change_list(),
            !change_is_empty(change) && old(self).change_list().len() < 3 ==> r == Ok::<(), DeltaError>(())
                && final(self).change_list() == old(self).change_list().push(change),
    {
        proof { use_type_invariant(&*self); }
        if change.is_empty() {
            return Err(DeltaError::EmptyChange);
        }
        if self.len >= MAX_CHANGES {
            return Err(DeltaError::TooManyChanges);
        }
        let ghost before = self.change_list();
        let idx = self.len;
        let mut changes = self.changes;
        changes[idx] = change;
        *self = MoveDelta { changes, len: idx + 1, next_rule50: self.next_rule50 };
        assert(self.change_list() =~= before.push(change));
        Ok(())
    }

    /// Appends the change built by `DeltaChange::new`.
    pub fn push_change(&mut self, from: Square, to: Square, piece_from: Piece, piece_to: Piece) -> (r: Result<(), DeltaError>)
        ensures
            ({
                let change = DeltaChange { from, to, piece_from, piece_to };
                &&& final(self).rule50_after() == old(self).rule50_after()
                &&& change_is_empty(change) ==> r == Err::<(), DeltaError>(DeltaError::EmptyChange)
                    && final(self).change_list() == old(self).change_list()
                &&& !change_is_empty(change) && old(self).change_list().len() >= 3 ==> r == Err::<(), DeltaError>(
                    DeltaError::TooManyChanges) && final(self).change_list() == old(self).change_list()
                &&& !change_is_empty(change) && old(self).change_list().len() < 3 ==> r == Ok::<(), DeltaError>(())
                    && final(self).change_list() == old(self).change_list().push(change)
            }),
    {
        self.push(DeltaChange::new(from, to, piece_from, piece_to))
    }

    /// Appends the change built by `DeltaChange::move_piece`.
    pub fn push_move(&mut self, from: Square, to: Square, piece_from: Piece, piece_to: Piece) -> (r: Result<(), DeltaError>)
        ensures
            ({
                let change = DeltaChange { from, to, piece_from, piece_to };
                &&& final(self).rule50_after() == old(self).rule50_after()
                &&& change_is_empty(change) ==> r == Err::<(), DeltaError>(DeltaError::EmptyChange)
                    && final(self).change_list() == old(self).change_list()
                &&& !change_is_empty(change) && old(self).change_list().len() >= 3 ==> r == Err::<(), DeltaError>(
                    DeltaError::TooManyChanges) && final(self).change_list() == old(self).change_list()
                &&& !change_is_empty(change) && old(self).change_list().len() < 3 ==> r == Ok::<(), DeltaError>(())
                    && final(self).change_list() == old(self).change_list().push(change)
            }),
    {
        self.push(DeltaChange::move_piece(from, to, piece_from, piece_to))
    }

    /// Appends the removal of `piece` from `square`.
    pub fn push_removal(&mut self, square: Square, piece: Piece) -> (r: Result<(), DeltaError>)
        ensures
            ({
                let change = DeltaChange { from: square, to: square, piece_from: piece, piece_to: Piece::NoPiece };
                &&& final(self).rule50_after() == old(self).rule50_after()
                &&& piece == Piece::NoPiece ==> r == Err::<(), DeltaError>(DeltaError::EmptyChange)
                    && final(self).change_list() == old(self).change_list()
                &&& piece != Piece::NoPiece && old(self).change_list().len() >= 3 ==> r == Err::<(), DeltaError>(
                    DeltaError::TooManyChanges) && final(self).change_list() == old(self).change_list()
                &&& piece != Piece::NoPiece && old(self).change_list().len() < 3 ==> r == Ok::<(), DeltaError>(())
                    && final(self).change_list() == old(self).change_list().push(change)
            }),
    {
        self.push(DeltaChange::removal(square, piece))
    }

    /// Appends the addition of `piece` onto `square`.
    pub fn push_addition(&mut self, square: Square, piece: Piece) -> (r: Result<(), DeltaError>)
        ensures
            ({
                let change = DeltaChange { from: square, to: square, piece_from: Piece::NoPiece, piece_to: piece };
                &&& final(self).rule50_after() == old(self).rule50_after()
                &&& piece == Piece::NoPiece ==> r == Err::<(), DeltaError>(DeltaError::EmptyChange)
                    && final(self).change_list() == old(self).change_list()
                &&& piece != Piece::NoPiece && old(self).change_list().len() >= 3 ==> r == Err::<(), DeltaError>(
                    DeltaError::TooManyChanges) && final(self).change_list() == old(self).change_list()
                &&& piece != Piece::NoPiece && old(self).change_list().len() < 3 ==> r == Ok::<(), DeltaError>(())
                    && final(self).change_list() == old(self).change_list().push(change)
            }),
    {
        self.push(DeltaChange::addition(square, piece))
    }

    /// The stored changes.
    pub fn changes(&self) -> (r: &[DeltaChange])
        ensures
            r@ == self.change_list(),
            r@.len() <= 3,
    {
        proof { use_type_invariant(self); }
        let s = self.changes.as_slice();
        let (front, _) = s.split_at(self.len);
        assert(front@ =~= self.change_list());
        front
    }

    /// The changes as raw square and piece codes, in order.
    pub fn to_dirty_piece(self) -> (r: DirtyPiece)
        ensures
            r.dirty_num == self.change_list().len(),
            forall|i: int| 0 <= i < self.change_list().len() ==> {
                &&& r.from[i] == (#[trigger] self.change_list()[i]).from
                &&& r.to[i] == self.change_list()[i].to
                &&& r.piece_from[i] == piece_code(self.change_list()[i].piece_from)
                &&& r.piece_to[i] == piece_code(self.change_list()[i].piece_to)
            },
    {
        let mut dirty = DirtyPiece::new();
        let changes = self.changes();
        let mut i: usize = 0;
        while i < changes.len()
            invariant
                changes@ == self.change_list(),
                changes@.len() <= 3,
                i <= changes@.len(),
                dirty.dirty_num == i,
                forall|k: int| 0 <= k < i ==> {
                    &&& dirty.from[k] == (#[trigger] changes@[k]).from
                    &&& dirty.to[k] == changes@[k].to
                    &&& dirty.piece_from[k] == piece_code(changes@[k].piece_from)
                    &&& dirty.piece_to[k] == piece_code(changes@[k].piece_to)
                },
            decreases changes@.len() - i,
        {
            let c = changes[i];
            dirty.add_change(c.from, c.to, c.piece_from.index(), c.piece_to.index());
            i += 1;
        }
        dirty
    }
}


impl Default for MoveDelta {
    /// An empty delta with rule-50 counter 0.
    fn default() -> (r: Self)
        ensures
            r.change_list() == Seq::<DeltaChange>::empty(),
            r.rule50_after() == 0,
    {
        Self::new(0)
    }
}

} // verus!
