//! A fixed-capacity list of `(square, piece code)` pairs.
use vstd::prelude::*;
use crate::types::{piece_code, Piece};

verus! {

/// Most pairs a list holds.
pub const PIECE_LIST_CAPACITY: usize = 32;

/// Up to 32 `(square, piece code)` pairs.
pub struct PieceList {
    len: usize,
    data: [(usize, usize); 32],
}

impl PieceList {
    /// The list holds no more pairs than its capacity.
    #[verifier::type_invariant]
    closed spec fn inv(self) -> bool {
        self.len <= PIECE_LIST_CAPACITY
    }

    /// The listed pairs, in the order they were pushed.
    pub closed spec fn items(self) -> Seq<(usize, usize)> {
        self.data@.take(self.len as int)
    }

    /// An empty list.
    pub fn new() -> (r: Self)
        ensures
            r.items() == Seq::<(usize, usize)>::empty(),
    {
        let r = PieceList { len: 0, data: [(0, 0); 32] };
        assert(r.items() =~= Seq::<(usize, usize)>::empty());
        r
    }

    /// Appends a pair; a full list stays as it is.
    pub fn push(&mut self, sq: usize, piece_idx: usize)
        ensures
            old(self).items().len() < PIECE_LIST_CAPACITY ==> final(self).items() == old(self).items().push((sq, piece_idx)),
            old(self).items().len() >= PIECE_LIST_CAPACITY ==> final(self).items() == old(self).items(),
            final(self).items().len() <= PIECE_LIST_CAPACITY,
    {
        proof { use_type_invariant(&*self); }
        if self.len < PIECE_LIST_CAPACITY {
            let ghost before = self.items();
            let n = self.len;
            let mut data = self.data;
            data[n] = (sq, piece_idx);
            *self = PieceList { len: n + 1, data };
            assert(self.items() =~= before.push((sq, piece_idx)));
        }
    }

    /// Empties the list.
    pub fn clear(&mut self)
        ensures
            final(self).items() == Seq::<(usize, usize)>::empty(),
    {
        *self = PieceList { len: 0, data: self.data };
        assert(self.items() =~= Seq::<(usize, usize)>::empty());
    }

    /// The listed pairs.
    pub fn as_slice(&self) -> (r: &[(usize, usize)])
        ensures
            r@ == self.items(),
    {
        proof { use_type_invariant(self); }
        let s = self.data.as_slice();
        let (front, _) = s.split_at(self.len);
        assert(front@ =~= self.items());
        front
    }
}

/// The occupied squares of the first `n` squares, ascending, with their piece codes.
pub open spec fn board_list(pieces: Seq<Piece>, n: int) -> Seq<(usize, usize)>
    decreases n,
{
    if n <= 0 {
        Seq::empty()
    } else if pieces[n - 1] != Piece::NoPiece {
        board_list(pieces, n - 1).push(((n - 1) as usize, piece_code(pieces[n - 1])))
    } else {
        board_list(pieces, n - 1)
    }
}

/// The first `PIECE_LIST_CAPACITY` pairs of a listing, or all of them where there are fewer.
pub open spec fn capped(list: Seq<(usize, usize)>) -> Seq<(usize, usize)> {
    if list.len() <= PIECE_LIST_CAPACITY { list } else { list.take(PIECE_LIST_CAPACITY as int) }
}

/// Fills `list` with the occupied squares of the board and their piece codes, ascending; pairs
/// beyond the capacity are dropped.
pub fn collect_pieces_from(pieces: &[Piece; 64], list: &mut PieceList)
    ensures
        final(list).items() == capped(board_list(pieces@, 64)),
        board_list(pieces@, 64).len() <= PIECE_LIST_CAPACITY ==> final(list).items() == board_list(pieces@, 64),
        forall|i: int| 0 <= i < final(list).items().len() ==> (#[trigger] final(list).items()[i]).0 < 64
            && final(list).items()[i].1 < 16,
{
    list.clear();
    let mut sq: usize = 0;
    while sq < 64
        invariant
            sq <= 64,
            list.items().len() <= PIECE_LIST_CAPACITY,
            list.items() == capped(board_list(pieces@, sq as int)),
            list.items().len() <= board_list(pieces@, sq as int).len(),
            forall|i: int| 0 <= i < list.items().len() ==> (#[trigger] list.items()[i]).0 < 64 && list.items()[i].1 < 16,
        decreases 64 - sq,
    {
        let p = pieces[sq];
        let ghost before = board_list(pieces@, sq as int);
        if p != Piece::NoPiece {
            list.push(sq, p.index());
            proof {
                let after = before.push((sq as usize, piece_code(p)));
                if before.len() < PIECE_LIST_CAPACITY {
                    assert(capped(after) =~= capped(before).push((sq as usize, piece_code(p))));
                } else {
                    assert(capped(after) =~= capped(before));
                }
            }
        }
        sq += 1;
        proof { lemma_board_list_grows(pieces@, sq as int); }
    }
}

/// Listing more squares never lists fewer pieces.
pub proof fn lemma_board_list_grows(pieces: Seq<Piece>, n: int)
    requires
        n >= 1,
    ensures
        board_list(pieces, n - 1).len() <= board_list(pieces, n).len(),
{
}

} // verus!
