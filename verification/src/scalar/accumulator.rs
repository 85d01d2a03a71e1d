//! The plain evaluator's accumulator, rebuilt from the whole piece list on every evaluation.
use vstd::prelude::*;
use super::types::{Piece, sf_code};
use crate::accumulator::{ft_ready, matches_pieces, valid_pieces};
use crate::accumulator::updates::{apply_piece_columns, apply_piece_psqt};
use crate::arith::lemma_wrap_i16_id;
use crate::feature_transformer::FeatureTransformer;
use crate::features::{BLACK, WHITE};
use crate::loader::wrap_i16;

verus! {

/// Transformer output of both perspectives (White first) and their PSQT scores per bucket.
pub struct Accumulator {
    pub accumulation: [Vec<i16>; 2],
    pub psqt_accumulation: [[i32; 8]; 2],
}

/// The listed pieces as `(square, Stockfish piece code)` pairs.
pub open spec fn coded_pieces(pieces: Seq<(Piece, usize)>) -> Seq<(usize, usize)> {
    pieces.map_values(|e: (Piece, usize)| (e.1, sf_code(e.0)))
}

/// Every listed piece stands on one of the 64 squares.
pub open spec fn on_board(pieces: Seq<(Piece, usize)>) -> bool {
    forall|i: int| 0 <= i < pieces.len() ==> (#[trigger] pieces[i]).1 < 64
}

/// The pieces as `(square, code)` pairs.
fn code_pieces(pieces: &[(Piece, usize)]) -> (r: Vec<(usize, usize)>)
    requires
        on_board(pieces@),
    ensures
        r@ == coded_pieces(pieces@),
        valid_pieces(r@),
{
    let mut out: Vec<(usize, usize)> = Vec::with_capacity(pieces.len());
    let mut i: usize = 0;
    while i < pieces.len()
        invariant
            i <= pieces@.len(),
            on_board(pieces@),
            out@ == coded_pieces(pieces@).take(i as int),
            valid_pieces(out@),
        decreases pieces@.len() - i,
    {
        let (piece, sq) = pieces[i];
        let code = piece.stockfish_code();
        let ghost before = out@;
        out.push((sq, code));
        proof {
            assert(out@ =~= coded_pieces(pieces@).take(i + 1));
            assert forall|k: int| 0 <= k < out@.len() implies (#[trigger] out@[k]).0 < 64 && out@[k].1 < 16 by {
                if k < i {
                    assert(out@[k] == before[k]);
                }
            }
        }
        i += 1;
    }
    assert(out@ =~= coded_pieces(pieces@));
    out
}

/// One perspective rebuilt from the biases and the features of the listed pieces.
fn perspective_sums(codes: &Vec<(usize, usize)>, p: usize, ksq: usize, ft: &FeatureTransformer) -> (r: (Vec<i16>, [i32; 8]))
    requires
        p < 2,
        ksq < 64,
        ft_ready(ft, ft.half_dims as int),
        valid_pieces(codes@),
    ensures
        matches_pieces(r.0@, r.1, ft, ft.half_dims as int, p as int, ksq as int, codes@),
{
    let half = ft.half_dims;
    let _ = ft.biases.len();
    let mut acc: Vec<i16> = Vec::with_capacity(half);
    let mut j: usize = 0;
    while j < half
        invariant
            half == ft.half_dims,
            ft_ready(ft, half as int),
            j <= half,
            acc@.len() == j,
            forall|k: int| 0 <= k < j ==> #[trigger] acc@[k] == ft.biases@[k],
        decreases half - j,
    {
        acc.push(ft.biases.get(j));
        j += 1;
    }
    let mut psqt = [0i32; 8];
    apply_piece_columns(acc.as_mut_slice(), codes.as_slice(), codes.len(), p, ksq, ft, true, half);
    apply_piece_psqt(&mut psqt, codes.as_slice(), p, ksq, ft, true, half);
    proof {
        assert(codes@.take(codes@.len() as int) =~= codes@);
        assert forall|k: int| 0 <= k < half implies #[trigger] ft.biases@[k] as int == wrap_i16(ft.biases@[k] as int) by {
            lemma_wrap_i16_id(ft.biases@[k] as int);
        }
    }
    (acc, psqt)
}

impl Accumulator {
    /// An accumulator of `half_dims` zero values per perspective and zero PSQT scores.
    pub fn new(half_dims: usize) -> (r: Self)
        ensures
            r.accumulation[0]@ == Seq::new(half_dims as nat, |i: int| 0i16),
            r.accumulation[1]@ == Seq::new(half_dims as nat, |i: int| 0i16),
            forall|p: int, b: int| 0 <= p < 2 && 0 <= b < 8 ==> #[trigger] r.psqt_accumulation[p][b] == 0,
    {
        let white = vec![0i16; half_dims];
        let black = vec![0i16; half_dims];
        assert(white@ =~= Seq::new(half_dims as nat, |i: int| 0i16));
        assert(black@ =~= Seq::new(half_dims as nat, |i: int| 0i16));
        Self { accumulation: [white, black], psqt_accumulation: [[0i32; 8], [0i32; 8]] }
    }

    /// Rebuilds both perspectives from scratch: each starts from the biases, and the columns
    /// and PSQT weights of every listed piece's feature are added (kings included), as seen
    /// from that side with its king on `king_squares` (White's first), wrapping around.
    pub fn refresh(&mut self, pieces: &[(Piece, usize)], king_squares: [usize; 2], ft: &FeatureTransformer)
        requires
            king_squares[0] < 64,
            king_squares[1] < 64,
            on_board(pieces@),
            ft_ready(ft, ft.half_dims as int),
            old(self).accumulation[0]@.len() == ft.half_dims,
            old(self).accumulation[1]@.len() == ft.half_dims,
        ensures
            matches_pieces(final(self).accumulation[0]@, final(self).psqt_accumulation[0], ft, ft.half_dims as int, 0,
                king_squares[0] as int, coded_pieces(pieces@)),
            matches_pieces(final(self).accumulation[1]@, final(self).psqt_accumulation[1], ft, ft.half_dims as int, 1,
                king_squares[1] as int, coded_pieces(pieces@)),
    {
        let codes = code_pieces(pieces);
        let (white, white_psqt) = perspective_sums(&codes, WHITE, king_squares[WHITE], ft);
        let (black, black_psqt) = perspective_sums(&codes, BLACK, king_squares[BLACK], ft);
        self.accumulation = [white, black];
        self.psqt_accumulation = [white_psqt, black_psqt];
    }
}

} // verus!
