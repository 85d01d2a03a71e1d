//! The plain evaluator's pipeline: refresh an accumulator from the piece list, run one
//! network's layer stack, blend and scale the outputs.
use vstd::prelude::*;
use super::accumulator::{Accumulator, coded_pieces, on_board};
use super::layers::{affine_forward, clipped_relu, layer_row, packed_features, sparse_affine_forward, sqr_clipped_relu,
    transform_features};
use super::network::Network;
use super::types::{Piece, piece_number, kind, kind_value, PAWN_VALUE};
use crate::accumulator::{feature_sum, psqt_sum};
use crate::arith::{lemma_wrap_i16_range, lemma_wrap_i32_range};
use crate::feature_transformer::FeatureTransformer;
use crate::features::{BLACK, WHITE};
use crate::layers::activations::{clipped_relu_value, sqr_clipped_relu_value};
use crate::loader::{wrap_i16, wrap_i32};
use crate::network::{fc1_input, trunc_div, lemma_trunc_div_monotone, lemma_trunc_div_odd, lemma_scaled_residual};
use crate::probe::evaluate::{abs_int, blend, bucket_for, finish_score, finished};
use crate::types::{Color, color_index};

verus! {

/// Sum of `f` over the listed pieces.
pub open spec fn sum_pieces(pieces: Seq<(Piece, usize)>, f: spec_fn(Piece) -> int) -> int
    decreases pieces.len(),
{
    if pieces.len() == 0 {
        0
    } else {
        sum_pieces(pieces.drop_last(), f) + f(pieces.last().0)
    }
}

/// A sum of values that are never negative grows along the list.
proof fn lemma_sum_pieces_prefix(pieces: Seq<(Piece, usize)>, f: spec_fn(Piece) -> int, i: int)
    requires
        0 <= i <= pieces.len(),
        forall|p: Piece| #[trigger] f(p) >= 0,
    ensures
        0 <= sum_pieces(pieces.take(i), f) <= sum_pieces(pieces, f),
    decreases pieces.len(),
{
    if i < pieces.len() {
        assert(pieces.drop_last().take(i) =~= pieces.take(i));
        lemma_sum_pieces_prefix(pieces.drop_last(), f, i);
    } else {
        assert(pieces.take(i) =~= pieces);
        if pieces.len() > 0 {
            lemma_sum_pieces_prefix(pieces.drop_last(), f, pieces.len() - 1);
            assert(pieces.drop_last().take(pieces.len() - 1) =~= pieces.drop_last());
        }
    }
}

/// One step of a sum over a prefix.
proof fn lemma_sum_pieces_step(pieces: Seq<(Piece, usize)>, f: spec_fn(Piece) -> int, i: int)
    requires
        0 <= i < pieces.len(),
    ensures
        sum_pieces(pieces.take(i + 1), f) == sum_pieces(pieces.take(i), f) + f(pieces[i].0),
{
    assert(pieces.take(i + 1).drop_last() =~= pieces.take(i));
}

/// Colour index of a piece: 0 White, 1 Black, -1 for no piece.
pub open spec fn side_index(p: Piece) -> int {
    let n = piece_number(p);
    if n == 0 { -1 } else if n <= 6 { 0 } else { 1 }
}

/// 1 for a pawn of side `side`, 0 otherwise.
pub open spec fn pawn_of(side: int) -> spec_fn(Piece) -> int {
    |p: Piece| if side_index(p) == side && kind(p) == 1 { 1int } else { 0int }
}

/// Material value of a piece of side `side` that is neither a pawn nor a king, 0 otherwise.
pub open spec fn officer_of(side: int) -> spec_fn(Piece) -> int {
    |p: Piece| if side_index(p) == side && kind(p) != 1 && kind(p) != 6 { kind_value(kind(p)) } else { 0int }
}

/// Material points of a piece: pawn 1, knight 3, bishop 3, rook 5, queen 9, king and none 0.
pub open spec fn points() -> spec_fn(Piece) -> int {
    |p: Piece| {
        let k = kind(p);
        if k == 1 { 1int } else if k == 2 || k == 3 { 3int } else if k == 4 { 5int } else if k == 5 { 9int } else { 0int }
    }
}

/// The square of the last listed piece equal to `king`, 0 if there is none.
pub open spec fn last_square(pieces: Seq<(Piece, usize)>, king: Piece) -> usize
    decreases pieces.len(),
{
    if pieces.len() == 0 {
        0
    } else if pieces.last().0 == king {
        pieces.last().1
    } else {
        last_square(pieces.drop_last(), king)
    }
}

/// The squares of the White and the Black king: each the last listed one, 0 where none is listed.
pub fn king_squares(pieces: &[(Piece, usize)]) -> (r: [usize; 2])
    ensures
        r[0] == last_square(pieces@, Piece::WhiteKing),
        r[1] == last_square(pieces@, Piece::BlackKing),
{
    let mut squares: [usize; 2] = [0, 0];
    let mut i: usize = 0;
    while i < pieces.len()
        invariant
            i <= pieces@.len(),
            squares[0] == last_square(pieces@.take(i as int), Piece::WhiteKing),
            squares[1] == last_square(pieces@.take(i as int), Piece::BlackKing),
        decreases pieces@.len() - i,
    {
        let (piece, square) = pieces[i];
        proof {
            assert(pieces@.take(i + 1).drop_last() =~= pieces@.take(i as int));
        }
        match piece {
            Piece::WhiteKing => squares[WHITE] = square,
            Piece::BlackKing => squares[BLACK] = square,
            _ => {},
        }
        i += 1;
    }
    assert(pieces@.take(pieces@.len() as int) =~= pieces@);
    squares
}

/// Whether the pawn counts and the other material of both sides fit in an `i32`.
pub open spec fn material_fits(pieces: Seq<(Piece, usize)>) -> bool {
    &&& sum_pieces(pieces, pawn_of(0)) <= i32::MAX
    &&& sum_pieces(pieces, pawn_of(1)) <= i32::MAX
    &&& sum_pieces(pieces, officer_of(0)) <= i32::MAX
    &&& sum_pieces(pieces, officer_of(1)) <= i32::MAX
}

/// The pawn counts and the material of the other pieces but the kings, White's first.
pub fn count_material(pieces: &[(Piece, usize)]) -> (r: ([i32; 2], [i32; 2]))
    requires
        material_fits(pieces@),
    ensures
        r.0[0] == sum_pieces(pieces@, pawn_of(0)),
        r.0[1] == sum_pieces(pieces@, pawn_of(1)),
        r.1[0] == sum_pieces(pieces@, officer_of(0)),
        r.1[1] == sum_pieces(pieces@, officer_of(1)),
{
    let mut pawn_count: [i32; 2] = [0, 0];
    let mut non_pawn_material: [i32; 2] = [0, 0];
    let mut i: usize = 0;
    while i < pieces.len()
        invariant
            i <= pieces@.len(),
            material_fits(pieces@),
            pawn_count[0] == sum_pieces(pieces@.take(i as int), pawn_of(0)),
            pawn_count[1] == sum_pieces(pieces@.take(i as int), pawn_of(1)),
            non_pawn_material[0] == sum_pieces(pieces@.take(i as int), officer_of(0)),
            non_pawn_material[1] == sum_pieces(pieces@.take(i as int), officer_of(1)),
        decreases pieces@.len() - i,
    {
        let (piece, _) = pieces[i];
        proof {
            let n = i + 1;
            assert forall|p: Piece| #[trigger] pawn_of(0)(p) >= 0 && pawn_of(1)(p) >= 0 by {}
            assert forall|p: Piece| #[trigger] officer_of(0)(p) >= 0 && officer_of(1)(p) >= 0 by {}
            lemma_sum_pieces_prefix(pieces@, pawn_of(0), n);
            lemma_sum_pieces_prefix(pieces@, pawn_of(1), n);
            lemma_sum_pieces_prefix(pieces@, officer_of(0), n);
            lemma_sum_pieces_prefix(pieces@, officer_of(1), n);
            lemma_sum_pieces_step(pieces@, pawn_of(0), i as int);
            lemma_sum_pieces_step(pieces@, pawn_of(1), i as int);
            lemma_sum_pieces_step(pieces@, officer_of(0), i as int);
            lemma_sum_pieces_step(pieces@, officer_of(1), i as int);
        }
        if let Some(color) = piece.color() {
            let side = color.index();
            if piece.piece_type() == 1 {
                pawn_count[side] += 1;
            } else if !piece.is_king() {
                non_pawn_material[side] += super::types::piece_value(piece);
            }
        }
        i += 1;
    }
    assert(pieces@.take(pieces@.len() as int) =~= pieces@);
    (pawn_count, non_pawn_material)
}

/// Material in points of all listed pieces: pawn 1, knight 3, bishop 3, rook 5, queen 9.
pub fn calculate_material(pieces: &[(Piece, usize)]) -> (r: i32)
    requires
        sum_pieces(pieces@, points()) <= i32::MAX,
    ensures
        r == sum_pieces(pieces@, points()),
{
    let mut material: i32 = 0;
    let mut i: usize = 0;
    while i < pieces.len()
        invariant
            i <= pieces@.len(),
            sum_pieces(pieces@, points()) <= i32::MAX,
            material == sum_pieces(pieces@.take(i as int), points()),
        decreases pieces@.len() - i,
    {
        let (piece, _) = pieces[i];
        proof {
            assert forall|p: Piece| #[trigger] points()(p) >= 0 by {}
            lemma_sum_pieces_prefix(pieces@, points(), i + 1);
            lemma_sum_pieces_step(pieces@, points(), i as int);
        }
        match piece {
            Piece::WhitePawn | Piece::BlackPawn => material += 1,
            Piece::WhiteKnight | Piece::BlackKnight => material += 3,
            Piece::WhiteBishop | Piece::BlackBishop => material += 3,
            Piece::WhiteRook | Piece::BlackRook => material += 5,
            Piece::WhiteQueen | Piece::BlackQueen => material += 9,
            _ => {},
        }
        i += 1;
    }
    assert(pieces@.take(pieces@.len() as int) =~= pieces@);
    material
}

/// Columns of perspective `p` after a refresh over `codes`, that side's king on `ksq`.
pub open spec fn refreshed_columns(ft: &FeatureTransformer, p: int, ksq: int, codes: Seq<(usize, usize)>) -> Seq<i16> {
    Seq::new(ft.half_dims as nat, |j: int|
        wrap_i16(ft.biases@[j] + feature_sum(ft.weights@, ft.half_dims as int, p, ksq, codes, j)) as i16)
}

/// PSQT score in bucket `b` of perspective `p` after a refresh over `codes`.
pub open spec fn refreshed_psqt(ft: &FeatureTransformer, p: int, ksq: int, codes: Seq<(usize, usize)>, b: int) -> int {
    wrap_i32(psqt_sum(ft.psqt_weights@, p, ksq, codes, b))
}

/// First-layer outputs of stack `bucket` for accumulator values `us` (side to move) and `them`.
#[verifier::opaque]
pub open spec fn stack_fc0(net: &Network, us: Seq<i16>, them: Seq<i16>, bucket: int) -> Seq<i32> {
    let t = packed_features(us, them, net.feature_transformer.half_dims as int);
    Seq::new(16, |r: int| layer_row(net.fc_0@[bucket], t, r))
}

/// Output-layer value of stack `bucket`: the first layer's outputs through the dual
/// activation, the second layer, its clipped activation and the output layer.
#[verifier::opaque]
pub open spec fn stack_fc2(net: &Network, us: Seq<i16>, them: Seq<i16>, bucket: int) -> i32 {
    let o1 = Seq::new(32, |r: int| layer_row(net.fc_1@[bucket], fc1_input(stack_fc0(net, us, them, bucket)), r));
    let a1 = Seq::new(32, |i: int| clipped_relu_value(o1[i]) as u8);
    layer_row(net.fc_2@[bucket], a1, 0)
}

/// `(psqt, positional)` of stack `bucket` divided by the output scale 16: the PSQT scores'
/// half difference, and the output layer plus the first layer's last output scaled by
/// 9600 / 8128.
#[verifier::opaque]
pub open spec fn stack_output(net: &Network, us: Seq<i16>, them: Seq<i16>, psqt_us: int, psqt_them: int, bucket: int)
    -> (int, int)
{
    let fwd = wrap_i32(trunc_div(stack_fc0(net, us, them, bucket)[15] * 9600, 8128));
    let psqt = trunc_div(psqt_us - psqt_them, 2);
    let positional = stack_fc2(net, us, them, bucket) + fwd;
    (trunc_div(psqt, 16), trunc_div(positional, 16))
}

/// The PSQT output of a layer stack favours the side to move: it never falls when the side to
/// move's PSQT value rises or the opponent's falls, it changes sign when the two values are
/// swapped, it does not depend on the accumulator values, and it is positive when only the side
/// to move has a PSQT value, of at least 64.
pub proof fn lemma_stack_psqt(net: &Network, us: Seq<i16>, them: Seq<i16>, bucket: int, psqt_us: int, psqt_them: int,
    psqt_us2: int, psqt_them2: int, us2: Seq<i16>, them2: Seq<i16>)
    ensures
        psqt_us <= psqt_us2 && psqt_them2 <= psqt_them ==> stack_output(net, us, them, psqt_us, psqt_them, bucket).0
            <= stack_output(net, us2, them2, psqt_us2, psqt_them2, bucket).0,
        stack_output(net, us, them, psqt_us, psqt_them, bucket).0 == -stack_output(net, us, them, psqt_them, psqt_us,
            bucket).0,
        psqt_them == 0 && psqt_us >= 64 ==> stack_output(net, us, them, psqt_us, psqt_them, bucket).0 > 0,
{
    reveal(stack_output);
    let d = psqt_us - psqt_them;
    if psqt_us <= psqt_us2 && psqt_them2 <= psqt_them {
        lemma_trunc_div_monotone(d, psqt_us2 - psqt_them2, 2);
        lemma_trunc_div_monotone(trunc_div(d, 2), trunc_div(psqt_us2 - psqt_them2, 2), 16);
    }
    lemma_trunc_div_odd(d, 2);
    assert(psqt_them - psqt_us == -d);
    lemma_trunc_div_odd(trunc_div(d, 2), 16);
    if psqt_them == 0 && psqt_us >= 64 {
        lemma_trunc_div_monotone(64, d, 2);
        lemma_trunc_div_monotone(32, trunc_div(d, 2), 16);
    }
}

/// The positional output of a layer stack rises with the first layer's last output: of two
/// stacks whose output layers give the same value, the one whose first layer's last output is
/// larger (both within +-1_800_000_000, where the scaled value fits 32 bits) has the positional
/// output that is at least as large, whatever the PSQT values.
pub proof fn lemma_stack_positional(a: &Network, us_a: Seq<i16>, them_a: Seq<i16>, bucket_a: int, b: &Network, us_b: Seq<i16>,
    them_b: Seq<i16>, bucket_b: int, psqt_a: (int, int), psqt_b: (int, int))
    requires
        stack_fc2(a, us_a, them_a, bucket_a) == stack_fc2(b, us_b, them_b, bucket_b),
        -1_800_000_000 <= stack_fc0(a, us_a, them_a, bucket_a)[15] <= stack_fc0(b, us_b, them_b, bucket_b)[15] <= 1_800_000_000,
    ensures
        stack_output(a, us_a, them_a, psqt_a.0, psqt_a.1, bucket_a).1 <= stack_output(b, us_b, them_b, psqt_b.0, psqt_b.1,
            bucket_b).1,
{
    reveal(stack_output);
    let xa = stack_fc0(a, us_a, them_a, bucket_a)[15] as int;
    let xb = stack_fc0(b, us_b, them_b, bucket_b)[15] as int;
    let f = stack_fc2(a, us_a, them_a, bucket_a) as int;
    lemma_scaled_residual(xa);
    lemma_scaled_residual(xb);
    assert(xa * 9600 <= xb * 9600) by (nonlinear_arith)
        requires
            xa <= xb,
    ;
    lemma_trunc_div_monotone(xa * 9600, xb * 9600, 8128);
    lemma_trunc_div_monotone(f + trunc_div(xa * 9600, 8128), f + trunc_div(xb * 9600, 8128), 16);
}

/// `(psqt, positional)` of `net` for the listed pieces with the kings on `ksq`, side `stm` to
/// move, in stack `bucket`.
pub open spec fn network_output(net: &Network, pieces: Seq<(Piece, usize)>, ksq: [usize; 2], stm: int, bucket: int)
    -> (int, int)
{
    let codes = coded_pieces(pieces);
    let ft = &net.feature_transformer;
    stack_output(net, refreshed_columns(ft, stm, ksq[stm] as int, codes),
        refreshed_columns(ft, 1 - stm, ksq[1 - stm] as int, codes), refreshed_psqt(ft, stm, ksq[stm] as int, codes, bucket),
        refreshed_psqt(ft, 1 - stm, ksq[1 - stm] as int, codes, bucket), bucket)
}

/// Whether `net` has a shape the plain evaluator runs: an accumulator width that is a positive
/// multiple of 64.
pub open spec fn runnable(net: &Network) -> bool {
    &&& net.wf(net.feature_transformer.half_dims as int)
    &&& net.feature_transformer.half_dims % 64 == 0
    &&& net.feature_transformer.half_dims > 0
}

/// Runs `network` on the listed pieces: refreshes an accumulator, transforms it from side
/// `stm`'s point of view and runs layer stack `bucket`; returns `(psqt, positional)`, both
/// divided by the output scale 16.
fn evaluate_with_network(network: &Network, pieces: &[(Piece, usize)], king_squares: [usize; 2], stm: usize,
    bucket: usize) -> (r: (i32, i32))
    requires
        runnable(network),
        on_board(pieces@),
        king_squares[0] < 64,
        king_squares[1] < 64,
        stm < 2,
        bucket < 8,
    ensures
        (r.0 as int, r.1 as int) == network_output(network, pieces@, king_squares, stm as int, bucket as int),
{
    let ft = &network.feature_transformer;
    let half = ft.half_dims;
    let mut accumulator = Accumulator::new(half);
    accumulator.refresh(pieces, king_squares, ft);
    let ghost codes = coded_pieces(pieces@);
    proof {
        assert forall|p: int| 0 <= p < 2 implies #[trigger] accumulator.accumulation[p]@ == refreshed_columns(ft, p,
            king_squares[p] as int, codes) by {
            assert forall|j: int| 0 <= j < half implies #[trigger] accumulator.accumulation[p]@[j]
                == refreshed_columns(ft, p, king_squares[p] as int, codes)[j] by {
                lemma_wrap_i16_range(ft.biases@[j] + feature_sum(ft.weights@, half as int, p, king_squares[p] as int, codes, j));
            }
            assert(accumulator.accumulation[p]@ =~= refreshed_columns(ft, p, king_squares[p] as int, codes));
        }
    }
    let us = stm;
    let them = 1 - stm;
    let ghost us_cols = accumulator.accumulation[us as int]@;
    let ghost them_cols = accumulator.accumulation[them as int]@;
    let psqt: i64 = (accumulator.psqt_accumulation[us][bucket] as i64 - accumulator.psqt_accumulation[them][bucket] as i64) / 2;

    let mut transformed: Vec<u8> = vec![0u8; half];
    transform_features(&accumulator.accumulation, stm, transformed.as_mut_slice());
    assert(transformed@ =~= packed_features(us_cols, them_cols, half as int));

    assert(network.fc_0@[bucket as int].wf() && network.fc_1@[bucket as int].wf() && network.fc_2@[bucket as int].wf());
    let mut fc_0_out: Vec<i32> = vec![0i32; 16];
    sparse_affine_forward(&network.fc_0[bucket], transformed.as_slice(), fc_0_out.as_mut_slice());
    let ghost o0 = fc_0_out@;
    assert(o0 =~= stack_fc0(network, us_cols, them_cols, bucket as int)) by {
        reveal(stack_fc0);
    }

    let mut sqr_out: Vec<u8> = vec![0u8; 16];
    let mut lin_out: Vec<u8> = vec![0u8; 16];
    sqr_clipped_relu(fc_0_out.as_slice(), sqr_out.as_mut_slice());
    clipped_relu(fc_0_out.as_slice(), lin_out.as_mut_slice());
    let mut fc_1_in: Vec<u8> = Vec::with_capacity(32);
    let mut i: usize = 0;
    while i < 32
        invariant
            i <= 32,
            fc_1_in@.len() == i,
            o0.len() == 16,
            sqr_out@ == Seq::new(16, |k: int| sqr_clipped_relu_value(o0[k]) as u8),
            lin_out@ == Seq::new(16, |k: int| clipped_relu_value(o0[k]) as u8),
            forall|k: int| 0 <= k < i ==> #[trigger] fc_1_in@[k] == fc1_input(o0)[k],
        decreases 32 - i,
    {
        let v = if i < 15 { sqr_out[i] } else if i < 30 { lin_out[i - 15] } else { 0u8 };
        fc_1_in.push(v);
        i += 1;
    }
    assert(fc_1_in@ =~= fc1_input(o0));

    let mut fc_1_out: Vec<i32> = vec![0i32; 32];
    affine_forward(&network.fc_1[bucket], fc_1_in.as_slice(), fc_1_out.as_mut_slice());
    let ghost o1 = fc_1_out@;
    let mut ac_1_out: Vec<u8> = vec![0u8; 32];
    clipped_relu(fc_1_out.as_slice(), ac_1_out.as_mut_slice());
    let mut fc_2_out: Vec<i32> = vec![0i32; 1];
    affine_forward(&network.fc_2[bucket], ac_1_out.as_slice(), fc_2_out.as_mut_slice());
    assert(fc_2_out@[0] == stack_fc2(network, us_cols, them_cols, bucket as int)) by {
        reveal(stack_fc2);
        assert(o1 =~= Seq::new(32, |r: int| layer_row(network.fc_1@[bucket as int], fc1_input(o0), r)));
        assert(ac_1_out@ =~= Seq::new(32, |k: int| clipped_relu_value(o1[k]) as u8));
    }

    let residual = fc_0_out[15];
    proof {
        assert(-2147483648 * 9600 <= residual as i64 * 9600 <= 2147483647 * 9600) by (nonlinear_arith)
            requires
                -2147483648 <= residual <= 2147483647,
        ;
    }
    let scaled: i64 = residual as i64 * 9600 / 8128;
    let fwd_out: i32 = if scaled > 2147483647 {
        (scaled - 4294967296) as i32
    } else if scaled < -2147483648 {
        (scaled + 4294967296) as i32
    } else {
        scaled as i32
    };
    let positional: i64 = fc_2_out[0] as i64 + fwd_out as i64;
    proof {
        reveal(stack_output);
        assert(scaled == trunc_div(residual * 9600, 8128));
        assert(fwd_out as int == wrap_i32(scaled as int));
        lemma_wrap_i32_range(psqt_sum(ft.psqt_weights@, us as int, king_squares[us as int] as int, codes, bucket as int));
        assert(accumulator.psqt_accumulation[us as int][bucket as int] as int == refreshed_psqt(ft, us as int,
            king_squares[us as int] as int, codes, bucket as int));
        assert(accumulator.psqt_accumulation[them as int][bucket as int] as int == refreshed_psqt(ft, them as int,
            king_squares[them as int] as int, codes, bucket as int));
    }
    ((psqt / 16) as i32, (positional / 16) as i32)
}

/// The parts of an evaluation: the chosen network's PSQT and positional outputs (divided by
/// the output scale), the final internal score from the side to move's view, and that score
/// in centipawns.
pub struct EvalDetails {
    pub psqt_score: i32,
    pub positional_score: i32,
    pub raw_score: i32,
    pub centipawns: i32,
}

/// The king squares a piece list gives: the last listed White and Black king, 0 for none.
pub open spec fn listed_kings(pieces: Seq<(Piece, usize)>) -> [usize; 2] {
    [last_square(pieces, Piece::WhiteKing), last_square(pieces, Piece::BlackKing)]
}

/// The internal evaluation of the listed pieces with side `stm` to move: the outputs of the
/// network used and the final score. The small network is used when the material balance
/// exceeds 962 in size and its blend reaches 236 in size, the big one otherwise; the blend is
/// then damped by how far the outputs disagree, scaled by the material, damped by the rule-50
/// counter and clamped.
pub open spec fn internal_evaluation(big: &Network, small: &Network, pieces: Seq<(Piece, usize)>, stm: int, rule50: int)
    -> (int, int, int)
{
    let ksq = listed_kings(pieces);
    let bucket = bucket_for(pieces.len() as int);
    let simple = PAWN_VALUE * (sum_pieces(pieces, pawn_of(stm)) - sum_pieces(pieces, pawn_of(1 - stm)))
        + (sum_pieces(pieces, officer_of(stm)) - sum_pieces(pieces, officer_of(1 - stm)));
    let small_out = network_output(small, pieces, ksq, stm, bucket);
    let big_out = network_output(big, pieces, ksq, stm, bucket);
    let out = if abs_int(simple) > 962 && abs_int(blend(small_out)) >= 236 { small_out } else { big_out };
    let material = 535 * (sum_pieces(pieces, pawn_of(0)) + sum_pieces(pieces, pawn_of(1)))
        + (sum_pieces(pieces, officer_of(0)) + sum_pieces(pieces, officer_of(1)));
    (out.0, out.1, finished(blend(out), out, material, rule50))
}

/// The last listed square of a piece is a square of the list, or 0.
proof fn lemma_last_square_on_board(pieces: Seq<(Piece, usize)>, king: Piece)
    requires
        on_board(pieces),
    ensures
        last_square(pieces, king) < 64,
    decreases pieces.len(),
{
    if pieces.len() > 0 {
        assert(pieces.drop_last().len() < pieces.len());
        assert forall|i: int| 0 <= i < pieces.drop_last().len() implies (#[trigger] pieces.drop_last()[i]).1 < 64 by {
            assert(pieces.drop_last()[i] == pieces[i]);
        }
        lemma_last_square_on_board(pieces.drop_last(), king);
        assert(pieces[pieces.len() - 1].1 < 64);
    }
}

/// Evaluates the listed pieces with `side_to_move` to move and halfmove clock `rule50`: returns
/// the PSQT and positional outputs of the network used and the final internal score, from the
/// side to move's point of view (see `internal_evaluation`).
pub fn evaluate_position_internal(big_network: &Network, small_network: &Network, pieces: &[(Piece, usize)],
    side_to_move: Color, rule50: i32) -> (r: (i32, i32, i32))
    requires
        runnable(big_network),
        runnable(small_network),
        on_board(pieces@),
        material_fits(pieces@),
    ensures
        (r.0 as int, r.1 as int, r.2 as int) == internal_evaluation(big_network, small_network, pieces@,
            color_index(side_to_move) as int, rule50 as int),
{
    let stm = side_to_move.index();
    let ksq = king_squares(pieces);
    proof {
        lemma_last_square_on_board(pieces@, Piece::WhiteKing);
        lemma_last_square_on_board(pieces@, Piece::BlackKing);
        assert(ksq == listed_kings(pieces@));
    }
    let piece_count = pieces.len();
    let bucket: usize = if piece_count > 0 {
        if (piece_count - 1) / 4 < 7 { (piece_count - 1) / 4 } else { 7 }
    } else {
        0
    };
    let (pawn_count, non_pawn_material) = count_material(pieces);
    let simple: i64 = PAWN_VALUE as i64 * (pawn_count[stm] as i64 - pawn_count[1 - stm] as i64)
        + (non_pawn_material[stm] as i64 - non_pawn_material[1 - stm] as i64);
    let use_small = simple > 962 || simple < -962;
    let (psqt_scaled, positional_scaled) = if use_small {
        let (psqt, positional) = evaluate_with_network(small_network, pieces, ksq, stm, bucket);
        let blended: i64 = (125 * psqt as i64 + 131 * positional as i64) / 128;
        if blended < 236 && blended > -236 {
            evaluate_with_network(big_network, pieces, ksq, stm, bucket)
        } else {
            (psqt, positional)
        }
    } else {
        evaluate_with_network(big_network, pieces, ksq, stm, bucket)
    };
    let nnue: i128 = (125 * psqt_scaled as i128 + 131 * positional_scaled as i128) / 128;
    let material: i128 = 535 * (pawn_count[0] as i128 + pawn_count[1] as i128)
        + (non_pawn_material[0] as i128 + non_pawn_material[1] as i128);
    let score = finish_score(nnue, psqt_scaled as i128, positional_scaled as i128, material, rule50);
    (psqt_scaled, positional_scaled, score)
}

} // verus!
