//! The probe's score: network outputs blended, damped by complexity, scaled by material and
//! the rule-50 counter.
use vstd::prelude::*;
use super::{NNUEProbe, networks_ready};
use super::board::Board;
use crate::accumulator_stack::AccumulatorState;
use crate::network::{NnueNetworks, ScratchBuffer, trunc_div, PAWN_VALUE};
use crate::network::alike::{nets_alike, lemma_alike_evaluation};
use crate::types::{Color, color_index};

verus! {

/// Absolute value.
pub open spec fn abs_int(x: int) -> int {
    if x < 0 { -x } else { x }
}

/// Blend of the PSQT and positional outputs: `(125 * psqt + 131 * positional) / 128`.
pub open spec fn blend(out: (int, int)) -> int {
    trunc_div(125 * out.0 + 131 * out.1, 128)
}

/// Layer stack used for a number of pieces: `(count - 1) / 4`, at most 7, and 0 for no pieces.
pub open spec fn bucket_for(piece_count: int) -> int {
    if piece_count > 0 {
        if (piece_count - 1) / 4 < 7 { (piece_count - 1) / 4 } else { 7 }
    } else {
        0
    }
}

/// Material balance from side `stm`'s view: pawns at 208 plus the other material.
pub open spec fn simple_eval(b: Board, stm: int) -> int {
    PAWN_VALUE * (b.pawn_count[stm] - b.pawn_count[1 - stm]) + (b.non_pawn_material[stm] - b.non_pawn_material[1 - stm])
}

/// The big network's `(psqt, positional)` for the state's accumulators, from side `stm`'s view.
pub open spec fn big_output(nets: NnueNetworks, s: AccumulatorState, stm: int, bucket: int) -> (int, int) {
    nets.big_net.evaluation(s.acc_big.accumulation[stm]@, s.acc_big.accumulation[1 - stm]@,
        s.acc_big.psqt_accumulation[stm][bucket] as int, s.acc_big.psqt_accumulation[1 - stm][bucket] as int, bucket)
}

/// The small network's `(psqt, positional)` for the state's accumulators, from side `stm`'s view.
pub open spec fn small_output(nets: NnueNetworks, s: AccumulatorState, stm: int, bucket: int) -> (int, int) {
    nets.small_net.evaluation(s.acc_small.accumulation[stm]@, s.acc_small.accumulation[1 - stm]@,
        s.acc_small.psqt_accumulation[stm][bucket] as int, s.acc_small.psqt_accumulation[1 - stm][bucket] as int, bucket)
}

/// The blended network value with the outputs it came from: the small network when the
/// material balance exceeds 962 and its blend reaches 236 in size, the big network otherwise.
pub open spec fn network_choice(nets: NnueNetworks, b: Board, s: AccumulatorState, stm: int) -> (int, (int, int)) {
    let bucket = bucket_for(b.piece_count as int);
    let small = small_output(nets, s, stm, bucket);
    let big = big_output(nets, s, stm, bucket);
    if abs_int(simple_eval(b, stm)) > 962 && abs_int(blend(small)) >= 236 {
        (blend(small), small)
    } else {
        (blend(big), big)
    }
}

/// The blended network value `nnue`, damped by how far the outputs `out` disagree, scaled by
/// `material`, damped by the rule-50 counter and clamped to `[-31753, 31753]`.
pub open spec fn finished(nnue: int, out: (int, int), material: int, rule50: int) -> int {
    let v = nnue - trunc_div(nnue * abs_int(out.0 - out.1), 18000);
    let scaled = trunc_div(v * (77777 + material), 77777);
    let damped = scaled - trunc_div(scaled * rule50, 212);
    if damped < -31753 { -31753 } else if damped > 31753 { 31753 } else { damped }
}

/// The complexity damping reads only how far apart the two outputs are: shifting both by the same
/// amount changes nothing, swapping them changes nothing, and outputs that agree leave the blend
/// undamped, so that with no material and a fresh counter the score is the blend clamped to
/// `[-31753, 31753]`.
pub proof fn lemma_finished_reads_the_gap(nnue: int, p: int, q: int, d: int, material: int, rule50: int)
    ensures
        finished(nnue, (p + d, q + d), material, rule50) == finished(nnue, (p, q), material, rule50),
        finished(nnue, (q, p), material, rule50) == finished(nnue, (p, q), material, rule50),
        finished(nnue, (p, p), 0, 0) == (if nnue < -31753 { -31753 } else if nnue > 31753 { 31753 } else { nnue }),
{
    assert((p + d) - (q + d) == p - q);
    assert(abs_int(q - p) == abs_int(p - q));
    assert(nnue * abs_int(p - p) == 0) by (nonlinear_arith);
    lemma_unscaled(nnue);
}

/// The further apart the two outputs are, the more the blend is damped toward zero: with no
/// material and a fresh counter, for a blend within the clamp and gaps of at most 18000, a
/// larger gap never gives a score further from zero, and the score keeps the blend's sign.
pub proof fn lemma_damping_grows_with_gap(nnue: int, p1: int, q1: int, p2: int, q2: int)
    requires
        -31753 <= nnue <= 31753,
        abs_int(p1 - q1) <= abs_int(p2 - q2) <= 18000,
    ensures
        nnue >= 0 ==> 0 <= finished(nnue, (p2, q2), 0, 0) <= finished(nnue, (p1, q1), 0, 0) <= nnue,
        nnue < 0 ==> nnue <= finished(nnue, (p1, q1), 0, 0) <= finished(nnue, (p2, q2), 0, 0) <= 0,
{
    let g1 = abs_int(p1 - q1);
    let g2 = abs_int(p2 - q2);
    let v1 = nnue - trunc_div(nnue * g1, 18000);
    let v2 = nnue - trunc_div(nnue * g2, 18000);
    if nnue >= 0 {
        assert(0 <= nnue * g1 <= nnue * g2 <= nnue * 18000) by (nonlinear_arith)
            requires
                nnue >= 0,
                0 <= g1 <= g2 <= 18000,
        ;
        crate::network::lemma_trunc_div_monotone(nnue * g1, nnue * g2, 18000);
        crate::network::lemma_trunc_div_monotone(nnue * g2, nnue * 18000, 18000);
        crate::network::lemma_trunc_div_monotone(0, nnue * g1, 18000);
        assert(nnue * 18000 / 18000 == nnue) by (nonlinear_arith);
    } else {
        let m = -nnue;
        assert(0 <= m * g1 <= m * g2 <= m * 18000) by (nonlinear_arith)
            requires
                m >= 0,
                0 <= g1 <= g2 <= 18000,
        ;
        assert(nnue * g1 == -(m * g1) && nnue * g2 == -(m * g2)) by (nonlinear_arith)
            requires
                m == -nnue,
        ;
        crate::network::lemma_trunc_div_monotone(m * g1, m * g2, 18000);
        crate::network::lemma_trunc_div_monotone(m * g2, m * 18000, 18000);
        crate::network::lemma_trunc_div_monotone(0, m * g1, 18000);
        assert(m * 18000 / 18000 == m) by (nonlinear_arith);
    }
    lemma_unscaled(v1);
    lemma_unscaled(v2);
}

/// With no material and a fresh counter the scaling leaves a value as it is.
proof fn lemma_unscaled(v: int)
    ensures
        trunc_div(v * (77777 + 0), 77777) == v,
        trunc_div(v * 0, 212) == 0,
{
    assert(v * 0 == 0) by (nonlinear_arith);
    assert(v * 77777 / 77777 == v) by (nonlinear_arith);
    assert((-v) * 77777 / 77777 == -v) by (nonlinear_arith);
    if v < 0 {
        assert(-(v * 77777) == (-v) * 77777) by (nonlinear_arith);
    }
}

/// The score stays within `[-31753, 31753]`; a nonnegative blend with outputs at most 18000
/// apart, material above -77777 and a counter of at most 212 never gives a negative score; the
/// counter damps the score toward zero the more it grows, down to 0 at 212; and with a fresh
/// counter more material never lowers a nonnegative score.
pub proof fn lemma_finished_scaling(nnue: int, out: (int, int), material: int, material2: int, rule50: int, rule50_2: int)
    ensures
        -31753 <= finished(nnue, out, material, rule50) <= 31753,
        0 <= nnue && abs_int(out.0 - out.1) <= 18000 && -77777 <= material && 0 <= rule50 <= 212
            ==> finished(nnue, out, material, rule50) >= 0,
        0 <= nnue && abs_int(out.0 - out.1) <= 18000 && -77777 <= material && 0 <= rule50 <= rule50_2
            ==> finished(nnue, out, material, rule50_2) <= finished(nnue, out, material, rule50),
        0 <= nnue && abs_int(out.0 - out.1) <= 18000 && -77777 <= material ==> finished(nnue, out, material, 212) == 0,
        0 <= nnue && abs_int(out.0 - out.1) <= 18000 && -77777 <= material <= material2
            ==> finished(nnue, out, material, 0) <= finished(nnue, out, material2, 0),
{
    let g = abs_int(out.0 - out.1);
    let v = nnue - trunc_div(nnue * g, 18000);
    if 0 <= nnue && g <= 18000 {
        assert(0 <= nnue * g <= nnue * 18000) by (nonlinear_arith)
            requires
                nnue >= 0,
                0 <= g <= 18000,
        ;
        crate::network::lemma_trunc_div_monotone(nnue * g, nnue * 18000, 18000);
        assert(nnue * 18000 / 18000 == nnue) by (nonlinear_arith);
        assert(v >= 0);
        if -77777 <= material {
            let sc = trunc_div(v * (77777 + material), 77777);
            assert(v * (77777 + material) >= 0) by (nonlinear_arith)
                requires
                    v >= 0,
                    77777 + material >= 0,
            ;
            crate::network::lemma_trunc_div_monotone(0, v * (77777 + material), 77777);
            assert(sc >= 0);
            lemma_rule50_damping(sc, rule50, rule50_2);
            lemma_rule50_damping(sc, rule50, 212);
            lemma_rule50_damping(sc, 212, 212);
            assert(sc * 212 / 212 == sc) by (nonlinear_arith);
            if material <= material2 {
                assert(v * (77777 + material) <= v * (77777 + material2)) by (nonlinear_arith)
                    requires
                        v >= 0,
                        material <= material2,
                ;
                crate::network::lemma_trunc_div_monotone(v * (77777 + material), v * (77777 + material2), 77777);
                let sc2 = trunc_div(v * (77777 + material2), 77777);
                assert(sc * 0 == 0 && sc2 * 0 == 0) by (nonlinear_arith);
            }
        }
    }
}

/// For a nonnegative value, the rule-50 damping keeps it nonnegative while the counter is at
/// most 212 and takes more the larger the counter.
proof fn lemma_rule50_damping(sc: int, r1: int, r2: int)
    requires
        sc >= 0,
    ensures
        0 <= r1 <= 212 ==> sc - trunc_div(sc * r1, 212) >= 0,
        0 <= r1 <= r2 ==> sc - trunc_div(sc * r2, 212) <= sc - trunc_div(sc * r1, 212),
{
    if 0 <= r1 {
        assert(0 <= sc * r1) by (nonlinear_arith)
            requires
                sc >= 0,
                r1 >= 0,
        ;
        if r1 <= 212 {
            assert(sc * r1 <= sc * 212) by (nonlinear_arith)
                requires
                    sc >= 0,
                    r1 <= 212,
            ;
            crate::network::lemma_trunc_div_monotone(sc * r1, sc * 212, 212);
            assert(sc * 212 / 212 == sc) by (nonlinear_arith);
        }
        if r1 <= r2 {
            assert(sc * r1 <= sc * r2) by (nonlinear_arith)
                requires
                    sc >= 0,
                    r1 <= r2,
            ;
            crate::network::lemma_trunc_div_monotone(sc * r1, sc * r2, 212);
        }
    }
}

/// The blend never falls when either output rises, gives twice the value when the outputs
/// agree, and weighs the positional output more than the PSQT output.
pub proof fn lemma_blend_laws(a: int, b: int, a2: int, b2: int)
    ensures
        a <= a2 && b <= b2 ==> blend((a, b)) <= blend((a2, b2)),
        blend((a, a)) == 2 * a,
        a >= 0 ==> blend((a, 0)) <= blend((0, a)),
{
    if a <= a2 && b <= b2 {
        crate::network::lemma_trunc_div_monotone(125 * a + 131 * b, 125 * a2 + 131 * b2, 128);
    }
    assert(125 * a + 131 * a == 128 * (2 * a));
    assert((128 * (2 * a)) / 128 == 2 * a) by (nonlinear_arith);
    assert((-(128 * (2 * a))) / 128 == -(2 * a)) by (nonlinear_arith);
    if a >= 0 {
        crate::network::lemma_trunc_div_monotone(125 * a, 131 * a, 128);
    }
}

/// Layer stacks by piece count: every count picks one of the eight stacks, more pieces never
/// pick a lower one, one to four pieces pick the first, and each four more pieces move one stack
/// up until the last.
pub proof fn lemma_bucket_laws(c: int, c2: int)
    ensures
        0 <= bucket_for(c) < 8,
        c <= c2 ==> bucket_for(c) <= bucket_for(c2),
        1 <= c <= 4 ==> bucket_for(c) == 0,
        1 <= c ==> bucket_for(c + 4) == (if bucket_for(c) < 7 { bucket_for(c) + 1 } else { 7 }),
{
    if 0 < c && c <= c2 {
        vstd::arithmetic::div_mod::lemma_div_is_ordered(c - 1, c2 - 1, 4);
    }
    if 0 < c {
        assert((c + 4 - 1) / 4 == (c - 1) / 4 + 1) by (nonlinear_arith)
            requires
                c >= 1,
        ;
        vstd::arithmetic::div_mod::lemma_div_is_ordered(0, c - 1, 4);
    }
    if c <= 0 && 0 < c2 {
        vstd::arithmetic::div_mod::lemma_div_is_ordered(0, c2 - 1, 4);
    }
}

/// Choosing the network: the material balance of one side is the negation of the other's; the
/// value is always the blend of the outputs it came from; with a balance of at most 962 either
/// way the big network decides whatever the small one says; and the small network decides only
/// when the balance exceeds 962 and its own blend reaches 236 in size.
pub proof fn lemma_choice_laws(nets: NnueNetworks, b: Board, s: AccumulatorState, stm: int)
    requires
        0 <= stm < 2,
    ensures
        simple_eval(b, 0) == -simple_eval(b, 1),
        network_choice(nets, b, s, stm).0 == blend(network_choice(nets, b, s, stm).1),
        abs_int(simple_eval(b, stm)) <= 962 ==> network_choice(nets, b, s, stm).1 == big_output(nets, s, stm,
            bucket_for(b.piece_count as int)),
        network_choice(nets, b, s, stm).1 != big_output(nets, s, stm, bucket_for(b.piece_count as int))
            ==> abs_int(simple_eval(b, stm)) > 962 && abs_int(blend(network_choice(nets, b, s, stm).1)) >= 236,
{
}

/// Material of both sides together: pawns at 535 plus the other material.
pub open spec fn total_material(b: Board) -> int {
    535 * (b.pawn_count[0] + b.pawn_count[1]) + (b.non_pawn_material[0] + b.non_pawn_material[1])
}

/// The score of a position from side `stm`'s view.
pub open spec fn probe_score(nets: NnueNetworks, b: Board, s: AccumulatorState, stm: int) -> int {
    let (nnue, out) = network_choice(nets, b, s, stm);
    finished(nnue, out, total_material(b), s.rule50 as int)
}

/// Computes `finished` without overflow.
pub(crate) fn finish_score(nnue: i128, psqt_val: i128, pos_val: i128, material: i128, rule50: i32) -> (r: i32)
    requires
        -0x200000000 <= nnue <= 0x200000000,
        -0x80000000 <= psqt_val <= 0x80000000,
        -0x80000000 <= pos_val <= 0x80000000,
        -0x40000000000 <= material <= 0x40000000000,
    ensures
        r as int == finished(nnue as int, (psqt_val as int, pos_val as int), material as int, rule50 as int),
{
    let diff: i128 = psqt_val - pos_val;
    let complexity: i128 = if diff < 0 { -diff } else { diff };
    assert(-0x40000000000000000 <= nnue * complexity <= 0x40000000000000000) by (nonlinear_arith)
        requires
            -0x200000000 <= nnue <= 0x200000000,
            0 <= complexity <= 0x200000000,
    ;
    let v: i128 = nnue - nnue * complexity / 18000;
    assert(-0x80000000000000000 <= v <= 0x80000000000000000);
    assert(-0x4000000000000000000000000000 <= v * (77777 + material) <= 0x4000000000000000000000000000) by (nonlinear_arith)
        requires
            -0x80000000000000000 <= v <= 0x80000000000000000,
            -0x80000000000 <= 77777 + material <= 0x80000000000,
    ;
    let prod: i128 = v * (77777 + material);
    let scaled: i128 = prod / 77777;
    assert(-0x400000000000000000000000 <= scaled <= 0x400000000000000000000000) by (nonlinear_arith)
        requires
            -0x4000000000000000000000000000 <= prod <= 0x4000000000000000000000000000,
            scaled == trunc_div(prod as int, 77777),
    ;
    assert(-0x20000000000000000000000000000000 <= scaled * rule50 <= 0x20000000000000000000000000000000) by (nonlinear_arith)
        requires
            -0x400000000000000000000000 <= scaled <= 0x400000000000000000000000,
            -0x80000000 <= rule50 <= 0x7fffffff,
    ;
    let damped: i128 = scaled - scaled * rule50 as i128 / 212;
    if damped < -31753 { -31753 } else if damped > 31753 { 31753 } else { damped as i32 }
}

/// The score of `b` with the accumulators of `s` from side `stm`'s point of view.
fn score_position(networks: &NnueNetworks, s: &AccumulatorState, b: &Board, stm: usize, scratch_big: &mut ScratchBuffer,
    scratch_small: &mut ScratchBuffer) -> (r: i32)
    requires
        networks_ready(*networks),
        s.wf(),
        stm < 2,
        old(scratch_big).wf(3072),
        old(scratch_small).wf(128),
    ensures
        final(scratch_big).wf(3072),
        final(scratch_small).wf(128),
        r as int == probe_score(*networks, *b, *s, stm as int),
{
    let simple: i64 = PAWN_VALUE as i64 * (b.pawn_count[stm] as i64 - b.pawn_count[1 - stm] as i64)
        + (b.non_pawn_material[stm] as i64 - b.non_pawn_material[1 - stm] as i64);
    let use_small = simple > 962 || simple < -962;
    let bucket: usize = if b.piece_count > 0 {
        if (b.piece_count - 1) / 4 < 7 { (b.piece_count - 1) / 4 } else { 7 }
    } else {
        0
    };
    let (nnue, psqt_val, pos_val): (i128, i128, i128) = if use_small {
        let (psqt, pos) = networks.small_net.evaluate(&s.acc_small, bucket, stm, scratch_small);
        let score: i128 = (125 * psqt as i128 + 131 * pos as i128) / 128;
        if score < 236 && score > -236 {
            let (big_psqt, big_pos) = networks.big_net.evaluate(&s.acc_big, bucket, stm, scratch_big);
            ((125 * big_psqt as i128 + 131 * big_pos as i128) / 128, big_psqt as i128, big_pos as i128)
        } else {
            (score, psqt as i128, pos as i128)
        }
    } else {
        let (psqt, pos) = networks.big_net.evaluate(&s.acc_big, bucket, stm, scratch_big);
        ((125 * psqt as i128 + 131 * pos as i128) / 128, psqt as i128, pos as i128)
    };
    let material: i128 = 535 * (b.pawn_count[0] as i128 + b.pawn_count[1] as i128)
        + (b.non_pawn_material[0] as i128 + b.non_pawn_material[1] as i128);
    finish_score(nnue, psqt_val, pos_val, material, s.rule50)
}

impl<'a> NNUEProbe<'a> {
    /// The score of the current position from `side_to_move`'s point of view.
    pub open spec fn score(&self, side_to_move: Color) -> int {
        probe_score(self.nets(), self.current(), self.latest(), color_index(side_to_move) as int)
    }

    /// Evaluates the current position from the side to move's point of view.
    pub fn evaluate(&mut self, side_to_move: Color) -> (r: i32)
        requires
            old(self).wf(),
        ensures
            final(self).wf(),
            r as int == old(self).score(side_to_move),
            final(self).nets() == old(self).nets(),
            final(self).current() == old(self).current(),
            final(self).stack() == old(self).stack(),
            final(self).latest() == old(self).latest(),
            final(self).positions() == old(self).positions(),
            final(self).synced() == old(self).synced(),
    {
        let stm = side_to_move.index();
        score_position(self.networks.as_ref(), self.accumulator_stack.latest(), &self.board, stm, &mut self.scratch_big,
            &mut self.scratch_small)
    }
}

/// Accumulator values that match a listing of pieces are determined by it.
proof fn lemma_matches_unique(x: Seq<i16>, px: [i32; 8], y: Seq<i16>, py: [i32; 8], ft: &crate::feature_transformer::FeatureTransformer,
    size: int, p: int, ksq: int, pieces: Seq<(usize, usize)>)
    requires
        crate::accumulator::matches_pieces(x, px, ft, size, p, ksq, pieces),
        crate::accumulator::matches_pieces(y, py, ft, size, p, ksq, pieces),
    ensures
        x == y,
        px == py,
{
    assert(x =~= y);
    assert forall|b: int| 0 <= b < 8 implies px[b] == py[b] by {}
    assert(px =~= py);
}

/// Incremental updates agree with full refreshes: two probes that follow their plies, evaluate
/// with networks holding the same parameters (the same networks, or networks read from the same
/// files), and stand on the same board with the same king squares and rule-50 counter give the
/// same score, however each reached its current ply.
pub proof fn lemma_score_depends_on_position<'a, 'b>(a: &NNUEProbe<'a>, b: &NNUEProbe<'b>, side_to_move: Color)
    requires
        a.wf(),
        b.wf(),
        a.synced(),
        b.synced(),
        nets_alike(a.nets(), b.nets()),
        a.current().pieces@ == b.current().pieces@,
        a.current().king_squares@ == b.current().king_squares@,
        a.latest().rule50 == b.latest().rule50,
    ensures
        a.score(side_to_move) == b.score(side_to_move),
{
    let nets = a.nets();
    let ft_big = &nets.big_net.feature_transformer;
    let ft_small = &nets.small_net.feature_transformer;
    let la = a.latest();
    let lb = b.latest();
    let ksq = a.current().king_squares@;
    let pieces = crate::piece_list::board_list(a.current().pieces@, 64);
    assert forall|p: int| 0 <= p < 2 implies la.acc_big.accumulation[p]@ == lb.acc_big.accumulation[p]@
        && la.acc_big.psqt_accumulation[p] == lb.acc_big.psqt_accumulation[p]
        && la.acc_small.accumulation[p]@ == lb.acc_small.accumulation[p]@
        && la.acc_small.psqt_accumulation[p] == lb.acc_small.psqt_accumulation[p] by {
        lemma_tracked_latest(a, p);
        lemma_tracked_latest(b, p);
        assert(crate::accumulator::matches_pieces(lb.acc_big.accumulation[p]@, lb.acc_big.psqt_accumulation[p], ft_big, 3072,
            p, ksq[p] as int, pieces));
        assert(crate::accumulator::matches_pieces(lb.acc_small.accumulation[p]@, lb.acc_small.psqt_accumulation[p], ft_small,
            128, p, ksq[p] as int, pieces));
        lemma_matches_unique(la.acc_big.accumulation[p]@, la.acc_big.psqt_accumulation[p], lb.acc_big.accumulation[p]@,
            lb.acc_big.psqt_accumulation[p], ft_big, 3072, p, ksq[p] as int, pieces);
        lemma_matches_unique(la.acc_small.accumulation[p]@, la.acc_small.psqt_accumulation[p], lb.acc_small.accumulation[p]@,
            lb.acc_small.psqt_accumulation[p], ft_small, 128, p, ksq[p] as int, pieces);
    }
    lemma_counts_of_board(a.current(), b.current());
    let stm = color_index(side_to_move) as int;
    let bucket = bucket_for(a.current().piece_count as int);
    assert(0 <= bucket < 8);
    assert(0 <= stm < 2);
    lemma_alike_evaluation(nets.small_net, b.nets().small_net, 128, la.acc_small.accumulation[stm]@,
        la.acc_small.accumulation[1 - stm]@, la.acc_small.psqt_accumulation[stm][bucket] as int,
        la.acc_small.psqt_accumulation[1 - stm][bucket] as int, bucket);
    lemma_alike_evaluation(nets.big_net, b.nets().big_net, 3072, la.acc_big.accumulation[stm]@,
        la.acc_big.accumulation[1 - stm]@, la.acc_big.psqt_accumulation[stm][bucket] as int,
        la.acc_big.psqt_accumulation[1 - stm][bucket] as int, bucket);
    assert(small_output(nets, la, stm, bucket) == small_output(b.nets(), lb, stm, bucket));
    assert(big_output(nets, la, stm, bucket) == big_output(b.nets(), lb, stm, bucket));
}

/// The current ply of a synced probe holds what a refresh over the current board gives.
proof fn lemma_tracked_latest<'a>(a: &NNUEProbe<'a>, p: int)
    requires
        a.wf(),
        a.synced(),
        0 <= p < 2,
    ensures
        super::tracking::ply_matches(a.latest(), (a.current().pieces@, a.current().king_squares@), p,
            &a.nets().big_net.feature_transformer, &a.nets().small_net.feature_transformer),
{
    let d = a.stack().depth();
    let states = a.stack().states();
    assert(states[d - 1].computed == [true, true]);
    assert(states[d - 1].computed[p]);
}

/// Counts and material are functions of the pieces.
proof fn lemma_counts_of_board(x: Board, y: Board)
    requires
        super::board::board_consistent(&x),
        super::board::board_consistent(&y),
        x.pieces@ == y.pieces@,
    ensures
        x.piece_count == y.piece_count,
        x.pawn_count == y.pawn_count,
        x.non_pawn_material == y.non_pawn_material,
{
    assert(x.pawn_count[0] == y.pawn_count[0] && x.pawn_count[1] == y.pawn_count[1]);
    assert(x.pawn_count =~= y.pawn_count);
    assert(x.non_pawn_material[0] == y.non_pawn_material[0] && x.non_pawn_material[1] == y.non_pawn_material[1]);
    assert(x.non_pawn_material =~= y.non_pawn_material);
}

} // verus!
