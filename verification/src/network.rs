//! A complete NNUE network: feature transformer, layer stacks and the forward pass.
use vstd::prelude::*;
use crate::accumulator::{Accumulator, ft_ready};
use crate::aligned::AlignedBuffer;
use crate::feature_transformer::FeatureTransformer;
use crate::layers::{AffineTransform, AffineTransformSparseInput, ClippedReLU, Layer, SqrClippedReLU};
use crate::layers::activations::{clipped_relu_value, sqr_clipped_relu_value};
use crate::loader::wrap_i32;
use crate::arith::lemma_wrap_i32_id;
use vstd::arithmetic::div_mod::lemma_div_is_ordered;

pub mod alike;
pub mod load;

verus! {

/// Number of layer stacks, one per PSQT bucket.
pub const LAYER_STACKS: usize = 8;

/// Material values of the pieces, in internal units.
pub const PAWN_VALUE: i32 = 208;
pub const KNIGHT_VALUE: i32 = 781;
pub const BISHOP_VALUE: i32 = 825;
pub const ROOK_VALUE: i32 = 1276;
pub const QUEEN_VALUE: i32 = 2538;

/// Division rounding toward zero, as integer division does in Rust.
pub open spec fn trunc_div(a: int, b: int) -> int {
    if a >= 0 { a / b } else { -((-a) / b) }
}

/// Division rounding toward zero keeps order.
pub proof fn lemma_trunc_div_monotone(x: int, y: int, c: int)
    requires
        x <= y,
        c > 0,
    ensures
        trunc_div(x, c) <= trunc_div(y, c),
{
    if x >= 0 {
        lemma_div_is_ordered(x, y, c);
    } else if y >= 0 {
        lemma_div_is_ordered(0, -x, c);
        lemma_div_is_ordered(0, y, c);
    } else {
        lemma_div_is_ordered(-y, -x, c);
    }
}

/// Division rounding toward zero commutes with negation.
pub proof fn lemma_trunc_div_odd(x: int, c: int)
    requires
        c > 0,
    ensures
        trunc_div(-x, c) == -trunc_div(x, c),
{
}

/// Clamps `x` into `[0, 254]`.
pub open spec fn clamp254(x: int) -> int {
    if x < 0 { 0 } else if x > 254 { 254 } else { x }
}

/// Transformed feature `j` of one perspective: the product of the clamped values `j` and
/// `j + half / 2`, divided by 512.
pub open spec fn transformed_value(acc: Seq<i16>, half: int, j: int) -> u8 {
    ((clamp254(acc[j] as int) * clamp254(acc[j + half / 2] as int)) / 512) as u8
}

/// The transformed features: those of the side to move, then those of the other side.
pub open spec fn transformed_features(us: Seq<i16>, them: Seq<i16>, half: int) -> Seq<u8> {
    Seq::new(half as nat, |i: int| if i < half / 2 { transformed_value(us, half, i) } else { transformed_value(them, half, i - half / 2) })
}

/// A sequence of `n` zeros (a placeholder for an output whose old contents are overwritten).
pub open spec fn zeros_i32(n: nat) -> Seq<i32> {
    Seq::new(n, |i: int| 0i32)
}

/// A sequence of `n` zeros (a placeholder for an output whose old contents are overwritten).
pub open spec fn zeros_u8(n: nat) -> Seq<u8> {
    Seq::new(n, |i: int| 0u8)
}

/// Input of the second layer: the squared clipped first-layer outputs 0..15, the clipped ones
/// 0..15, and two zeros.
pub open spec fn fc1_input(fc0_out: Seq<i32>) -> Seq<u8> {
    Seq::new(32, |i: int| if i < 15 { sqr_clipped_relu_value(fc0_out[i]) as u8 } else if i < 30 {
        clipped_relu_value(fc0_out[i - 15]) as u8 } else { 0u8 })
}

/// Shared big and small networks.
pub struct NnueNetworks {
    pub big_net: Network,
    pub small_net: Network,
}

/// Feature transformer, eight layer stacks and their activations.
pub struct Network {
    pub feature_transformer: FeatureTransformer,
    pub fc_0: Vec<AffineTransformSparseInput>,
    pub fc_1: Vec<AffineTransform>,
    pub fc_2: Vec<AffineTransform>,
    pub ac_sqr_0: SqrClippedReLU,
    pub ac_0: ClippedReLU,
    pub ac_1: ClippedReLU,
    pub is_big: bool,
}

/// Buffers for the values between the layers.
pub struct ScratchBuffer {
    pub transformed_features: AlignedBuffer<u8>,
    pub fc_0_out: AlignedBuffer<i32>,
    pub fc_1_in: AlignedBuffer<u8>,
    pub fc_1_out: AlignedBuffer<i32>,
    pub ac_1_out: AlignedBuffer<u8>,
    pub fc_2_out: AlignedBuffer<i32>,
}

impl ScratchBuffer {
    /// Buffers have the widths a network of `half` accumulator values needs.
    pub open spec fn wf(&self, half: int) -> bool {
        &&& self.transformed_features@.len() == half
        &&& self.fc_0_out@.len() == 16
        &&& self.fc_1_in@.len() == 32
        &&& self.fc_1_out@.len() == 32
        &&& self.ac_1_out@.len() == 32
        &&& self.fc_2_out@.len() == 1
    }

    /// Zeroed buffers for a network of `half_dims` accumulator values.
    pub fn new(half_dims: usize) -> (r: Self)
        ensures
            r.wf(half_dims as int),
    {
        ScratchBuffer {
            transformed_features: AlignedBuffer::with_element(half_dims, 0u8),
            fc_0_out: AlignedBuffer::with_element(16, 0i32),
            fc_1_in: AlignedBuffer::with_element(32, 0u8),
            fc_1_out: AlignedBuffer::with_element(32, 0i32),
            ac_1_out: AlignedBuffer::with_element(32, 0u8),
            fc_2_out: AlignedBuffer::with_element(1, 0i32),
        }
    }
}

impl Network {
    /// The network reads accumulators of `size` values: its transformer has that width, and each
    /// of the eight stacks maps `size` inputs to 16, 30 to 32, and 32 to 1.
    pub open spec fn wf(&self, size: int) -> bool {
        &&& ft_ready(&self.feature_transformer, size)
        &&& size % 2 == 0
        &&& self.fc_0@.len() == LAYER_STACKS
        &&& self.fc_1@.len() == LAYER_STACKS
        &&& self.fc_2@.len() == LAYER_STACKS
        &&& forall|b: int| 0 <= b < LAYER_STACKS ==> {
            &&& (#[trigger] self.fc_0@[b]).wf()
            &&& self.fc_0@[b].input_dims == size
            &&& self.fc_0@[b].output_dims == 16
            &&& self.fc_1@[b].wf()
            &&& self.fc_1@[b].input_dims == 30
            &&& self.fc_1@[b].output_dims == 32
            &&& self.fc_2@[b].wf()
            &&& self.fc_2@[b].input_dims == 32
            &&& self.fc_2@[b].output_dims == 1
        }
        &&& self.ac_sqr_0.dims == 16
        &&& self.ac_0.dims == 16
        &&& self.ac_1.dims == 32
    }

    /// First-layer outputs of stack `bucket` on the transformed features.
    #[verifier::opaque]
    pub open spec fn fc0_output(&self, us: Seq<i16>, them: Seq<i16>, bucket: int) -> Seq<i32> {
        self.fc_0@[bucket].propagated(transformed_features(us, them, self.feature_transformer.half_dims as int), zeros_i32(16))
    }

    /// Last-layer output of stack `bucket`.
    #[verifier::opaque]
    pub open spec fn fc2_output(&self, us: Seq<i16>, them: Seq<i16>, bucket: int) -> i32 {
        let o1 = self.fc_1@[bucket].propagated(fc1_input(self.fc0_output(us, them, bucket)), zeros_i32(32));
        let i2 = self.ac_1.propagated(o1, zeros_u8(32));
        self.fc_2@[bucket].propagated(i2, zeros_i32(1))[0]
    }

    /// The network's `(psqt, positional)` pair for accumulator values `us` (side to move) and
    /// `them`, PSQT values `psqt_us` and `psqt_them`, in stack `bucket`.
    #[verifier::opaque]
    pub open spec fn evaluation(&self, us: Seq<i16>, them: Seq<i16>, psqt_us: int, psqt_them: int, bucket: int) -> (int, int) {
        let fwd = wrap_i32(trunc_div(self.fc0_output(us, them, bucket)[15] * 9600, 8128));
        let psqt = trunc_div(psqt_us - psqt_them, 2);
        let positional = self.fc2_output(us, them, bucket) + fwd;
        (trunc_div(psqt, 16), trunc_div(positional, 16))
    }

    /// Writes the transformed features of the two perspectives into the scratch buffer.
    fn transform_features<const SIZE: usize>(&self, accumulator: &Accumulator<SIZE>, scratch: &mut ScratchBuffer, us: usize,
        them: usize)
        requires
            self.wf(SIZE as int),
            accumulator.wf(),
            us < 2,
            them < 2,
            old(scratch).wf(SIZE as int),
        ensures
            final(scratch).wf(SIZE as int),
            final(scratch).transformed_features@ == transformed_features(accumulator.accumulation[us as int]@,
                accumulator.accumulation[them as int]@, SIZE as int),
            final(scratch).fc_0_out == old(scratch).fc_0_out,
            final(scratch).fc_1_in == old(scratch).fc_1_in,
            final(scratch).fc_1_out == old(scratch).fc_1_out,
            final(scratch).ac_1_out == old(scratch).ac_1_out,
            final(scratch).fc_2_out == old(scratch).fc_2_out,
    {
        let half = SIZE / 2;
        let mut p: usize = 0;
        while p < 2
            invariant
                accumulator.wf(),
                SIZE % 2 == 0,
                half == SIZE / 2,
                us < 2,
                them < 2,
                p <= 2,
                scratch.wf(SIZE as int),
                forall|i: int| 0 <= i < p * half ==> #[trigger] scratch.transformed_features@[i] == transformed_features(
                    accumulator.accumulation[us as int]@, accumulator.accumulation[them as int]@, SIZE as int)[i],
                scratch.fc_0_out == old(scratch).fc_0_out,
                scratch.fc_1_in == old(scratch).fc_1_in,
                scratch.fc_1_out == old(scratch).fc_1_out,
                scratch.ac_1_out == old(scratch).ac_1_out,
                scratch.fc_2_out == old(scratch).fc_2_out,
            decreases 2 - p,
        {
            let perspective = if p == 0 { us } else { them };
            let offset = half * p;
            let mut j: usize = 0;
            while j < half
                invariant
                    accumulator.wf(),
                    SIZE % 2 == 0,
                    half == SIZE / 2,
                    us < 2,
                    them < 2,
                    p < 2,
                    perspective == (if p == 0 { us } else { them }),
                    offset == half * p,
                    j <= half,
                    scratch.wf(SIZE as int),
                    half + half == SIZE,
                    forall|i: int| 0 <= i < offset + j ==> #[trigger] scratch.transformed_features@[i] == transformed_features(
                        accumulator.accumulation[us as int]@, accumulator.accumulation[them as int]@, SIZE as int)[i],
                    scratch.fc_0_out == old(scratch).fc_0_out,
                    scratch.fc_1_in == old(scratch).fc_1_in,
                    scratch.fc_1_out == old(scratch).fc_1_out,
                    scratch.ac_1_out == old(scratch).ac_1_out,
                    scratch.fc_2_out == old(scratch).fc_2_out,
                decreases half - j,
            {
                let a = accumulator.accumulation[perspective].get(j);
                let b = accumulator.accumulation[perspective].get(j + half);
                let sum0: i32 = if a < 0 { 0 } else if a > 254 { 254 } else { a as i32 };
                let sum1: i32 = if b < 0 { 0 } else if b > 254 { 254 } else { b as i32 };
                assert(0 <= sum0 * sum1 <= 254 * 254) by (nonlinear_arith)
                    requires
                        0 <= sum0 <= 254,
                        0 <= sum1 <= 254,
                ;
                let v = ((sum0 * sum1) / 512) as u8;
                scratch.transformed_features.set(offset + j, v);
                j += 1;
            }
            p += 1;
        }
    }

    /// Runs stack `bucket` on the accumulator from side `side_to_move`'s point of view and
    /// returns `(psqt, positional)`, both divided by the output scale 16.
    pub fn evaluate<const SIZE: usize>(&self, accumulator: &Accumulator<SIZE>, bucket: usize, side_to_move: usize,
        scratch: &mut ScratchBuffer) -> (r: (i32, i32))
        requires
            self.wf(SIZE as int),
            accumulator.wf(),
            bucket < LAYER_STACKS,
            side_to_move < 2,
            old(scratch).wf(SIZE as int),
        ensures
            final(scratch).wf(SIZE as int),
            (r.0 as int, r.1 as int) == self.evaluation(accumulator.accumulation[side_to_move as int]@,
                accumulator.accumulation[1 - side_to_move as int]@, accumulator.psqt_accumulation[side_to_move as int][bucket as int] as int,
                accumulator.psqt_accumulation[1 - side_to_move as int][bucket as int] as int, bucket as int),
    {
        let us = side_to_move;
        let them = 1 - us;
        let psqt: i64 = (accumulator.psqt_accumulation[us][bucket] as i64 - accumulator.psqt_accumulation[them][bucket] as i64) / 2;

        self.transform_features(accumulator, scratch, us, them);
        let ghost t = scratch.transformed_features@;
        let fc_0 = &self.fc_0[bucket];
        let fc_1 = &self.fc_1[bucket];
        let fc_2 = &self.fc_2[bucket];
        assert(fc_0.wf() && fc_1.wf() && fc_2.wf());

        fc_0.propagate(scratch.transformed_features.as_slice(), scratch.fc_0_out.as_mut_slice());
        let ghost o0 = scratch.fc_0_out@;
        assert(o0 =~= self.fc0_output(accumulator.accumulation[us as int]@, accumulator.accumulation[them as int]@, bucket as int)) by {
            reveal(Network::fc0_output);
        }

        let mut sqr_out: Vec<u8> = vec![0u8; 16];
        let mut lin_out: Vec<u8> = vec![0u8; 16];
        self.ac_sqr_0.propagate(scratch.fc_0_out.as_slice(), sqr_out.as_mut_slice());
        self.ac_0.propagate(scratch.fc_0_out.as_slice(), lin_out.as_mut_slice());
        let mut i: usize = 0;
        while i < 32
            invariant
                i <= 32,
                scratch.fc_1_in@.len() == 32,
                o0.len() == 16,
                sqr_out@.len() == 16,
                lin_out@.len() == 16,
                forall|k: int| 0 <= k < 16 ==> #[trigger] sqr_out@[k] == sqr_clipped_relu_value(o0[k]) as u8,
                forall|k: int| 0 <= k < 16 ==> #[trigger] lin_out@[k] == clipped_relu_value(o0[k]) as u8,
                forall|k: int| 0 <= k < i ==> #[trigger] scratch.fc_1_in@[k] == fc1_input(o0)[k],
                scratch.fc_0_out@ == o0,
                scratch.transformed_features@.len() == SIZE,
                scratch.fc_1_out@.len() == 32,
                scratch.ac_1_out@.len() == 32,
                scratch.fc_2_out@.len() == 1,
            decreases 32 - i,
        {
            let v = if i < 15 { sqr_out[i] } else if i < 30 { lin_out[i - 15] } else { 0u8 };
            scratch.fc_1_in.set(i, v);
            i += 1;
        }
        assert(scratch.fc_1_in@ =~= fc1_input(o0));

        fc_1.propagate(scratch.fc_1_in.as_slice(), scratch.fc_1_out.as_mut_slice());
        let ghost o1 = scratch.fc_1_out@;
        assert(o1 =~= fc_1.propagated(fc1_input(o0), zeros_i32(32)));
        self.ac_1.propagate(scratch.fc_1_out.as_slice(), scratch.ac_1_out.as_mut_slice());
        let ghost i2 = scratch.ac_1_out@;
        assert(i2 =~= self.ac_1.propagated(o1, zeros_u8(32)));
        fc_2.propagate(scratch.ac_1_out.as_slice(), scratch.fc_2_out.as_mut_slice());
        assert(scratch.fc_2_out@ =~= fc_2.propagated(i2, zeros_i32(1)));

        let residual = scratch.fc_0_out.get(15);
        proof {
            assert(-2147483648 * 9600 <= residual as i64 * 9600 <= 2147483647 * 9600) by (nonlinear_arith)
                requires
                    -2147483648 <= residual <= 2147483647,
            ;
        }
        let scaled: i64 = residual as i64 * 9600 / 8128;
        proof {
            assert(-2147483648 * 9600 / 8128 <= trunc_div(residual * 9600, 8128) <= 2147483647 * 9600 / 8128);
        }
        let fwd_out: i32 = if scaled > 2147483647 {
            (scaled - 4294967296) as i32
        } else if scaled < -2147483648 {
            (scaled + 4294967296) as i32
        } else {
            scaled as i32
        };
        let positional: i64 = scratch.fc_2_out.get(0) as i64 + fwd_out as i64;
        let r = ((psqt / 16) as i32, (positional / 16) as i32);
        proof {
            reveal(Network::fc0_output);
            reveal(Network::fc2_output);
            reveal(Network::evaluation);
        }
        proof {
            assert(scaled == trunc_div(residual * 9600, 8128));
            assert(fwd_out as int == wrap_i32(scaled as int));
        }
        r
    }
}


/// The PSQT output favours the side to move: it never falls when the side to move's PSQT value
/// rises or the opponent's falls, it changes sign when the two values are swapped, it does not
/// depend on the accumulator values, and it is positive when only the side to move has a PSQT
/// value, of at least 64.
pub proof fn lemma_evaluation_psqt(net: Network, us: Seq<i16>, them: Seq<i16>, bucket: int, psqt_us: int, psqt_them: int,
    psqt_us2: int, psqt_them2: int, us2: Seq<i16>, them2: Seq<i16>)
    ensures
        psqt_us <= psqt_us2 && psqt_them2 <= psqt_them ==> net.evaluation(us, them, psqt_us, psqt_them, bucket).0
            <= net.evaluation(us2, them2, psqt_us2, psqt_them2, bucket).0,
        net.evaluation(us, them, psqt_us, psqt_them, bucket).0 == -net.evaluation(us, them, psqt_them, psqt_us, bucket).0,
        psqt_them == 0 && psqt_us >= 64 ==> net.evaluation(us, them, psqt_us, psqt_them, bucket).0 > 0,
{
    reveal(Network::evaluation);
    let d = psqt_us - psqt_them;
    if psqt_us <= psqt_us2 && psqt_them2 <= psqt_them {
        lemma_trunc_div_monotone(d, psqt_us2 - psqt_them2, 2);
        lemma_trunc_div_monotone(trunc_div(d, 2), trunc_div(psqt_us2 - psqt_them2, 2), 16);
    }
    lemma_trunc_div_odd(d, 2);
    assert(psqt_them - psqt_us == -d);
    lemma_trunc_div_odd(trunc_div(d, 2), 16);
    if psqt_them == 0 && psqt_us >= 64 {
        lemma_trunc_div_monotone(64, d, 2);
        lemma_trunc_div_monotone(32, trunc_div(d, 2), 16);
    }
}

/// The positional output rises with the first layer's last output: of two evaluations whose
/// output layers give the same value, the one whose first layer's last output is larger (both
/// within +-1_800_000_000, where the scaled value fits 32 bits) has the positional output that is
/// at least as large, whatever the PSQT values.
pub proof fn lemma_evaluation_positional(a: Network, us_a: Seq<i16>, them_a: Seq<i16>, bucket_a: int, b: Network, us_b: Seq<i16>,
    them_b: Seq<i16>, bucket_b: int, psqt_a: (int, int), psqt_b: (int, int))
    requires
        a.fc2_output(us_a, them_a, bucket_a) == b.fc2_output(us_b, them_b, bucket_b),
        -1_800_000_000 <= a.fc0_output(us_a, them_a, bucket_a)[15] <= b.fc0_output(us_b, them_b, bucket_b)[15] <= 1_800_000_000,
    ensures
        a.evaluation(us_a, them_a, psqt_a.0, psqt_a.1, bucket_a).1 <= b.evaluation(us_b, them_b, psqt_b.0, psqt_b.1, bucket_b).1,
{
    reveal(Network::evaluation);
    let xa = a.fc0_output(us_a, them_a, bucket_a)[15] as int;
    let xb = b.fc0_output(us_b, them_b, bucket_b)[15] as int;
    let f = a.fc2_output(us_a, them_a, bucket_a) as int;
    lemma_scaled_residual(xa);
    lemma_scaled_residual(xb);
    assert(xa * 9600 <= xb * 9600) by (nonlinear_arith)
        requires
            xa <= xb,
    ;
    lemma_trunc_div_monotone(xa * 9600, xb * 9600, 8128);
    lemma_trunc_div_monotone(f + trunc_div(xa * 9600, 8128), f + trunc_div(xb * 9600, 8128), 16);
}

/// The first layer's last output scaled by 9600 / 8128 fits 32 bits while it is within
/// +-1_800_000_000.
pub proof fn lemma_scaled_residual(x: int)
    requires
        -1_800_000_000 <= x <= 1_800_000_000,
    ensures
        wrap_i32(trunc_div(x * 9600, 8128)) == trunc_div(x * 9600, 8128),
{
    assert(-1_800_000_000 * 9600 <= x * 9600 <= 1_800_000_000 * 9600) by (nonlinear_arith)
        requires
            -1_800_000_000 <= x <= 1_800_000_000,
    ;
    lemma_trunc_div_monotone(-1_800_000_000 * 9600, x * 9600, 8128);
    lemma_trunc_div_monotone(x * 9600, 1_800_000_000int * 9600, 8128);
    lemma_wrap_i32_id(trunc_div(x * 9600, 8128));
}


/// A transformed feature pairs a column with its partner in the other half: it lies in
/// `[0, 126]`, is 0 when either value is at most 0, is 126 when both are at least 254, and never
/// falls when either value rises.
pub proof fn lemma_transformed_value_laws(a: Seq<i16>, b: Seq<i16>, half: int, j: int)
    ensures
        0 <= transformed_value(a, half, j) <= 126,
        a[j] <= 0 || a[j + half / 2] <= 0 ==> transformed_value(a, half, j) == 0,
        a[j] >= 254 && a[j + half / 2] >= 254 ==> transformed_value(a, half, j) == 126,
        a[j] <= b[j] && a[j + half / 2] <= b[j + half / 2] ==> transformed_value(a, half, j) <= transformed_value(b, half, j),
{
    let x = clamp254(a[j] as int);
    let y = clamp254(a[j + half / 2] as int);
    let x2 = clamp254(b[j] as int);
    let y2 = clamp254(b[j + half / 2] as int);
    assert(0 <= x * y <= 254 * 254) by (nonlinear_arith)
        requires
            0 <= x <= 254,
            0 <= y <= 254,
    ;
    lemma_div_is_ordered(0, x * y, 512);
    lemma_div_is_ordered(x * y, 254int * 254, 512);
    if x == 0 || y == 0 {
        assert(x * y == 0) by (nonlinear_arith)
            requires
                x == 0 || y == 0,
        ;
    }
    if a[j] <= b[j] && a[j + half / 2] <= b[j + half / 2] {
        assert(x <= x2 && y <= y2);
        assert(0 <= x2 * y2 <= 254 * 254) by (nonlinear_arith)
            requires
                0 <= x2 <= 254,
                0 <= y2 <= 254,
        ;
        assert(x * y <= x2 * y2) by (nonlinear_arith)
            requires
                0 <= x <= x2,
                0 <= y <= y2,
        ;
        lemma_div_is_ordered(x * y, x2 * y2, 512);
        lemma_div_is_ordered(x2 * y2, 254int * 254, 512);
        lemma_div_is_ordered(0, x2 * y2, 512);
    }
}

} // verus!
