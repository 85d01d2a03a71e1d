//! The plain evaluator's layers: clipped activations, dense layers over row-major weights and
//! the transform from the accumulator to the first layer's input.
use vstd::prelude::*;
use super::network::AffineLayer;
use crate::arith::{lemma_wrap_i32_add, lemma_wrapping_add_i32};
use crate::layers::activations::{clipped_relu_value, sqr_clipped_relu_value};
use crate::layers::affine::{affine_row, dot, lemma_product_range, lemma_row_index, lemma_wrap_i32_range_to_i32,
    used_inputs};
use crate::network::transformed_features;

verus! {

/// Clipped ReLU: every output value is `clamp(input >> 6, 0, 127)` of the input at its index.
pub fn clipped_relu(input: &[i32], output: &mut [u8])
    requires
        input@.len() == old(output)@.len(),
    ensures
        final(output)@ == Seq::new(input@.len(), |i: int| clipped_relu_value(input@[i]) as u8),
{
    let n = input.len();
    let mut index: usize = 0;
    while index < n
        invariant
            n == input@.len(),
            output@.len() == n,
            index <= n,
            forall|i: int| 0 <= i < index ==> #[trigger] output@[i] == clipped_relu_value(input@[i]) as u8,
        decreases n - index,
    {
        let s = input[index] >> 6u32;
        let v: u8 = if s < 0 { 0 } else if s > 127 { 127 } else { s as u8 };
        output[index] = v;
        index += 1;
    }
    assert(output@ =~= Seq::new(input@.len(), |i: int| clipped_relu_value(input@[i]) as u8));
}

/// Squared clipped ReLU: every output value is `clamp((input * input) >> 19, 0, 127)` of the
/// input at its index.
pub fn sqr_clipped_relu(input: &[i32], output: &mut [u8])
    requires
        input@.len() == old(output)@.len(),
    ensures
        final(output)@ == Seq::new(input@.len(), |i: int| sqr_clipped_relu_value(input@[i]) as u8),
{
    let n = input.len();
    let mut index: usize = 0;
    while index < n
        invariant
            n == input@.len(),
            output@.len() == n,
            index <= n,
            forall|i: int| 0 <= i < index ==> #[trigger] output@[i] == sqr_clipped_relu_value(input@[i]) as u8,
        decreases n - index,
    {
        let x = input[index] as i64;
        assert(x * x <= 4611686018427387904) by (nonlinear_arith)
            requires
                -2147483648 <= x <= 2147483647,
        ;
        assert(x * x >= 0) by (nonlinear_arith);
        let squared = x * x;
        let s = squared >> 19u32;
        let v: u8 = if s < 0 { 0 } else if s > 127 { 127 } else { s as u8 };
        output[index] = v;
        index += 1;
    }
    assert(output@ =~= Seq::new(input@.len(), |i: int| sqr_clipped_relu_value(input@[i]) as u8));
}

/// Output row `row` of `layer` on `input`: the bias plus the weighted inputs (as many as the
/// layer takes and the input holds), wrapped to 32 bits.
pub open spec fn layer_row(layer: AffineLayer, input: Seq<u8>, row: int) -> i32 {
    affine_row(layer.biases@, layer.weights@, layer.padded_input_dims as int, input,
        used_inputs(input.len() as int, layer.input_dims as int), row) as i32
}

/// Dense layer: output `row` becomes the bias of that row plus the sum of the row's weights
/// times the inputs, for each of the layer's outputs; the output values past them keep their
/// old values.
pub fn affine_forward(layer: &AffineLayer, input: &[u8], output: &mut [i32])
    requires
        layer.wf(),
        old(output)@.len() >= layer.output_dims,
    ensures
        final(output)@.len() == old(output)@.len(),
        forall|row: int| 0 <= row < layer.output_dims ==> #[trigger] final(output)@[row] == layer_row(*layer, input@, row),
        forall|i: int| layer.output_dims <= i < old(output)@.len() ==> #[trigger] final(output)@[i] == old(output)@[i],
{
    let padded = layer.padded_input_dims;
    let rows = layer.output_dims;
    let n = if input.len() < layer.input_dims { input.len() } else { layer.input_dims };
    let wlen = layer.weights.len();
    let ghost out0 = output@;
    let mut row: usize = 0;
    while row < rows
        invariant
            layer.wf(),
            rows == layer.output_dims,
            output@.len() == out0.len(),
            out0.len() >= rows,
            row <= rows,
            forall|r: int| 0 <= r < row ==> #[trigger] output@[r] as int == layer.biases@[r] as int,
            forall|i: int| rows <= i < out0.len() ==> #[trigger] output@[i] == out0[i],
        decreases rows - row,
    {
        output[row] = layer.biases[row];
        row += 1;
    }
    let mut input_idx: usize = 0;
    while input_idx < n
        invariant
            layer.wf(),
            padded == layer.padded_input_dims,
            rows == layer.output_dims,
            wlen == layer.weights@.len(),
            n == used_inputs(input@.len() as int, layer.input_dims as int),
            output@.len() == out0.len(),
            out0.len() >= rows,
            input_idx <= n,
            forall|r: int| 0 <= r < rows ==> #[trigger] output@[r] as int
                == affine_row(layer.biases@, layer.weights@, padded as int, input@, input_idx as int, r),
            forall|i: int| rows <= i < out0.len() ==> #[trigger] output@[i] == out0[i],
        decreases n - input_idx,
    {
        let input_value = input[input_idx];
        if input_value != 0 {
            let x = input_value as i32;
            let mut r: usize = 0;
            while r < rows
                invariant
                    layer.wf(),
                    padded == layer.padded_input_dims,
                    rows == layer.output_dims,
                    input_idx < n,
                    n <= layer.input_dims,
                    x == input@[input_idx as int],
                    wlen == layer.weights@.len(),
                    output@.len() == out0.len(),
                    out0.len() >= rows,
                    r <= rows,
                    forall|q: int| 0 <= q < r ==> #[trigger] output@[q] as int
                        == affine_row(layer.biases@, layer.weights@, padded as int, input@, input_idx + 1, q),
                    forall|q: int| r <= q < rows ==> #[trigger] output@[q] as int
                        == affine_row(layer.biases@, layer.weights@, padded as int, input@, input_idx as int, q),
                    forall|i: int| rows <= i < out0.len() ==> #[trigger] output@[i] == out0[i],
                decreases rows - r,
            {
                proof { lemma_row_index(r as int, input_idx as int, padded as int, rows as int); }
                let w = layer.weights[r * padded + input_idx];
                proof { lemma_product_range(w, input@[input_idx as int]); }
                let p = (w as i32) * x;
                let old_v = output[r];
                proof {
                    lemma_wrapping_add_i32(old_v, p);
                    lemma_wrap_i32_add(layer.biases@[r as int] + dot(layer.weights@, r * padded, input@, input_idx as nat),
                        p as int);
                }
                output[r] = old_v.wrapping_add(p);
                r += 1;
            }
        } else {
            proof {
                assert forall|q: int| 0 <= q < rows implies #[trigger] output@[q] as int
                    == affine_row(layer.biases@, layer.weights@, padded as int, input@, input_idx + 1, q) by {
                    assert(input@[input_idx as int] == 0);
                    let wq = layer.weights@[q * padded + input_idx];
                    assert(wq * input@[input_idx as int] == 0);
                    assert(dot(layer.weights@, q * padded, input@, (input_idx + 1) as nat)
                        == dot(layer.weights@, q * padded, input@, input_idx as nat));
                }
            }
        }
        input_idx += 1;
    }
    proof {
        assert forall|q: int| 0 <= q < rows implies #[trigger] output@[q] == layer_row(*layer, input@, q) by {
            lemma_wrap_i32_range_to_i32(affine_row(layer.biases@, layer.weights@, padded as int, input@, n as int, q));
        }
    }
}

/// The first dense layer, whose weights are laid out row by row like the later ones.
pub fn sparse_affine_forward(layer: &AffineLayer, input: &[u8], output: &mut [i32])
    requires
        layer.wf(),
        old(output)@.len() >= layer.output_dims,
    ensures
        final(output)@.len() == old(output)@.len(),
        forall|row: int| 0 <= row < layer.output_dims ==> #[trigger] final(output)@[row] == layer_row(*layer, input@, row),
        forall|i: int| layer.output_dims <= i < old(output)@.len() ==> #[trigger] final(output)@[i] == old(output)@[i],
{
    affine_forward(layer, input, output);
}

/// Index, among the transformed features in natural order, of the value stored at `i`: each
/// block of 32 values is stored as its values 0..8, 16..24, 8..16, 24..32.
pub open spec fn packed_source(i: int) -> int {
    let q = i % 32;
    i - q + (if 8 <= q < 16 { q + 8 } else if 16 <= q < 24 { q - 8 } else { q })
}

/// The first layer's input: the transformed features of the side to move and then of the
/// other side, each block of 32 stored in packed order.
pub open spec fn packed_features(us: Seq<i16>, them: Seq<i16>, half_dims: int) -> Seq<u8> {
    Seq::new(half_dims as nat, |i: int| transformed_features(us, them, half_dims)[packed_source(i)])
}

/// Every stored index reads a natural index of the same block of 32.
proof fn lemma_packed_source_range(i: int, n: int)
    requires
        0 <= i < n,
        n % 32 == 0,
    ensures
        0 <= packed_source(i) < n,
        packed_source(i) - packed_source(i) % 32 == i - i % 32,
{
    let q = i % 32;
    let b = i / 32;
    assert(i == 32 * b + q);
    assert(n == 32 * (n / 32));
    assert(b < n / 32);
    assert(32 * b + 32 <= n);
}

/// Builds the first layer's input from both perspectives' accumulator values: for the side to
/// move and then the other side, value `j` of the perspective's first half (clamped to
/// `[0, 254]`) times value `j` of its second half (clamped likewise), divided by 512; each
/// block of 32 is then stored as its values 0..8, 16..24, 8..16, 24..32. Output values past
/// the accumulator's width keep their old values.
pub fn transform_features(accumulation: &[Vec<i16>; 2], side_to_move: usize, output: &mut [u8])
    requires
        side_to_move < 2,
        accumulation[0]@.len() == accumulation[1]@.len(),
        accumulation[0]@.len() % 64 == 0,
        old(output)@.len() >= accumulation[0]@.len(),
    ensures
        final(output)@.len() == old(output)@.len(),
        forall|i: int| 0 <= i < accumulation[0]@.len() ==> #[trigger] final(output)@[i] == packed_features(
            accumulation[side_to_move as int]@, accumulation[1 - side_to_move as int]@, accumulation[0]@.len() as int)[i],
        forall|i: int| accumulation[0]@.len() <= i < old(output)@.len() ==> #[trigger] final(output)@[i] == old(output)@[i],
{
    let half_dims = accumulation[0].len();
    let half = half_dims / 2;
    let us = side_to_move;
    let them = 1 - side_to_move;
    let ghost natural_spec = transformed_features(accumulation[us as int]@, accumulation[them as int]@, half_dims as int);
    let mut natural: Vec<u8> = Vec::with_capacity(half_dims);
    let mut p: usize = 0;
    while p < 2
        invariant
            half_dims == accumulation[0]@.len(),
            half_dims == accumulation[1]@.len(),
            half_dims % 64 == 0,
            half == half_dims / 2,
            us < 2,
            them == 1 - us,
            p <= 2,
            natural@.len() == half * p,
            natural_spec == transformed_features(accumulation[us as int]@, accumulation[them as int]@, half_dims as int),
            forall|i: int| 0 <= i < natural@.len() ==> #[trigger] natural@[i] == natural_spec[i],
        decreases 2 - p,
    {
        let perspective = if p == 0 { us } else { them };
        let mut j: usize = 0;
        while j < half
            invariant
                half_dims == accumulation[0]@.len(),
                half_dims == accumulation[1]@.len(),
                half_dims % 64 == 0,
                half == half_dims / 2,
                half + half == half_dims,
                us < 2,
                them == 1 - us,
                p < 2,
                perspective == (if p == 0 { us } else { them }),
                j <= half,
                natural@.len() == half * p + j,
                natural_spec == transformed_features(accumulation[us as int]@, accumulation[them as int]@, half_dims as int),
                forall|i: int| 0 <= i < natural@.len() ==> #[trigger] natural@[i] == natural_spec[i],
            decreases half - j,
        {
            let a = accumulation[perspective][j];
            let b = accumulation[perspective][j + half];
            let sum0: i32 = if a < 0 { 0 } else if a > 254 { 254 } else { a as i32 };
            let sum1: i32 = if b < 0 { 0 } else if b > 254 { 254 } else { b as i32 };
            assert(0 <= sum0 * sum1 <= 254 * 254) by (nonlinear_arith)
                requires
                    0 <= sum0 <= 254,
                    0 <= sum1 <= 254,
            ;
            let v = ((sum0 * sum1) / 512) as u8;
            natural.push(v);
            j += 1;
        }
        p += 1;
    }
    let ghost out0 = output@;
    let mut i: usize = 0;
    while i < half_dims
        invariant
            half_dims == accumulation[0]@.len(),
            half_dims % 64 == 0,
            natural@.len() == half_dims,
            output@.len() == out0.len(),
            out0.len() >= half_dims,
            i <= half_dims,
            forall|k: int| 0 <= k < natural@.len() ==> #[trigger] natural@[k] == natural_spec[k],
            forall|k: int| 0 <= k < i ==> #[trigger] output@[k] == natural_spec[packed_source(k)],
            forall|k: int| i <= k < out0.len() ==> #[trigger] output@[k] == out0[k],
        decreases half_dims - i,
    {
        proof { lemma_packed_source_range(i as int, half_dims as int); }
        let q = i % 32;
        let source = if 8 <= q && q < 16 { i + 8 } else if 16 <= q && q < 24 { i - 8 } else { i };
        output[i] = natural[source];
        i += 1;
    }
}

} // verus!
