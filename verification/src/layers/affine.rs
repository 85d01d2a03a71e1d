//! Dense affine layer: `output = weights * input + biases`.
use vstd::prelude::*;
use super::Layer;
use crate::aligned::AlignedBuffer;
use crate::arith::{lemma_wrap_i32_add, lemma_wrap_i32_id, lemma_wrapping_add_i32};
use crate::loader::{le_u32, read_i32_array, read_i8_array, wrap_i32, wrap_i8, ByteReader, LoadError};

verus! {

/// `Σ_{k < n} w[base + k] * input[k]`.
pub open spec fn dot(w: Seq<i8>, base: int, input: Seq<u8>, n: nat) -> int
    decreases n,
{
    if n == 0 { 0 } else { dot(w, base, input, (n - 1) as nat) + w[base + n - 1] * input[n - 1] }
}

/// Number of input values a dense layer reads.
pub open spec fn used_inputs(input_len: int, input_dims: int) -> int {
    if input_len < input_dims { input_len } else { input_dims }
}

/// Smallest multiple of 32 that is at least `n`.
pub open spec fn padded_dims(n: int) -> int {
    (n + 31) / 32 * 32
}

/// Padded width of a dense layer's rows.
pub fn padded_input(input_dims: usize) -> (r: usize)
    requires
        input_dims + 31 <= usize::MAX,
    ensures
        r == padded_dims(input_dims as int),
        r >= input_dims,
        r % 32 == 0,
{
    (input_dims + 31) / 32 * 32
}

/// Dense affine layer used by the later NNUE stages.
pub struct AffineTransform {
    pub biases: AlignedBuffer<i32>,
    pub weights: AlignedBuffer<i8>,
    pub input_dims: usize,
    pub output_dims: usize,
    pub padded_input_dims: usize,
}

impl AffineTransform {
    /// A layer with zero biases and weights.
    pub fn new(input_dims: usize, output_dims: usize) -> (r: Self)
        requires
            input_dims + 31 <= usize::MAX,
            output_dims * padded_dims(input_dims as int) <= usize::MAX,
        ensures
            r.wf(),
            r.input_dims == input_dims,
            r.output_dims == output_dims,
            r.padded_input_dims == padded_dims(input_dims as int),
            forall|i: int| 0 <= i < output_dims ==> #[trigger] r.biases@[i] == 0,
            forall|i: int| 0 <= i < r.weights@.len() ==> #[trigger] r.weights@[i] == 0,
    {
        let padded_input_dims = padded_input(input_dims);
        Self {
            biases: AlignedBuffer::with_element(output_dims, 0i32),
            weights: AlignedBuffer::with_element(output_dims * padded_input_dims, 0i8),
            input_dims,
            output_dims,
            padded_input_dims,
        }
    }
}

/// Output row `row` of a dense layer: bias plus the weighted inputs, wrapped to 32 bits.
pub open spec fn affine_row(biases: Seq<i32>, weights: Seq<i8>, padded: int, input: Seq<u8>, n: int, row: int) -> int {
    wrap_i32(biases[row] + dot(weights, row * padded, input, n as nat))
}

pub(crate) proof fn lemma_row_index(row: int, k: int, padded: int, rows: int)
    requires
        0 <= row < rows,
        0 <= k < padded,
    ensures
        0 <= row * padded + k < rows * padded,
{
    assert(row * padded + k < rows * padded) by (nonlinear_arith)
        requires
            0 <= row < rows,
            0 <= k < padded,
    ;
    assert(row * padded >= 0) by (nonlinear_arith)
        requires
            0 <= row,
            0 <= padded,
    ;
}

pub(crate) proof fn lemma_product_range(w: i8, x: u8)
    ensures
        -32640 <= w * x <= 32385,
{
    assert(-32640 <= w * x <= 32385) by (nonlinear_arith)
        requires
            -128 <= w <= 127,
            0 <= x <= 255,
    ;
}

impl Layer for AffineTransform {
    type Input = u8;
    type Output = i32;

    open spec fn wf(&self) -> bool {
        &&& self.biases@.len() == self.output_dims
        &&& self.weights@.len() == self.output_dims * self.padded_input_dims
        &&& self.input_dims <= self.padded_input_dims
    }

    open spec fn accepts(&self, input: Seq<u8>, output: Seq<i32>) -> bool {
        output.len() == self.output_dims
    }

    open spec fn propagated(&self, input: Seq<u8>, output: Seq<i32>) -> Seq<i32> {
        Seq::new(output.len(), |row: int| affine_row(self.biases@, self.weights@, self.padded_input_dims as int, input,
            used_inputs(input.len() as int, self.input_dims as int), row) as i32)
    }

    open spec fn read_ready(&self) -> bool {
        true
    }

    open spec fn loaded(&self, before: Self, bytes: Seq<u8>, pos: int, end: int, r: Result<(), LoadError>) -> bool {
        let n_b = before.output_dims as int;
        let n_w = before.output_dims * before.padded_input_dims;
        &&& self.input_dims == before.input_dims
        &&& self.output_dims == before.output_dims
        &&& self.padded_input_dims == before.padded_input_dims
        &&& (r is Ok <==> pos + 4 * n_b + n_w <= bytes.len())
        &&& (r is Ok ==> end == pos + 4 * n_b + n_w
            && (forall|i: int| 0 <= i < n_b ==> #[trigger] self.biases@[i] as int == wrap_i32(le_u32(bytes, pos + 4 * i)))
            && (forall|i: int| 0 <= i < n_w ==> #[trigger] self.weights@[i] as int == wrap_i8(bytes[pos + 4 * n_b + i] as int)))
        &&& (r is Err ==> r->Err_0 == LoadError::UnexpectedEof)
    }

    fn propagate(&self, input: &[u8], output: &mut [i32]) {
        let padded = self.padded_input_dims;
        let rows = self.output_dims;
        let n = if input.len() < self.input_dims { input.len() } else { self.input_dims };
        let wlen = self.weights.len();
        let ghost out0 = output@;
        let mut row: usize = 0;
        while row < rows
            invariant
                self.wf(),
                rows == self.output_dims,
                output@.len() == rows,
                row <= rows,
                forall|r: int| 0 <= r < row ==> #[trigger] output@[r] as int == self.biases@[r] as int,
            decreases rows - row,
        {
            output[row] = self.biases.get(row);
            row += 1;
        }
        let mut input_idx: usize = 0;
        while input_idx < n
            invariant
                self.wf(),
                padded == self.padded_input_dims,
                rows == self.output_dims,
                wlen == self.weights@.len(),
                n == used_inputs(input@.len() as int, self.input_dims as int),
                output@.len() == rows,
                input_idx <= n,
                forall|r: int| 0 <= r < rows ==> #[trigger] output@[r] as int
                    == affine_row(self.biases@, self.weights@, padded as int, input@, input_idx as int, r),
            decreases n - input_idx,
        {
            let input_value = input[input_idx];
            if input_value != 0 {
                let x = input_value as i32;
                let mut r: usize = 0;
                while r < rows
                    invariant
                        self.wf(),
                        padded == self.padded_input_dims,
                        rows == self.output_dims,
                        input_idx < n,
                        n <= self.input_dims,
                        x == input@[input_idx as int],
                        wlen == self.weights@.len(),
                        output@.len() == rows,
                        r <= rows,
                        forall|q: int| 0 <= q < r ==> #[trigger] output@[q] as int
                            == affine_row(self.biases@, self.weights@, padded as int, input@, input_idx + 1, q),
                        forall|q: int| r <= q < rows ==> #[trigger] output@[q] as int
                            == affine_row(self.biases@, self.weights@, padded as int, input@, input_idx as int, q),
                    decreases rows - r,
                {
                    proof { lemma_row_index(r as int, input_idx as int, padded as int, rows as int); }
                    let w = self.weights.get(r * padded + input_idx);
                    proof { lemma_product_range(w, input@[input_idx as int]); }
                    let p = (w as i32) * x;
                    let old_v = output[r];
                    proof {
                        lemma_wrapping_add_i32(old_v, p);
                        lemma_wrap_i32_add(self.biases@[r as int] + dot(self.weights@, r * padded, input@, input_idx as nat), p as int);
                    }
                    output[r] = old_v.wrapping_add(p);
                    r += 1;
                }
            } else {
                proof {
                    assert forall|q: int| 0 <= q < rows implies #[trigger] output@[q] as int
                        == affine_row(self.biases@, self.weights@, padded as int, input@, input_idx + 1, q) by {
                        assert(input@[input_idx as int] == 0);
                        let wq = self.weights@[q * padded + input_idx];
                        assert(wq * input@[input_idx as int] == 0);
                        assert(dot(self.weights@, q * padded, input@, (input_idx + 1) as nat)
                            == dot(self.weights@, q * padded, input@, input_idx as nat));
                    }
                }
            }
            input_idx += 1;
        }
        proof {
            assert forall|q: int| 0 <= q < rows implies output@[q] == self.propagated(input@, out0)[q] by {
                lemma_wrap_i32_range_to_i32(affine_row(self.biases@, self.weights@, padded as int, input@, n as int, q));
            }
        }
        assert(output@ =~= self.propagated(input@, out0));
    }

    fn read_parameters(&mut self, reader: &mut ByteReader) -> (r: Result<(), LoadError>) {
        let ghost pos = reader.pos();
        let ghost bytes = reader.bytes();
        let _ = reader.position();
        let _ = self.weights.len();
        let biases = match read_i32_array(reader, self.output_dims) {
            Ok(b) => b,
            Err(e) => {
                return Err(e);
            },
        };
        let weights = match read_i8_array(reader, self.output_dims * self.padded_input_dims) {
            Ok(w) => w,
            Err(e) => {
                return Err(e);
            },
        };
        self.biases = AlignedBuffer::from_vec(biases);
        self.weights = AlignedBuffer::from_vec(weights);
        Ok(())
    }
}

/// A wrapped value fits `i32` and survives the round trip through it.
pub proof fn lemma_wrap_i32_range_to_i32(x: int)
    ensures
        (wrap_i32(x) as i32) as int == wrap_i32(x),
{
    crate::arith::lemma_wrap_i32_range(x);
}

} // verus!
