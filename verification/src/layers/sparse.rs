//! Affine layer applied to the transformed features, with weights stored column-interleaved.
use vstd::prelude::*;
use super::Layer;
use super::affine::{lemma_wrap_i32_range_to_i32, padded_dims, padded_input, used_inputs};
use crate::aligned::AlignedBuffer;
use crate::arith::{lemma_wrap_i32_add, lemma_wrapping_add_i32};
use crate::loader::{le_u32, read_i32_array, read_i8_array, wrap_i32, wrap_i8, ByteReader, LoadError};
use vstd::arithmetic::div_mod::lemma_fundamental_div_mod_converse;

verus! {

/// Column of the stored row that feeds input `index`: the file stores the transformed
/// features in the byte order of the vectorised packing, 8-value groups interleaved.
pub open spec fn fc_source_column(index: int) -> int {
    let chunk = index / 32;
    let byte = index % 32;
    let block = chunk / 2;
    let row = chunk % 2;
    let a = if row == 0 { 4 * block } else { 4 * block + 1 };
    let b = if row == 0 { 4 * block + 2 } else { 4 * block + 3 };
    if byte < 8 {
        a * 16 + byte
    } else if byte < 16 {
        b * 16 + (byte - 8)
    } else if byte < 24 {
        a * 16 + (byte - 16) + 8
    } else {
        b * 16 + (byte - 24) + 8
    }
}

/// Maps a logical column to the stored column it is read from.
pub fn permuted_fc_column(index: usize) -> (r: usize)
    requires
        fc_source_column(index as int) <= usize::MAX,
    ensures
        r == fc_source_column(index as int),
{
    let chunk: usize = index / 32;
    let byte: usize = index % 32;
    let block: usize = chunk / 2;
    let row: usize = chunk % 2;

    let (block_a, block_b) = if row == 0 {
        (4 * block, 4 * block + 2)
    } else {
        (4 * block + 1, 4 * block + 3)
    };

    if byte < 8 {
        block_a * 16 + byte
    } else if byte < 16 {
        block_b * 16 + (byte - 8)
    } else if byte < 24 {
        block_a * 16 + (byte - 16) + 8
    } else {
        block_b * 16 + (byte - 24) + 8
    }
}

/// Storage position of the weight of row-major index `index`: groups of four consecutive
/// columns are laid out column group by column group across all rows.
pub open spec fn scrambled_index(index: int, padded: int, output_dims: int) -> int {
    (index / 4) % (padded / 4) * output_dims * 4 + index / padded * 4 + index % 4
}

/// Storage position of the weight of row-major index `index`.
pub fn scrambled_weight_index(index: usize, padded_input_dims: usize, output_dims: usize) -> (r: usize)
    requires
        padded_input_dims >= 4,
        padded_input_dims % 4 == 0,
        index < output_dims * padded_input_dims,
        output_dims * padded_input_dims <= usize::MAX,
    ensures
        r == scrambled_index(index as int, padded_input_dims as int, output_dims as int),
{
    let chunk_size: usize = 4;
    let row: usize = index / padded_input_dims;
    let k: usize = index % padded_input_dims;
    proof {
        lemma_fundamental_div_mod_converse(index as int, padded_input_dims as int, row as int, k as int);
        assert(row * padded_input_dims + k == index) by (nonlinear_arith)
            requires
                row == index / padded_input_dims,
                k == index % padded_input_dims,
                padded_input_dims > 0,
        ;
        assert(row < output_dims) by (nonlinear_arith)
            requires
                row == index / padded_input_dims,
                index < output_dims * padded_input_dims,
                padded_input_dims > 0,
        ;
        lemma_scrambled(row as int, k as int, padded_input_dims as int, output_dims as int);
    }
    let group = (index / chunk_size) % (padded_input_dims / chunk_size);
    assert(group == k / 4);
    assert(group * output_dims <= group * (4 * output_dims)) by (nonlinear_arith)
        requires
            group >= 0,
            output_dims >= 0,
    ;
    assert(group * output_dims * 4 == group * (4 * output_dims)) by (nonlinear_arith);
    group * output_dims * chunk_size
        + index / padded_input_dims * chunk_size
        + index % chunk_size
}

/// The storage position of row `row`, column `k`, written without division.
pub proof fn lemma_scrambled(row: int, k: int, padded: int, output_dims: int)
    requires
        0 <= row < output_dims,
        0 <= k < padded,
        padded >= 4,
        padded % 4 == 0,
    ensures
        scrambled_index(row * padded + k, padded, output_dims) == (k / 4) * (4 * output_dims) + 4 * row + k % 4,
        (row * padded + k) / 4 % (padded / 4) == k / 4,
        (row * padded + k) / padded == row,
        (row * padded + k) % 4 == k % 4,
        0 <= (k / 4) * (4 * output_dims) + 4 * row + k % 4 < output_dims * padded,
{
    let p4 = padded / 4;
    let index = row * padded + k;
    assert(padded == 4 * p4);
    assert(index == (row * p4 + k / 4) * 4 + k % 4) by (nonlinear_arith)
        requires
            index == row * padded + k,
            padded == 4 * p4,
            k == (k / 4) * 4 + k % 4,
    ;
    lemma_fundamental_div_mod_converse(index, 4, row * p4 + k / 4, k % 4);
    assert(k / 4 < p4) by (nonlinear_arith)
        requires
            k < padded,
            padded == 4 * p4,
            k / 4 * 4 <= k,
    ;
    assert(0 <= row * p4) by (nonlinear_arith)
        requires
            0 <= row,
            0 <= p4,
    ;
    lemma_fundamental_div_mod_converse(row * p4 + k / 4, p4, row, k / 4);
    lemma_fundamental_div_mod_converse(index, padded, row, k);
    assert((k / 4) * (4 * output_dims) + 4 * row + k % 4 < output_dims * padded) by (nonlinear_arith)
        requires
            0 <= row < output_dims,
            0 <= k / 4 < p4,
            0 <= k % 4 < 4,
            padded == 4 * p4,
    ;
    assert(0 <= (k / 4) * (4 * output_dims)) by (nonlinear_arith)
        requires
            0 <= k / 4,
            0 <= output_dims,
    ;
    assert((index / 4) % (padded / 4) * output_dims * 4 == (k / 4) * (4 * output_dims)) by (nonlinear_arith)
        requires
            (index / 4) % (padded / 4) == k / 4,
    ;
}

/// Distinct cells of the weight matrix are stored at distinct positions.
pub proof fn lemma_scrambled_injective(r1: int, k1: int, r2: int, k2: int, padded: int, output_dims: int)
    requires
        0 <= r1 < output_dims,
        0 <= k1 < padded,
        0 <= r2 < output_dims,
        0 <= k2 < padded,
        padded >= 4,
        padded % 4 == 0,
        scrambled_index(r1 * padded + k1, padded, output_dims) == scrambled_index(r2 * padded + k2, padded, output_dims),
    ensures
        r1 == r2 && k1 == k2,
{
    lemma_scrambled(r1, k1, padded, output_dims);
    lemma_scrambled(r2, k2, padded, output_dims);
    let d = 4 * output_dims;
    let x = (k1 / 4) * d + 4 * r1 + k1 % 4;
    lemma_fundamental_div_mod_converse(x, d, k1 / 4, 4 * r1 + k1 % 4);
    lemma_fundamental_div_mod_converse(x, d, k2 / 4, 4 * r2 + k2 % 4);
    lemma_fundamental_div_mod_converse(4 * r1 + k1 % 4, 4, r1, k1 % 4);
    lemma_fundamental_div_mod_converse(4 * r1 + k1 % 4, 4, r2, k2 % 4);
}

/// Every storage position of the weight matrix holds some cell of it.
pub proof fn lemma_scrambled_onto(i: int, padded: int, output_dims: int) -> (cell: (int, int))
    requires
        0 <= i < output_dims * padded,
        padded >= 4,
        padded % 4 == 0,
        output_dims > 0,
    ensures
        0 <= cell.0 < output_dims,
        0 <= cell.1 < padded,
        scrambled_index(cell.0 * padded + cell.1, padded, output_dims) == i,
{
    let d = 4 * output_dims;
    let p4 = padded / 4;
    let g = i / d;
    let r4 = i % d;
    let row = r4 / 4;
    let m = r4 % 4;
    let col = 4 * g + m;
    vstd::arithmetic::div_mod::lemma_fundamental_div_mod(i, d);
    vstd::arithmetic::div_mod::lemma_fundamental_div_mod(r4, 4);
    assert(0 <= r4 < d);
    assert(0 <= m < 4);
    assert(row < output_dims);
    assert(0 <= row);
    assert(i < d * p4) by (nonlinear_arith)
        requires
            i < output_dims * padded,
            padded == 4 * p4,
            d == 4 * output_dims,
    ;
    assert(g < p4) by (nonlinear_arith)
        requires
            i < d * p4,
            i == d * g + r4,
            0 <= r4,
            d > 0,
    ;
    assert(0 <= g) by (nonlinear_arith)
        requires
            i >= 0,
            i == d * g + r4,
            r4 < d,
            d > 0,
    ;
    assert(col < padded);
    lemma_scrambled(row, col, padded, output_dims);
    lemma_fundamental_div_mod_converse(col, 4, g, m);
    assert(g * d == d * g) by (nonlinear_arith);
    (row, col)
}

/// `Σ_{k < n} w[scrambled(row * padded + k)] * input[k]`.
pub open spec fn sparse_dot(w: Seq<i8>, row: int, padded: int, output_dims: int, input: Seq<u8>, n: nat) -> int
    decreases n,
{
    if n == 0 {
        0
    } else {
        sparse_dot(w, row, padded, output_dims, input, (n - 1) as nat)
            + w[scrambled_index(row * padded + n - 1, padded, output_dims)] * input[n - 1]
    }
}

/// Stored column that logical column `col` of a layer with `input_dims` inputs comes from.
pub open spec fn stored_column(col: int, input_dims: int) -> int {
    if col < input_dims { fc_source_column(col) } else { col }
}

/// Sparse-input affine layer used directly after feature transformation.
pub struct AffineTransformSparseInput {
    pub biases: AlignedBuffer<i32>,
    pub weights: AlignedBuffer<i8>,
    pub input_dims: usize,
    pub output_dims: usize,
    pub padded_input_dims: usize,
}

impl AffineTransformSparseInput {
    /// A layer with zero biases and weights.
    pub fn new(input_dims: usize, output_dims: usize) -> (r: Self)
        requires
            input_dims + 31 <= usize::MAX,
            output_dims * padded_dims(input_dims as int) <= usize::MAX,
        ensures
            r.wf(),
            r.input_dims == input_dims,
            r.output_dims == output_dims,
            r.padded_input_dims == padded_dims(input_dims as int),
            forall|i: int| 0 <= i < output_dims ==> #[trigger] r.biases@[i] == 0,
            forall|i: int| 0 <= i < r.weights@.len() ==> #[trigger] r.weights@[i] == 0,
    {
        let padded_input_dims = padded_input(input_dims);
        Self {
            biases: AlignedBuffer::with_element(output_dims, 0i32),
            weights: AlignedBuffer::with_element(output_dims * padded_input_dims, 0i8),
            input_dims,
            output_dims,
            padded_input_dims,
        }
    }
}

impl Layer for AffineTransformSparseInput {
    type Input = u8;
    type Output = i32;

    open spec fn wf(&self) -> bool {
        &&& self.biases@.len() == self.output_dims
        &&& self.weights@.len() == self.output_dims * self.padded_input_dims
        &&& self.input_dims <= self.padded_input_dims
        &&& self.padded_input_dims % 32 == 0
    }

    open spec fn accepts(&self, input: Seq<u8>, output: Seq<i32>) -> bool {
        output.len() == self.output_dims
    }

    open spec fn propagated(&self, input: Seq<u8>, output: Seq<i32>) -> Seq<i32> {
        Seq::new(output.len(), |row: int| wrap_i32(self.biases@[row] + sparse_dot(self.weights@, row,
            self.padded_input_dims as int, self.output_dims as int, input,
            used_inputs(input.len() as int, self.input_dims as int) as nat)) as i32)
    }

    open spec fn read_ready(&self) -> bool {
        forall|col: int| 0 <= col < self.input_dims ==> #[trigger] fc_source_column(col) < self.padded_input_dims
    }

    open spec fn loaded(&self, before: Self, bytes: Seq<u8>, pos: int, end: int, r: Result<(), LoadError>) -> bool {
        let o = before.output_dims as int;
        let p = before.padded_input_dims as int;
        &&& self.input_dims == before.input_dims
        &&& self.output_dims == before.output_dims
        &&& self.padded_input_dims == before.padded_input_dims
        &&& (r is Ok <==> pos + 4 * o + o * p <= bytes.len())
        &&& (r is Ok ==> end == pos + 4 * o + o * p
            && (forall|i: int| 0 <= i < o ==> #[trigger] self.biases@[i] as int == wrap_i32(le_u32(bytes, pos + 4 * i)))
            && (forall|row: int, col: int| 0 <= row < o && 0 <= col < p ==>
                #[trigger] self.weights@[scrambled_index(row * p + col, p, o)] as int
                    == wrap_i8(bytes[pos + 4 * o + row * p + stored_column(col, self.input_dims as int)] as int)))
        &&& (r is Err ==> r->Err_0 == LoadError::UnexpectedEof)
    }

    fn propagate(&self, input: &[u8], output: &mut [i32]) {
        let padded = self.padded_input_dims;
        let rows = self.output_dims;
        let n = if input.len() < self.input_dims { input.len() } else { self.input_dims };
        let ghost out0 = output@;
        let wlen = self.weights.len();
        let mut row: usize = 0;
        while row < rows
            invariant
                self.wf(),
                rows == self.output_dims,
                output@.len() == rows,
                row <= rows,
                forall|r: int| 0 <= r < row ==> #[trigger] output@[r] as int == self.biases@[r] as int,
            decreases rows - row,
        {
            output[row] = self.biases.get(row);
            row += 1;
        }
        let mut input_idx: usize = 0;
        while input_idx < n
            invariant
                self.wf(),
                padded == self.padded_input_dims,
                rows == self.output_dims,
                wlen == self.weights@.len(),
                n == used_inputs(input@.len() as int, self.input_dims as int),
                output@.len() == rows,
                input_idx <= n,
                forall|r: int| 0 <= r < rows ==> #[trigger] output@[r] as int
                    == wrap_i32(self.biases@[r] + sparse_dot(self.weights@, r, padded as int, rows as int, input@, input_idx as nat)),
            decreases n - input_idx,
        {
            let input_value = input[input_idx];
            if input_value != 0 {
                let x = input_value as i32;
                let mut r: usize = 0;
                while r < rows
                    invariant
                        self.wf(),
                        padded == self.padded_input_dims,
                        rows == self.output_dims,
                        input_idx < n,
                        n <= self.input_dims,
                        x == input@[input_idx as int],
                        wlen == self.weights@.len(),
                        output@.len() == rows,
                        r <= rows,
                        forall|q: int| 0 <= q < r ==> #[trigger] output@[q] as int
                            == wrap_i32(self.biases@[q] + sparse_dot(self.weights@, q, padded as int, rows as int, input@, (input_idx + 1) as nat)),
                        forall|q: int| r <= q < rows ==> #[trigger] output@[q] as int
                            == wrap_i32(self.biases@[q] + sparse_dot(self.weights@, q, padded as int, rows as int, input@, input_idx as nat)),
                    decreases rows - r,
                {
                    proof {
                        assert(padded >= 4);
                        lemma_scrambled(r as int, input_idx as int, padded as int, rows as int);
                        assert(r * padded + input_idx < rows * padded) by (nonlinear_arith)
                            requires
                                r < rows,
                                input_idx < padded,
                        ;
                    }
                    let widx = scrambled_weight_index(r * padded + input_idx, padded, rows);
                    let w = self.weights.get(widx);
                    assert(-32640 <= w * input@[input_idx as int] <= 32385) by (nonlinear_arith)
                        requires
                            -128 <= w <= 127,
                            0 <= input@[input_idx as int] <= 255,
                    ;
                    let p = (w as i32) * x;
                    let old_v = output[r];
                    proof {
                        lemma_wrapping_add_i32(old_v, p);
                        lemma_wrap_i32_add(self.biases@[r as int] + sparse_dot(self.weights@, r as int, padded as int, rows as int, input@, input_idx as nat), p as int);
                    }
                    output[r] = old_v.wrapping_add(p);
                    r += 1;
                }
            } else {
                proof {
                    assert forall|q: int| 0 <= q < rows implies #[trigger] output@[q] as int
                        == wrap_i32(self.biases@[q] + sparse_dot(self.weights@, q, padded as int, rows as int, input@, (input_idx + 1) as nat)) by {
                        assert(input@[input_idx as int] == 0);
                        let wq = self.weights@[scrambled_index(q * padded + input_idx, padded as int, rows as int)];
                        assert(wq * input@[input_idx as int] == 0);
                    }
                }
            }
            input_idx += 1;
        }
        proof {
            assert forall|q: int| 0 <= q < rows implies output@[q] == self.propagated(input@, out0)[q] by {
                lemma_wrap_i32_range_to_i32(self.biases@[q] + sparse_dot(self.weights@, q, padded as int, rows as int, input@, n as nat));
            }
        }
        assert(output@ =~= self.propagated(input@, out0));
    }

    fn read_parameters(&mut self, reader: &mut ByteReader) -> (r: Result<(), LoadError>) {
        let ghost pos = reader.pos();
        let ghost bytes = reader.bytes();
        let _ = reader.position();
        let _ = self.weights.len();
        let rows = self.output_dims;
        let padded = self.padded_input_dims;
        let biases = match read_i32_array(reader, rows) {
            Ok(b) => b,
            Err(e) => {
                return Err(e);
            },
        };
        let raw_weights = match read_i8_array(reader, rows * padded) {
            Ok(w) => w,
            Err(e) => {
                return Err(e);
            },
        };
        let total = rows * padded;
        let mut scrambled: Vec<i8> = Vec::with_capacity(total);
        let mut i: usize = 0;
        while i < total
            invariant
                i <= total,
                scrambled@.len() == i,
            decreases total - i,
        {
            scrambled.push(0i8);
            i += 1;
        }
        let ghost o = rows as int;
        let ghost p = padded as int;
        let mut row: usize = 0;
        while row < rows
            invariant
                self.wf(),
                self.read_ready(),
                rows == self.output_dims,
                padded == self.padded_input_dims,
                total == rows * padded,
                o == rows,
                p == padded,
                raw_weights@.len() == total,
                scrambled@.len() == total,
                row <= rows,
                forall|r2: int, c2: int| 0 <= r2 < row && 0 <= c2 < padded ==>
                    #[trigger] scrambled@[scrambled_index(r2 * p + c2, p, o)] == raw_weights@[r2 * p + stored_column(c2, self.input_dims as int)],
            decreases rows - row,
        {
            assert(row * padded <= total) by (nonlinear_arith)
                requires
                    row < rows,
                    total == rows * padded,
            ;
            let row_offset = row * padded;
            let mut column: usize = 0;
            while column < padded
                invariant
                    self.wf(),
                    self.read_ready(),
                    rows == self.output_dims,
                    padded == self.padded_input_dims,
                    total == rows * padded,
                    o == rows,
                    p == padded,
                    raw_weights@.len() == total,
                    scrambled@.len() == total,
                    row < rows,
                    row_offset == row * padded,
                    column <= padded,
                    forall|r2: int, c2: int| 0 <= r2 < row && 0 <= c2 < padded ==>
                        #[trigger] scrambled@[scrambled_index(r2 * p + c2, p, o)] == raw_weights@[r2 * p + stored_column(c2, self.input_dims as int)],
                    forall|c2: int| 0 <= c2 < column ==>
                        #[trigger] scrambled@[scrambled_index(row * p + c2, p, o)] == raw_weights@[row * p + stored_column(c2, self.input_dims as int)],
                decreases padded - column,
            {
                proof {
                    assert(row * padded + padded <= rows * padded) by (nonlinear_arith)
                        requires
                            row < rows,
                    ;
                    assert(padded >= 32);
                }
                let source_column = if column < self.input_dims {
                    assert(fc_source_column(column as int) < padded);
                    permuted_fc_column(column)
                } else {
                    column
                };
                let source_idx = row_offset + source_column;
                proof { lemma_scrambled(row as int, column as int, p, o); }
                let dest_idx = scrambled_weight_index(row_offset + column, padded, rows);
                let ghost before = scrambled@;
                let v = raw_weights[source_idx];
                scrambled.set(dest_idx, v);
                proof {
                    assert forall|r2: int, c2: int| 0 <= r2 < row && 0 <= c2 < padded implies
                        #[trigger] scrambled@[scrambled_index(r2 * p + c2, p, o)] == raw_weights@[r2 * p + stored_column(c2, self.input_dims as int)] by {
                        lemma_scrambled(r2, c2, p, o);
                        assert(before[scrambled_index(r2 * p + c2, p, o)] == raw_weights@[r2 * p + stored_column(c2, self.input_dims as int)]);
                        if scrambled_index(r2 * p + c2, p, o) == dest_idx {
                            lemma_scrambled_injective(r2, c2, row as int, column as int, p, o);
                        }
                    }
                    assert forall|c2: int| 0 <= c2 < column + 1 implies
                        #[trigger] scrambled@[scrambled_index(row * p + c2, p, o)] == raw_weights@[row * p + stored_column(c2, self.input_dims as int)] by {
                        lemma_scrambled(row as int, c2, p, o);
                        if c2 < column {
                            assert(before[scrambled_index(row * p + c2, p, o)] == raw_weights@[row * p + stored_column(c2, self.input_dims as int)]);
                            if scrambled_index(row * p + c2, p, o) == dest_idx {
                                lemma_scrambled_injective(row as int, c2, row as int, column as int, p, o);
                            }
                        }
                    }
                }
                column += 1;
            }
            row += 1;
        }
        proof {
            assert forall|r2: int, c2: int| 0 <= r2 < o && 0 <= c2 < p implies
                #[trigger] scrambled@[scrambled_index(r2 * p + c2, p, o)] as int
                    == wrap_i8(bytes[pos + 4 * o + r2 * p + stored_column(c2, self.input_dims as int)] as int) by {
                lemma_scrambled(r2, c2, p, o);
                assert(0 <= r2 * p + stored_column(c2, self.input_dims as int) < o * p) by {
                    if c2 < self.input_dims {
                        assert(fc_source_column(c2) < p);
                        assert(fc_source_column(c2) >= 0);
                    }
                    assert(r2 * p + p <= o * p) by (nonlinear_arith)
                        requires
                            r2 < o,
                            p >= 0,
                    ;
                    assert(r2 * p >= 0) by (nonlinear_arith)
                        requires
                            r2 >= 0,
                            p >= 0,
                    ;
                }
            }
        }
        self.biases = AlignedBuffer::from_vec(biases);
        self.weights = AlignedBuffer::from_vec(scrambled);
        Ok(())
    }
}

} // verus!
