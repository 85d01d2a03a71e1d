//! The plain evaluator's network: a feature transformer and eight stacks of three dense
//! layers, read from the bytes of an `.nnue` file.
use vstd::prelude::*;
use vstd::arithmetic::div_mod::lemma_fundamental_div_mod_converse;
use crate::feature_transformer::{FeatureTransformer, ft_end, ft_read, ft_param_values};
use crate::features::FEATURE_DIMS;
use crate::layers::affine::{padded_dims, padded_input};
use crate::layers::sparse::{fc_source_column, permuted_fc_column, stored_column};
use crate::loader::{ByteReader, LoadError, le_u32, leb_magic, leb_payload, read_i32_array, read_i8_array, read_u32,
    same_values_i16, same_values_i32, wrap_i32, wrap_i8};
use crate::network::load::{VERSION, is_leb_magic, lemma_leb_decode_len, transformer_start};

verus! {

/// Accumulator width per perspective of the big network.
pub const BIG_HALF_DIMS: usize = 3072;
/// Accumulator width per perspective of the small network.
pub const SMALL_HALF_DIMS: usize = 128;
/// Width of the first layer's output.
pub const FC0_OUTPUT_DIMS: usize = 16;
/// Width of the second layer's input.
pub const FC1_INPUT_DIMS: usize = 30;
/// Width of the second layer's output.
pub const FC1_OUTPUT_DIMS: usize = 32;
/// Number of layer stacks, one per output bucket.
pub const LAYER_STACK_COUNT: usize = 8;

/// Fully connected layer: `output = weights * input + biases`, weights stored row by row with
/// rows padded to a multiple of 32 inputs.
pub struct AffineLayer {
    pub input_dims: usize,
    pub output_dims: usize,
    pub biases: Vec<i32>,
    pub weights: Vec<i8>,
    pub padded_input_dims: usize,
}

/// The weights of a first layer as its rows hold them: column `c` of a row is read from
/// column `stored_column(c)` of that row as stored.
pub open spec fn fc0_layout(raw: Seq<i8>, padded: int, input_dims: int) -> Seq<i8> {
    Seq::new(raw.len(), |i: int| raw[(i / padded) * padded + stored_column(i % padded, input_dims)])
}

/// Whether `layer` holds the parameters stored at `pos` of `bytes`: the biases as
/// little-endian `i32` values, then one byte per weight, the weights laid out as `layout` says.
pub open spec fn holds_layer(layer: AffineLayer, bytes: Seq<u8>, pos: int, first: bool) -> bool {
    let n_b = layer.output_dims as int;
    let n_w = layer.output_dims * layer.padded_input_dims;
    let raw = Seq::new(n_w as nat, |i: int| wrap_i8(bytes[pos + 4 * n_b + i] as int) as i8);
    &&& layer.biases@.len() == n_b
    &&& forall|i: int| 0 <= i < n_b ==> #[trigger] layer.biases@[i] as int == wrap_i32(le_u32(bytes, pos + 4 * i))
    &&& layer.weights@ == (if first { fc0_layout(raw, layer.padded_input_dims as int, layer.input_dims as int) } else {
        raw })
}

impl AffineLayer {
    /// Whether the parameters have the sizes the dimensions ask for.
    pub open spec fn wf(&self) -> bool {
        &&& self.biases@.len() == self.output_dims
        &&& self.weights@.len() == self.output_dims * self.padded_input_dims
        &&& self.input_dims <= self.padded_input_dims
    }

    /// A layer of the given dimensions with no parameters yet.
    pub fn new(input_dims: usize, output_dims: usize) -> (r: Self)
        requires
            input_dims + 31 <= usize::MAX,
        ensures
            r.input_dims == input_dims,
            r.output_dims == output_dims,
            r.padded_input_dims == padded_dims(input_dims as int),
            r.padded_input_dims >= input_dims,
            r.biases@.len() == 0,
            r.weights@.len() == 0,
    {
        let padded_input_dims = padded_input(input_dims);
        AffineLayer { input_dims, output_dims, biases: Vec::new(), weights: Vec::new(), padded_input_dims }
    }

    /// Reads the biases and then the weights, in the order they are stored.
    pub fn read_parameters(&mut self, reader: &mut ByteReader) -> (r: Result<(), LoadError>)
        requires
            old(self).output_dims * old(self).padded_input_dims <= usize::MAX,
            old(self).input_dims <= old(self).padded_input_dims,
        ensures
            final(reader).bytes() == old(reader).bytes(),
            final(self).input_dims == old(self).input_dims,
            final(self).output_dims == old(self).output_dims,
            final(self).padded_input_dims == old(self).padded_input_dims,
            r is Ok <==> old(reader).pos() + 4 * old(self).output_dims + old(self).output_dims
                * old(self).padded_input_dims <= old(reader).bytes().len(),
            r is Ok ==> final(self).wf() && holds_layer(*final(self), old(reader).bytes(), old(reader).pos(), false)
                && final(reader).pos() == old(reader).pos() + 4 * old(self).output_dims + old(self).output_dims
                * old(self).padded_input_dims,
            r is Err ==> r->Err_0 == LoadError::UnexpectedEof,
    {
        let ghost pos = reader.pos();
        let ghost bytes = reader.bytes();
        let biases = match read_i32_array(reader, self.output_dims) {
            Ok(b) => b,
            Err(e) => {
                assert(pos + 4 * self.output_dims > bytes.len());
                return Err(e);
            },
        };
        let weights = match read_i8_array(reader, self.output_dims * self.padded_input_dims) {
            Ok(w) => w,
            Err(e) => {
                return Err(e);
            },
        };
        self.biases = biases;
        self.weights = weights;
        proof {
            let n_b = self.output_dims as int;
            let n_w = self.output_dims * self.padded_input_dims;
            let raw = Seq::new(n_w as nat, |i: int| wrap_i8(bytes[pos + 4 * n_b + i] as int) as i8);
            assert(self.weights@ =~= raw);
        }
        Ok(())
    }

    /// Reads the biases and the weights of a first layer, whose weights are stored with the
    /// inputs of each row in the order the feature transformer's packing produces.
    pub fn read_fc0_parameters(&mut self, reader: &mut ByteReader) -> (r: Result<(), LoadError>)
        requires
            old(self).output_dims * old(self).padded_input_dims <= usize::MAX,
            old(self).input_dims <= old(self).padded_input_dims,
            forall|col: int| 0 <= col < old(self).input_dims ==> #[trigger] fc_source_column(col)
                < old(self).padded_input_dims,
        ensures
            final(reader).bytes() == old(reader).bytes(),
            final(self).input_dims == old(self).input_dims,
            final(self).output_dims == old(self).output_dims,
            final(self).padded_input_dims == old(self).padded_input_dims,
            r is Ok <==> old(reader).pos() + 4 * old(self).output_dims + old(self).output_dims
                * old(self).padded_input_dims <= old(reader).bytes().len(),
            r is Ok ==> final(self).wf() && holds_layer(*final(self), old(reader).bytes(), old(reader).pos(), true)
                && final(reader).pos() == old(reader).pos() + 4 * old(self).output_dims + old(self).output_dims
                * old(self).padded_input_dims,
            r is Err ==> r->Err_0 == LoadError::UnexpectedEof,
    {
        let ghost pos = reader.pos();
        let ghost bytes = reader.bytes();
        let rows = self.output_dims;
        let padded = self.padded_input_dims;
        let input_dims = self.input_dims;
        let biases = match read_i32_array(reader, rows) {
            Ok(b) => b,
            Err(e) => {
                assert(pos + 4 * rows > bytes.len());
                return Err(e);
            },
        };
        let raw = match read_i8_array(reader, rows * padded) {
            Ok(w) => w,
            Err(e) => {
                return Err(e);
            },
        };
        let total = rows * padded;
        let mut weights: Vec<i8> = Vec::with_capacity(total);
        let mut row: usize = 0;
        while row < rows
            invariant
                rows == self.output_dims,
                padded == self.padded_input_dims,
                input_dims == self.input_dims,
                input_dims <= padded,
                total == rows * padded,
                raw@.len() == total,
                row <= rows,
                weights@.len() == row * padded,
                forall|col: int| 0 <= col < input_dims ==> #[trigger] fc_source_column(col) < padded,
                forall|i: int| 0 <= i < weights@.len() ==> #[trigger] weights@[i] == raw@[(i / padded as int) * padded
                    + stored_column(i % padded as int, input_dims as int)],
            decreases rows - row,
        {
            assert(row * padded + padded <= total) by (nonlinear_arith)
                requires
                    row < rows,
                    total == rows * padded,
            ;
            assert((row + 1) * padded == row * padded + padded) by (nonlinear_arith);
            let row_offset = row * padded;
            let mut column: usize = 0;
            while column < padded
                invariant
                    rows == self.output_dims,
                    padded == self.padded_input_dims,
                    input_dims == self.input_dims,
                    input_dims <= padded,
                    total == rows * padded,
                    raw@.len() == total,
                    row < rows,
                    row_offset == row * padded,
                    row_offset + padded <= total,
                    column <= padded,
                    weights@.len() == row_offset + column,
                    forall|col: int| 0 <= col < input_dims ==> #[trigger] fc_source_column(col) < padded,
                    forall|i: int| 0 <= i < weights@.len() ==> #[trigger] weights@[i] == raw@[(i / padded as int)
                        * padded + stored_column(i % padded as int, input_dims as int)],
                decreases padded - column,
            {
                let source_column = if column < input_dims {
                    permuted_fc_column(column)
                } else {
                    column
                };
                let w = raw[row_offset + source_column];
                proof {
                    lemma_fundamental_div_mod_converse(
                        (row_offset + column) as int,
                        padded as int,
                        row as int,
                        column as int,
                    );
                }
                weights.push(w);
                column += 1;
            }
            row += 1;
        }
        self.biases = biases;
        self.weights = weights;
        proof {
            let n_b = rows as int;
            let n_w = rows * padded;
            let rawb = Seq::new(n_w as nat, |i: int| wrap_i8(bytes[pos + 4 * n_b + i] as int) as i8);
            assert(raw@ =~= rawb);
            assert(self.weights@ =~= fc0_layout(rawb, padded as int, input_dims as int));
        }
        Ok(())
    }
}

/// The complete network: a feature transformer, and per output bucket a first layer
/// (`half_dims` to 16), a second (30 to 32) and an output layer (32 to 1).
pub struct Network {
    pub feature_transformer: FeatureTransformer,
    pub fc_0: Vec<AffineLayer>,
    pub fc_1: Vec<AffineLayer>,
    pub fc_2: Vec<AffineLayer>,
}

/// Whether the three layer lists hold eight stacks of the shapes a network of accumulator
/// width `half` has.
pub open spec fn stacks_wf(fc_0: Seq<AffineLayer>, fc_1: Seq<AffineLayer>, fc_2: Seq<AffineLayer>, half: int) -> bool {
    &&& fc_0.len() == LAYER_STACK_COUNT
    &&& fc_1.len() == LAYER_STACK_COUNT
    &&& fc_2.len() == LAYER_STACK_COUNT
    &&& forall|k: int| 0 <= k < LAYER_STACK_COUNT ==> {
        &&& (#[trigger] fc_0[k]).wf()
        &&& fc_0[k].input_dims == half
        &&& fc_0[k].output_dims == FC0_OUTPUT_DIMS
        &&& fc_0[k].padded_input_dims == padded_dims(half)
        &&& fc_1[k].wf()
        &&& fc_1[k].input_dims == FC1_INPUT_DIMS
        &&& fc_1[k].output_dims == FC1_OUTPUT_DIMS
        &&& fc_1[k].padded_input_dims == 32
        &&& fc_2[k].wf()
        &&& fc_2[k].input_dims == FC1_OUTPUT_DIMS
        &&& fc_2[k].output_dims == 1
        &&& fc_2[k].padded_input_dims == 32
    }
}

/// Bytes one layer stack takes in a file of accumulator width `half`: a hash, then each layer's
/// biases (four bytes each) and weights (one byte each).
pub open spec fn stack_bytes(half: int) -> int {
    4 + (4 * 16 + 16 * padded_dims(half)) + (4 * 32 + 32 * 32) + (4 + 32)
}

/// Whether the three layer lists hold what the file `bytes` stores for them: stack `k` starts
/// `k` stacks after `base` with its hash, and its layers follow one another.
pub open spec fn stacks_read(fc_0: Seq<AffineLayer>, fc_1: Seq<AffineLayer>, fc_2: Seq<AffineLayer>, bytes: Seq<u8>,
    base: int, half: int, n: int) -> bool
{
    forall|k: int| 0 <= k < n ==> {
        let start = base + k * stack_bytes(half) + 4;
        &&& holds_layer(#[trigger] fc_0[k], bytes, start, true)
        &&& holds_layer(fc_1[k], bytes, start + 4 * 16 + 16 * padded_dims(half), false)
        &&& holds_layer(fc_2[k], bytes, start + 4 * 16 + 16 * padded_dims(half) + 4 * 32 + 32 * 32, false)
    }
}

impl Network {
    /// Whether the network has the shapes of one with accumulator width `half`.
    pub open spec fn wf(&self, half: int) -> bool {
        &&& self.feature_transformer.half_dims == half
        &&& self.feature_transformer.input_dims == FEATURE_DIMS
        &&& self.feature_transformer.biases@.len() == half
        &&& self.feature_transformer.weights@.len() == half * FEATURE_DIMS
        &&& self.feature_transformer.psqt_weights@.len() == 8 * FEATURE_DIMS
        &&& stacks_wf(self.fc_0@, self.fc_1@, self.fc_2@, half)
    }

    /// Reads a network of accumulator width `half_dims` from the bytes of an `.nnue` file: the
    /// version (which must be `VERSION`), a hash, a description that is skipped, the
    /// transformer's hash and magic string, the transformer, and the eight layer stacks.
    pub fn load(bytes: Vec<u8>, half_dims: usize) -> (r: Result<Network, LoadError>)
        requires
            half_dims * FEATURE_DIMS <= usize::MAX,
            half_dims + 31 <= usize::MAX,
            16 * padded_dims(half_dims as int) <= usize::MAX,
            forall|col: int| 0 <= col < half_dims ==> #[trigger] fc_source_column(col) < padded_dims(half_dims as int),
        ensures
            bytes@.len() < 4 ==> r == Err::<Network, LoadError>(LoadError::UnexpectedEof),
            bytes@.len() >= 4 && le_u32(bytes@, 0) != VERSION ==> r == Err::<Network, LoadError>(LoadError::InvalidData),
            r is Ok ==> ({
                let net = r.unwrap();
                let start = transformer_start(bytes@);
                let read = ft_read(bytes@, start + 17, true, half_dims as nat, FEATURE_DIMS as nat);
                &&& le_u32(bytes@, 0) == VERSION
                &&& start + 17 <= bytes@.len()
                &&& bytes@.subrange(start, start + 17) == leb_magic()
                &&& net.wf(half_dims as int)
                &&& read is Ok
                &&& same_values_i16(net.feature_transformer.biases@, ft_param_values(read.unwrap().0))
                &&& same_values_i16(net.feature_transformer.weights@, ft_param_values(read.unwrap().1))
                &&& same_values_i32(net.feature_transformer.psqt_weights@, read.unwrap().2)
                &&& stacks_read(net.fc_0@, net.fc_1@, net.fc_2@, bytes@, ft_end(bytes@, start + 17, true),
                    half_dims as int, LAYER_STACK_COUNT as int)
            }),
    {
        let ghost b = bytes@;
        let mut reader = ByteReader::new(bytes);
        let version = read_u32(&mut reader)?;
        if version != VERSION {
            return Err(LoadError::InvalidData);
        }
        let _hash = read_u32(&mut reader)?;
        let desc_len = read_u32(&mut reader)?;
        let _desc = reader.read_exact(desc_len as usize)?;
        let _hash_ft = read_u32(&mut reader)?;
        let check = reader.read_exact(17)?;
        if !is_leb_magic(&check) {
            return Err(LoadError::InvalidData);
        }
        let mut ft = FeatureTransformer::new(FEATURE_DIMS, half_dims);
        let ghost ft_pos = reader.pos();
        ft.read_parameters(&mut reader, true)?;
        proof {
            let p1 = leb_payload(b, ft_pos, false).unwrap().1;
            let p2 = leb_payload(b, p1, true).unwrap().1;
            lemma_leb_decode_len(leb_payload(b, ft_pos, false).unwrap().0, half_dims as nat);
            lemma_leb_decode_len(leb_payload(b, p1, true).unwrap().0, (half_dims * FEATURE_DIMS) as nat);
            lemma_leb_decode_len(leb_payload(b, p2, true).unwrap().0, (8 * FEATURE_DIMS) as nat);
        }
        let ghost base = reader.pos();
        let ghost size = stack_bytes(half_dims as int);
        let mut fc_0s: Vec<AffineLayer> = Vec::new();
        let mut fc_1s: Vec<AffineLayer> = Vec::new();
        let mut fc_2s: Vec<AffineLayer> = Vec::new();
        let mut stack: usize = 0;
        while stack < LAYER_STACK_COUNT
            invariant
                stack <= LAYER_STACK_COUNT,
                b == bytes@,
                b.len() >= 4,
                le_u32(b, 0) == VERSION,
                reader.bytes() == b,
                size == stack_bytes(half_dims as int),
                reader.pos() == base + stack * size,
                stacks_read(fc_0s@, fc_1s@, fc_2s@, b, base, half_dims as int, stack as int),
                half_dims + 31 <= usize::MAX,
                16 * padded_dims(half_dims as int) <= usize::MAX,
                forall|col: int| 0 <= col < half_dims ==> #[trigger] fc_source_column(col) < padded_dims(half_dims as int),
                fc_0s@.len() == stack,
                fc_1s@.len() == stack,
                fc_2s@.len() == stack,
                forall|k: int| 0 <= k < stack ==> {
                    &&& (#[trigger] fc_0s@[k]).wf()
                    &&& fc_0s@[k].input_dims == half_dims
                    &&& fc_0s@[k].output_dims == FC0_OUTPUT_DIMS
                    &&& fc_0s@[k].padded_input_dims == padded_dims(half_dims as int)
                    &&& fc_1s@[k].wf()
                    &&& fc_1s@[k].input_dims == FC1_INPUT_DIMS
                    &&& fc_1s@[k].output_dims == FC1_OUTPUT_DIMS
                    &&& fc_1s@[k].padded_input_dims == 32
                    &&& fc_2s@[k].wf()
                    &&& fc_2s@[k].input_dims == FC1_OUTPUT_DIMS
                    &&& fc_2s@[k].output_dims == 1
                    &&& fc_2s@[k].padded_input_dims == 32
                },
            decreases LAYER_STACK_COUNT - stack,
        {
            let _hash_stack = read_u32(&mut reader)?;
            let ghost p0 = reader.pos();
            let mut fc_0 = AffineLayer::new(half_dims, FC0_OUTPUT_DIMS);
            fc_0.read_fc0_parameters(&mut reader)?;
            let mut fc_1 = AffineLayer::new(FC1_INPUT_DIMS, FC1_OUTPUT_DIMS);
            fc_1.read_parameters(&mut reader)?;
            let mut fc_2 = AffineLayer::new(FC1_OUTPUT_DIMS, 1);
            fc_2.read_parameters(&mut reader)?;
            let ghost (o0, o1, o2) = (fc_0s@, fc_1s@, fc_2s@);
            fc_0s.push(fc_0);
            fc_1s.push(fc_1);
            fc_2s.push(fc_2);
            proof {
                assert((stack + 1) * size == stack * size + size) by (nonlinear_arith);
                assert(p0 == base + stack * size + 4);
                assert forall|k: int| 0 <= k < stack + 1 implies {
                    let start = base + k * stack_bytes(half_dims as int) + 4;
                    &&& holds_layer(#[trigger] fc_0s@[k], b, start, true)
                    &&& holds_layer(fc_1s@[k], b, start + 4 * 16 + 16 * padded_dims(half_dims as int), false)
                    &&& holds_layer(fc_2s@[k], b, start + 4 * 16 + 16 * padded_dims(half_dims as int) + 4 * 32 + 32 * 32, false)
                } by {
                    if k < stack {
                        assert(fc_0s@[k] == o0[k] && fc_1s@[k] == o1[k] && fc_2s@[k] == o2[k]);
                    }
                }
                assert forall|k: int| 0 <= k < stack + 1 implies {
                    &&& (#[trigger] fc_0s@[k]).wf()
                    &&& fc_0s@[k].input_dims == half_dims
                    &&& fc_0s@[k].output_dims == FC0_OUTPUT_DIMS
                    &&& fc_0s@[k].padded_input_dims == padded_dims(half_dims as int)
                    &&& fc_1s@[k].wf()
                    &&& fc_1s@[k].input_dims == FC1_INPUT_DIMS
                    &&& fc_1s@[k].output_dims == FC1_OUTPUT_DIMS
                    &&& fc_1s@[k].padded_input_dims == 32
                    &&& fc_2s@[k].wf()
                    &&& fc_2s@[k].input_dims == FC1_OUTPUT_DIMS
                    &&& fc_2s@[k].output_dims == 1
                    &&& fc_2s@[k].padded_input_dims == 32
                } by {
                    if k < stack {
                        assert(fc_0s@[k] == o0[k] && fc_1s@[k] == o1[k] && fc_2s@[k] == o2[k]);
                    }
                }
            }
            stack += 1;
        }
        Ok(Network { feature_transformer: ft, fc_0: fc_0s, fc_1: fc_1s, fc_2: fc_2s })
    }
}

} // verus!
