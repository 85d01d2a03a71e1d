//! Reading a network from the bytes of an `.nnue` file.
use vstd::prelude::*;
use super::{Network, NnueNetworks, LAYER_STACKS};
use crate::accumulator::ft_ready;
use crate::feature_transformer::{FeatureTransformer, ft_end, ft_read, ft_param_values};
use crate::features::FEATURE_DIMS;
use crate::layers::{AffineTransform, AffineTransformSparseInput, ClippedReLU, Layer, SqrClippedReLU};
use crate::layers::affine::padded_dims;
use crate::layers::sparse::fc_source_column;
use crate::loader::{ByteReader, LoadError, le_u32, leb_decode, leb_payload, leb_read_result, leb_magic, read_u32,
    same_values_i16, same_values_i32};

verus! {

/// Version tag at the start of a network file.
pub const VERSION: u32 = 0x7AF32F20;

/// A decoded block holds as many values as were asked for.
pub proof fn lemma_leb_decode_len(data: Seq<u8>, n: nat)
    ensures
        leb_decode(data, n).0 == 0 ==> leb_decode(data, n).1.len() == n,
        leb_decode(data, n).1.len() <= n,
    decreases n,
{
    if n > 0 {
        lemma_leb_decode_len(data, (n - 1) as nat);
    }
}

/// Inputs of a first layer as wide as a multiple of 64 are read from inside its rows.
pub(crate) proof fn lemma_source_columns(half: int)
    requires
        half % 64 == 0,
        half > 0,
    ensures
        forall|col: int| 0 <= col < half ==> #[trigger] fc_source_column(col) < half,
{
    assert forall|col: int| 0 <= col < half implies #[trigger] fc_source_column(col) < half by {
        let block = col / 64;
        assert((col / 32) / 2 == block);
        assert(block < half / 64);
        assert(64 * block + 64 <= half);
    }
}

/// Position of the feature transformer's magic string: after the version, hash, description
/// length, description and transformer hash.
pub open spec fn transformer_start(b: Seq<u8>) -> int {
    16 + le_u32(b, 8)
}

/// Whether `b` is the file of a network of accumulator width `half` that reads without error:
/// the version, the header up to the transformer's magic string, the transformer's three
/// blocks, and eight layer stacks after them.
pub open spec fn network_bytes_ok(b: Seq<u8>, half: nat) -> bool {
    let start = transformer_start(b);
    &&& b.len() >= 12
    &&& le_u32(b, 0) == VERSION
    &&& start + 17 <= b.len()
    &&& b.subrange(start, start + 17) == leb_magic()
    &&& ft_read(b, start + 17, true, half, FEATURE_DIMS as nat) is Ok
    &&& ft_end(b, start + 17, true) + LAYER_STACKS * stack_size(half as int) <= b.len()
}

/// Whether `check` is the magic string.
pub(crate) fn is_leb_magic(check: &Vec<u8>) -> (r: bool)
    requires
        check@.len() == 17,
    ensures
        r == (check@ == leb_magic()),
{
    let expected: [u8; 17] = [67, 79, 77, 80, 82, 69, 83, 83, 69, 68, 95, 76, 69, 66, 49, 50, 56];
    let mut i: usize = 0;
    while i < 17
        invariant
            check@.len() == 17,
            i <= 17,
            forall|k: int| 0 <= k < i ==> check@[k] == leb_magic()[k],
            forall|k: int| 0 <= k < 17 ==> #[trigger] expected[k] == leb_magic()[k],
        decreases 17 - i,
    {
        if check[i] != expected[i] {
            assert(check@[i as int] != leb_magic()[i as int]);
            return false;
        }
        i += 1;
    }
    assert(check@ =~= leb_magic());
    true
}

/// Bytes one layer stack takes in a file of accumulator width `half`: a hash, then each layer's
/// biases (four bytes each) and weights (one byte each).
pub open spec fn stack_size(half: int) -> int {
    4 + (4 * 16 + 16 * padded_dims(half)) + (4 * 32 + 32 * 32) + (4 + 32)
}

/// Whether the first `n` layer stacks hold what `bytes` stores for them: stack `k` starts `k`
/// stacks after `base` with its hash, and its three layers follow one another.
pub open spec fn stacks_loaded(fc_0: Seq<AffineTransformSparseInput>, fc_1: Seq<AffineTransform>, fc_2: Seq<AffineTransform>,
    bytes: Seq<u8>, base: int, half: int, n: int) -> bool
{
    forall|k: int| 0 <= k < n ==> {
        let s0 = base + k * stack_size(half) + 4;
        let s1 = s0 + 4 * 16 + 16 * padded_dims(half);
        let s2 = s1 + 4 * 32 + 32 * 32;
        &&& (#[trigger] fc_0[k]).loaded(fc_0[k], bytes, s0, s1, Ok(()))
        &&& fc_1[k].loaded(fc_1[k], bytes, s1, s2, Ok(()))
        &&& fc_2[k].loaded(fc_2[k], bytes, s2, s2 + 4 + 32, Ok(()))
    }
}

/// Reads the eight layer stacks, each a hash and three layers.
fn read_stacks(reader: &mut ByteReader, half_dims: usize)
    -> (r: Result<(Vec<AffineTransformSparseInput>, Vec<AffineTransform>, Vec<AffineTransform>), LoadError>)
    requires
        half_dims == 3072 || half_dims == 128,
    ensures
        r is Ok ==> ({
            let (a, b, c) = r.unwrap();
            &&& a@.len() == LAYER_STACKS
            &&& b@.len() == LAYER_STACKS
            &&& c@.len() == LAYER_STACKS
            &&& forall|k: int| 0 <= k < LAYER_STACKS ==> {
                &&& (#[trigger] a@[k]).wf()
                &&& a@[k].input_dims == half_dims
                &&& a@[k].output_dims == 16
                &&& b@[k].wf()
                &&& b@[k].input_dims == 30
                &&& b@[k].output_dims == 32
                &&& c@[k].wf()
                &&& c@[k].input_dims == 32
                &&& c@[k].output_dims == 1
            }
            &&& stacks_loaded(a@, b@, c@, old(reader).bytes(), old(reader).pos(), half_dims as int, LAYER_STACKS as int)
        }),
        final(reader).bytes() == old(reader).bytes(),
        r is Ok <==> old(reader).pos() + LAYER_STACKS * stack_size(half_dims as int) <= old(reader).bytes().len(),
        r is Ok ==> final(reader).pos() == old(reader).pos() + LAYER_STACKS * stack_size(half_dims as int),
        r is Err ==> r->Err_0 == LoadError::UnexpectedEof,
{
    let ghost base = reader.pos();
    let ghost bytes = reader.bytes();
    let ghost size = stack_size(half_dims as int);
    let _ = reader.position();
    proof { lemma_source_columns(half_dims as int); }
    let mut fc_0s: Vec<AffineTransformSparseInput> = Vec::new();
    let mut fc_1s: Vec<AffineTransform> = Vec::new();
    let mut fc_2s: Vec<AffineTransform> = Vec::new();
    let mut stack: usize = 0;
    while stack < LAYER_STACKS
        invariant
            stack <= LAYER_STACKS,
            half_dims == 3072 || half_dims == 128,
            reader.bytes() == bytes,
            size == stack_size(half_dims as int),
            reader.pos() == base + stack * size,
            base + stack * size <= bytes.len(),
            base == old(reader).pos(),
            bytes == old(reader).bytes(),
            stacks_loaded(fc_0s@, fc_1s@, fc_2s@, bytes, base, half_dims as int, stack as int),
            fc_0s@.len() == stack,
            fc_1s@.len() == stack,
            fc_2s@.len() == stack,
            forall|col: int| 0 <= col < half_dims ==> #[trigger] fc_source_column(col) < half_dims,
            forall|k: int| 0 <= k < stack ==> {
                &&& (#[trigger] fc_0s@[k]).wf()
                &&& fc_0s@[k].input_dims == half_dims
                &&& fc_0s@[k].output_dims == 16
                &&& fc_1s@[k].wf()
                &&& fc_1s@[k].input_dims == 30
                &&& fc_1s@[k].output_dims == 32
                &&& fc_2s@[k].wf()
                &&& fc_2s@[k].input_dims == 32
                &&& fc_2s@[k].output_dims == 1
            },
        decreases LAYER_STACKS - stack,
    {
        proof {
            assert(stack * size + size <= LAYER_STACKS * size) by (nonlinear_arith)
                requires
                    stack < LAYER_STACKS,
                    size >= 0,
            ;
            assert(size == 4 + (4 * 16 + 16 * padded_dims(half_dims as int)) + (4 * 32 + 32 * 32) + (4 + 32));
        }
        let _hash_stack = read_u32(reader)?;
        let ghost p0 = reader.pos();
        let mut fc_0 = AffineTransformSparseInput::new(half_dims, 16);
        assert(fc_0.read_ready());
        fc_0.read_parameters(reader)?;
        let mut fc_1 = AffineTransform::new(30, 32);
        fc_1.read_parameters(reader)?;
        let mut fc_2 = AffineTransform::new(32, 1);
        fc_2.read_parameters(reader)?;
        assert(fc_0.wf() && fc_0.input_dims == half_dims && fc_0.output_dims == 16);
        assert(fc_1.wf() && fc_1.input_dims == 30 && fc_1.output_dims == 32);
        assert(fc_2.wf() && fc_2.input_dims == 32 && fc_2.output_dims == 1);
        let ghost (o0, o1, o2) = (fc_0s@, fc_1s@, fc_2s@);
        fc_0s.push(fc_0);
        fc_1s.push(fc_1);
        fc_2s.push(fc_2);
        proof {
            assert((stack + 1) * size == stack * size + size) by (nonlinear_arith);
            assert(p0 == base + stack * size + 4);
            assert forall|k: int| 0 <= k < stack + 1 implies {
                let s0 = base + k * stack_size(half_dims as int) + 4;
                let s1 = s0 + 4 * 16 + 16 * padded_dims(half_dims as int);
                let s2 = s1 + 4 * 32 + 32 * 32;
                &&& (#[trigger] fc_0s@[k]).loaded(fc_0s@[k], bytes, s0, s1, Ok(()))
                &&& fc_1s@[k].loaded(fc_1s@[k], bytes, s1, s2, Ok(()))
                &&& fc_2s@[k].loaded(fc_2s@[k], bytes, s2, s2 + 4 + 32, Ok(()))
            } by {
                if k < stack {
                    assert(fc_0s@[k] == o0[k] && fc_1s@[k] == o1[k] && fc_2s@[k] == o2[k]);
                }
            }
            assert forall|k: int| 0 <= k < stack + 1 implies {
                &&& (#[trigger] fc_0s@[k]).wf()
                &&& fc_0s@[k].input_dims == half_dims
                &&& fc_0s@[k].output_dims == 16
                &&& fc_1s@[k].wf()
                &&& fc_1s@[k].input_dims == 30
                &&& fc_1s@[k].output_dims == 32
                &&& fc_2s@[k].wf()
                &&& fc_2s@[k].input_dims == 32
                &&& fc_2s@[k].output_dims == 1
            } by {
                if k < stack {
                    assert(fc_0s@[k] == o0[k] && fc_1s@[k] == o1[k] && fc_2s@[k] == o2[k]);
                }
            }
        }
        stack += 1;
    }
    Ok((fc_0s, fc_1s, fc_2s))
}

/// What a network read from the file bytes `b` holds: the layout of its width, the transformer
/// parameters decoded from the three blocks after the magic string, and the eight layer stacks
/// read from the bytes after those blocks.
pub open spec fn loaded_from(net: Network, b: Seq<u8>, is_big: bool) -> bool {
    let half: nat = if is_big { 3072 } else { 128 };
    let pos = transformer_start(b) + 17;
    let ft = ft_read(b, pos, true, half, FEATURE_DIMS as nat);
    &&& net.wf(half as int)
    &&& net.is_big == is_big
    &&& ft is Ok
    &&& same_values_i16(net.feature_transformer.biases@, ft_param_values(ft.unwrap().0))
    &&& same_values_i16(net.feature_transformer.weights@, ft_param_values(ft.unwrap().1))
    &&& same_values_i32(net.feature_transformer.psqt_weights@, ft.unwrap().2)
    &&& stacks_loaded(net.fc_0@, net.fc_1@, net.fc_2@, b, ft_end(b, pos, true), half as int, LAYER_STACKS as int)
}

/// What both networks read from their files hold.
pub open spec fn networks_loaded_from(n: NnueNetworks, big_bytes: Seq<u8>, small_bytes: Seq<u8>) -> bool {
    loaded_from(n.big_net, big_bytes, true) && loaded_from(n.small_net, small_bytes, false)
}

/// Whether `b` is refused as not a network file: its first four bytes are not the version
/// tag, or the header is complete and the 17 bytes after it are not the magic string.
pub open spec fn header_refused(b: Seq<u8>) -> bool {
    let start = transformer_start(b);
    ||| b.len() >= 4 && le_u32(b, 0) != VERSION
    ||| b.len() >= 12 && le_u32(b, 0) == VERSION && start + 17 <= b.len() && b.subrange(start, start + 17) != leb_magic()
}

/// The error reading a network of accumulator width `half` from `b` ends with, where it does
/// not read: the bytes end inside the version, the version is wrong, the bytes end inside the
/// header, the magic string is wrong, the transformer's blocks fail as `ft_read` says, or the
/// bytes end inside the layer stacks.
pub open spec fn load_error(b: Seq<u8>, half: nat) -> LoadError {
    let start = transformer_start(b);
    if b.len() < 4 {
        LoadError::UnexpectedEof
    } else if le_u32(b, 0) != VERSION {
        LoadError::InvalidData
    } else if b.len() < 12 || start + 17 > b.len() {
        LoadError::UnexpectedEof
    } else if b.subrange(start, start + 17) != leb_magic() {
        LoadError::InvalidData
    } else if ft_read(b, start + 17, true, half, FEATURE_DIMS as nat) is Err {
        ft_read(b, start + 17, true, half, FEATURE_DIMS as nat)->Err_0
    } else {
        LoadError::UnexpectedEof
    }
}

impl Network {
    /// Reads a network from the bytes of an `.nnue` file: the big layout (3072 accumulator values)
    /// when `is_big`, the small one (128) otherwise.
    pub fn load(bytes: Vec<u8>, is_big: bool) -> (r: Result<Network, LoadError>)
        ensures
            bytes@.len() < 4 ==> r == Err::<Network, LoadError>(LoadError::UnexpectedEof),
            header_refused(bytes@) ==> r == Err::<Network, LoadError>(LoadError::InvalidData),
            r is Ok <==> network_bytes_ok(bytes@, if is_big { 3072 } else { 128 }),
            r is Ok ==> loaded_from(r.unwrap(), bytes@, is_big),
            r is Err ==> r->Err_0 == load_error(bytes@, if is_big { 3072 } else { 128 }),
    {
        let ghost b = bytes@;
        let mut reader = ByteReader::new(bytes);
        let version = read_u32(&mut reader)?;
        assert(version == le_u32(b, 0));
        if version != VERSION {
            return Err(LoadError::InvalidData);
        }
        let _hash = read_u32(&mut reader)?;
        let desc_len = read_u32(&mut reader)?;
        let _desc = reader.read_exact(desc_len as usize)?;
        let _hash_ft = read_u32(&mut reader)?;
        let check = reader.read_exact(17)?;
        if !is_leb_magic(&check) {
            return Err(LoadError::InvalidData);
        }
        let half_dims: usize = if is_big { 3072 } else { 128 };
        let mut ft = FeatureTransformer::new(FEATURE_DIMS, half_dims);
        let ghost ft_pos = reader.pos();
        ft.read_parameters(&mut reader, true)?;
        proof {
            let rr = ft_read(b, ft_pos, true, half_dims as nat, FEATURE_DIMS as nat);
            let p1 = leb_payload(b, ft_pos, false).unwrap().1;
            let p2 = leb_payload(b, p1, true).unwrap().1;
            lemma_leb_decode_len(leb_payload(b, ft_pos, false).unwrap().0, half_dims as nat);
            lemma_leb_decode_len(leb_payload(b, p1, true).unwrap().0, (half_dims * FEATURE_DIMS) as nat);
            lemma_leb_decode_len(leb_payload(b, p2, true).unwrap().0, (8 * FEATURE_DIMS) as nat);
        }
        let (fc_0s, fc_1s, fc_2s) = read_stacks(&mut reader, half_dims)?;
        Ok(Network {
            feature_transformer: ft,
            fc_0: fc_0s,
            fc_1: fc_1s,
            fc_2: fc_2s,
            ac_sqr_0: SqrClippedReLU::new(16),
            ac_0: ClippedReLU::new(16),
            ac_1: ClippedReLU::new(32),
            is_big,
        })
    }
}

impl NnueNetworks {
    /// Reads the big and the small network from the bytes of their files; both must read without
    /// error. The big one is read first, so its error is the one returned when both fail.
    pub fn new(big_bytes: Vec<u8>, small_bytes: Vec<u8>) -> (r: Result<NnueNetworks, LoadError>)
        ensures
            r is Ok <==> network_bytes_ok(big_bytes@, 3072) && network_bytes_ok(small_bytes@, 128),
            r is Ok ==> networks_loaded_from(r.unwrap(), big_bytes@, small_bytes@),
            big_bytes@.len() < 4 ==> r == Err::<NnueNetworks, LoadError>(LoadError::UnexpectedEof),
            header_refused(big_bytes@) ==> r == Err::<NnueNetworks, LoadError>(LoadError::InvalidData),
            network_bytes_ok(big_bytes@, 3072) && small_bytes@.len() < 4
                ==> r == Err::<NnueNetworks, LoadError>(LoadError::UnexpectedEof),
            network_bytes_ok(big_bytes@, 3072) && header_refused(small_bytes@)
                ==> r == Err::<NnueNetworks, LoadError>(LoadError::InvalidData),
            r is Err ==> r->Err_0 == (if !network_bytes_ok(big_bytes@, 3072) { load_error(big_bytes@, 3072) } else {
                load_error(small_bytes@, 128) }),
    {
        let big_net = Network::load(big_bytes, true)?;
        let small_net = Network::load(small_bytes, false)?;
        Ok(NnueNetworks { big_net, small_net })
    }
}

} // verus!
