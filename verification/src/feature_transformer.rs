//! The feature transformer: biases, per-feature weight columns and PSQT weights.
use vstd::prelude::*;
use crate::aligned::AlignedBuffer;
use crate::loader::{
    leb_payload, leb_read_result, read_leb128_i16, read_leb128_i16_checked, read_leb128_i32,
    same_values_i16, same_values_i32, wrap_i16, wrapped_i16_values, ByteReader, LoadError,
};

verus! {

/// Number of PSQT buckets.
pub const PSQT_BUCKETS: usize = 8;

/// Position of the 16-value block that block `b` of a 128-value chunk takes its values from:
/// the stored layout swaps blocks 1 and 2 and blocks 5 and 6.
pub open spec fn packus_order(b: int) -> int {
    if b == 1 { 2 } else if b == 2 { 1 } else if b == 5 { 6 } else if b == 6 { 5 } else { b }
}

/// Index that position `i` of a sequence of length `len` takes its value from after the
/// block permutation; positions past the last whole 128-value chunk keep their value.
pub open spec fn permuted_source(len: int, i: int) -> int {
    if i < len / 128 * 128 {
        let r = i % 128;
        i / 128 * 128 + packus_order(r / 16) * 16 + r % 16
    } else {
        i
    }
}

/// `data` with the blocks of every whole 128-value chunk reordered.
pub open spec fn permuted<T>(data: Seq<T>) -> Seq<T> {
    Seq::new(data.len(), |i: int| data[permuted_source(data.len() as int, i)])
}

proof fn lemma_permuted_source_range(len: int, i: int)
    requires
        0 <= i < len,
    ensures
        0 <= permuted_source(len, i) < len,
{
    if i < len / 128 * 128 {
        let c = i / 128;
        assert(c * 128 <= i);
        assert((c + 1) * 128 <= len / 128 * 128);
    }
}

/// The block reordering undoes itself: each position takes its value from a position that takes
/// its value back from it, so reordering twice gives the data back and no value is lost or
/// repeated.
pub proof fn lemma_permuted_involution<T>(data: Seq<T>)
    ensures
        permuted(data).len() == data.len(),
        permuted(permuted(data)) == data,
        forall|i: int| 0 <= i < data.len() ==> 0 <= #[trigger] permuted_source(data.len() as int, i) < data.len()
            && permuted_source(data.len() as int, permuted_source(data.len() as int, i)) == i,
{
    let len = data.len() as int;
    assert forall|i: int| 0 <= i < len implies 0 <= #[trigger] permuted_source(len, i) < len
        && permuted_source(len, permuted_source(len, i)) == i by {
        lemma_permuted_source_range(len, i);
        if i < len / 128 * 128 {
            let c = i / 128;
            let r = i % 128;
            let b = r / 16;
            let o = r % 16;
            let j = c * 128 + packus_order(b) * 16 + o;
            assert(0 <= b < 8);
            assert(0 <= packus_order(b) < 8);
            assert(0 <= packus_order(b) * 16 + o < 128);
            vstd::arithmetic::div_mod::lemma_fundamental_div_mod_converse(j, 128, c, packus_order(b) * 16 + o);
            vstd::arithmetic::div_mod::lemma_fundamental_div_mod_converse(packus_order(b) * 16 + o, 16, packus_order(b), o);
            assert(c * 128 <= i);
            assert(j < (c + 1) * 128);
            assert((c + 1) * 128 <= len / 128 * 128);
            assert(permuted_source(len, j) == c * 128 + b * 16 + o);
            vstd::arithmetic::div_mod::lemma_fundamental_div_mod(i, 128);
            vstd::arithmetic::div_mod::lemma_fundamental_div_mod(r, 16);
        }
    }
    let p = permuted(data);
    assert forall|i: int| 0 <= i < len implies #[trigger] permuted(p)[i] == data[i] by {
        lemma_permuted_source_range(len, i);
    }
    assert(permuted(p) =~= data);
}

/// Reorders the serialized weights into the layout the accumulator uses.
pub fn permute_weights(data: &mut Vec<i16>)
    ensures
        final(data)@ == permuted(old(data)@),
{
    let len = data.len();
    let whole = len / 128 * 128;
    let mut out: Vec<i16> = Vec::with_capacity(len);
    let mut i: usize = 0;
    while i < len
        invariant
            len == data.len(),
            whole == len / 128 * 128,
            i <= len,
            out@ == permuted(data@).subrange(0, i as int),
        decreases len - i,
    {
        let src = if i < whole {
            let r = i % 128;
            let b = r / 16;
            let ob: usize = if b == 1 { 2 } else if b == 2 { 1 } else if b == 5 { 6 } else if b == 6 { 5 } else { b };
            i / 128 * 128 + ob * 16 + r % 16
        } else {
            i
        };
        proof {
            lemma_permuted_source_range(len as int, i as int);
            assert(src == permuted_source(len as int, i as int));
            assert(permuted(data@).subrange(0, i + 1) =~= permuted(data@).subrange(0, i as int).push(data@[src as int]));
        }
        out.push(data[src]);
        i += 1;
    }
    proof {
        assert(permuted(data@).subrange(0, len as int) =~= permuted(data@));
    }
    *data = out;
}

/// Values of a feature-transformer parameter block as stored after loading: the decoded
/// values wrapped to 16 bits, block-permuted, then doubled with wrap-around.
pub open spec fn ft_param_values(raw: Seq<int>) -> Seq<int> {
    Seq::new(raw.len(), |i: int| wrap_i16(2 * wrap_i16(raw[permuted_source(raw.len() as int, i)])))
}

/// Position after the LEB128 block read at `pos`.
pub open spec fn leb_end(b: Seq<u8>, pos: int, check_magic: bool) -> int {
    leb_payload(b, pos, check_magic).unwrap().1
}

/// Position after the three blocks read at `pos`.
pub open spec fn ft_end(b: Seq<u8>, pos: int, skip_first_magic: bool) -> int {
    leb_end(b, leb_end(b, leb_end(b, pos, !skip_first_magic), true), true)
}

/// Outcome of reading the three blocks: the decoded biases, weights and PSQT weights.
pub open spec fn ft_read(b: Seq<u8>, pos: int, skip_first_magic: bool, half_dims: nat, input_dims: nat)
    -> Result<(Seq<int>, Seq<int>, Seq<int>), LoadError>
{
    let p1 = leb_end(b, pos, !skip_first_magic);
    let p2 = leb_end(b, p1, true);
    let r1 = leb_read_result(b, pos, !skip_first_magic, half_dims);
    let r2 = leb_read_result(b, p1, true, half_dims * input_dims);
    let r3 = leb_read_result(b, p2, true, 8 * input_dims);
    if r1 is Err {
        Err(r1->Err_0)
    } else if r2 is Err {
        Err(r2->Err_0)
    } else if r3 is Err {
        Err(r3->Err_0)
    } else {
        Ok((r1->Ok_0, r2->Ok_0, r3->Ok_0))
    }
}

/// Feature transformer: converts sparse features into dense accumulator columns.
pub struct FeatureTransformer {
    pub input_dims: usize,
    pub half_dims: usize,
    pub biases: AlignedBuffer<i16>,
    pub weights: AlignedBuffer<i16>,
    pub psqt_weights: AlignedBuffer<i32>,
}

impl FeatureTransformer {
    /// A transformer of the given dimensions with no parameters loaded yet.
    pub fn new(input_dims: usize, half_dims: usize) -> (r: Self)
        ensures
            r.input_dims == input_dims,
            r.half_dims == half_dims,
            r.biases@.len() == 0,
            r.weights@.len() == 0,
            r.psqt_weights@.len() == 0,
    {
        FeatureTransformer {
            input_dims,
            half_dims,
            biases: AlignedBuffer::with_element(0, 0i16),
            weights: AlignedBuffer::with_element(0, 0i16),
            psqt_weights: AlignedBuffer::with_element(0, 0i32),
        }
    }

    /// Reads biases, weights and PSQT weights; the first magic string is skipped when the
    /// caller has already consumed it.
    pub fn read_parameters(&mut self, reader: &mut ByteReader, skip_first_magic: bool) -> (r: Result<(), LoadError>)
        requires
            old(self).half_dims * old(self).input_dims <= usize::MAX,
            8 * old(self).input_dims <= usize::MAX,
        ensures
            final(reader).bytes() == old(reader).bytes(),
            final(self).input_dims == old(self).input_dims,
            final(self).half_dims == old(self).half_dims,
            r is Ok ==> final(reader).pos() == ft_end(old(reader).bytes(), old(reader).pos(), skip_first_magic),
            match ft_read(old(reader).bytes(), old(reader).pos(), skip_first_magic,
                old(self).half_dims as nat, old(self).input_dims as nat) {
                Ok((b, w, p)) => r is Ok
                    && same_values_i16(final(self).biases@, ft_param_values(b))
                    && same_values_i16(final(self).weights@, ft_param_values(w))
                    && same_values_i32(final(self).psqt_weights@, p),
                Err(e) => r == Err::<(), LoadError>(e)
                    && final(self).biases == old(self).biases
                    && final(self).weights == old(self).weights
                    && final(self).psqt_weights == old(self).psqt_weights,
            },
    {
        let mut biases_vec = read_leb128_i16_checked(reader, self.half_dims, !skip_first_magic)?;
        let mut weights_vec = read_leb128_i16(reader, self.half_dims * self.input_dims)?;
        let psqt_weights_vec = read_leb128_i32(reader, PSQT_BUCKETS * self.input_dims)?;
        let ghost rb = biases_vec@;
        let ghost rw = weights_vec@;

        permute_weights(&mut biases_vec);
        permute_weights(&mut weights_vec);

        let biases_vec = double_all(biases_vec);
        let weights_vec = double_all(weights_vec);

        proof {
            let b = old(reader).bytes();
            let vals = ft_read(b, old(reader).pos(), skip_first_magic, self.half_dims as nat, self.input_dims as nat).unwrap();
            lemma_params(rb, vals.0, biases_vec@);
            lemma_params(rw, vals.1, weights_vec@);
        }

        self.biases = AlignedBuffer::from_vec(biases_vec);
        self.weights = AlignedBuffer::from_vec(weights_vec);
        self.psqt_weights = AlignedBuffer::from_vec(psqt_weights_vec);
        Ok(())
    }
}

proof fn lemma_params(read: Seq<i16>, raw: Seq<int>, out: Seq<i16>)
    requires
        wrapped_i16_values(read, raw),
        out.len() == read.len(),
        forall|i: int| 0 <= i < out.len() ==> #[trigger] out[i] as int == wrap_i16(2 * permuted(read)[i]),
    ensures
        same_values_i16(out, ft_param_values(raw)),
{
    assert forall|i: int| 0 <= i < out.len() implies #[trigger] out[i] as int == ft_param_values(raw)[i] by {
        lemma_permuted_source_range(read.len() as int, i);
        assert(out[i] as int == wrap_i16(2 * permuted(read)[i]));
    }
}

/// Doubles every value with 16-bit wrap-around.
fn double_all(v: Vec<i16>) -> (r: Vec<i16>)
    ensures
        r@.len() == v@.len(),
        forall|i: int| 0 <= i < r@.len() ==> #[trigger] r@[i] as int == wrap_i16(2 * v@[i]),
{
    let mut out: Vec<i16> = Vec::with_capacity(v.len());
    let mut i: usize = 0;
    while i < v.len()
        invariant
            i <= v.len(),
            out@.len() == i,
            forall|k: int| 0 <= k < i ==> #[trigger] out@[k] as int == wrap_i16(2 * v@[k]),
        decreases v.len() - i,
    {
        let d = v[i].wrapping_mul(2);
        out.push(d);
        i += 1;
    }
    out
}

} // verus!
