//! Networks with the same parameters evaluate alike, and two reads of the same file bytes give
//! networks with the same parameters.
use vstd::prelude::*;
use super::{Network, NnueNetworks, LAYER_STACKS, transformed_features, fc1_input, zeros_i32, zeros_u8};
use super::load::{loaded_from, networks_loaded_from};
use crate::layers::{AffineTransform, AffineTransformSparseInput, Layer};
use crate::layers::sparse::{scrambled_index, lemma_scrambled_onto};

verus! {

/// Two dense layers have the same shape and hold the same parameters.
pub open spec fn dense_alike(x: AffineTransform, y: AffineTransform) -> bool {
    &&& x.input_dims == y.input_dims
    &&& x.output_dims == y.output_dims
    &&& x.padded_input_dims == y.padded_input_dims
    &&& x.biases@ == y.biases@
    &&& x.weights@ == y.weights@
}

/// Two first layers have the same shape and hold the same parameters.
pub open spec fn sparse_alike(x: AffineTransformSparseInput, y: AffineTransformSparseInput) -> bool {
    &&& x.input_dims == y.input_dims
    &&& x.output_dims == y.output_dims
    &&& x.padded_input_dims == y.padded_input_dims
    &&& x.biases@ == y.biases@
    &&& x.weights@ == y.weights@
}

/// Two networks have the same shape and hold the same parameters: the transformer's, each
/// layer's of each stack, and the activations'.
pub open spec fn same_weights(a: Network, b: Network) -> bool {
    &&& a.is_big == b.is_big
    &&& a.feature_transformer.input_dims == b.feature_transformer.input_dims
    &&& a.feature_transformer.half_dims == b.feature_transformer.half_dims
    &&& a.feature_transformer.biases@ == b.feature_transformer.biases@
    &&& a.feature_transformer.weights@ == b.feature_transformer.weights@
    &&& a.feature_transformer.psqt_weights@ == b.feature_transformer.psqt_weights@
    &&& a.fc_0@.len() == b.fc_0@.len()
    &&& a.fc_1@.len() == b.fc_1@.len()
    &&& a.fc_2@.len() == b.fc_2@.len()
    &&& forall|k: int| 0 <= k < a.fc_0@.len() ==> sparse_alike(#[trigger] a.fc_0@[k], b.fc_0@[k])
    &&& forall|k: int| 0 <= k < a.fc_1@.len() ==> dense_alike(#[trigger] a.fc_1@[k], b.fc_1@[k])
    &&& forall|k: int| 0 <= k < a.fc_2@.len() ==> dense_alike(#[trigger] a.fc_2@[k], b.fc_2@[k])
    &&& a.ac_sqr_0 == b.ac_sqr_0
    &&& a.ac_0 == b.ac_0
    &&& a.ac_1 == b.ac_1
}

/// Both pairs of networks hold the same parameters.
pub open spec fn nets_alike(x: NnueNetworks, y: NnueNetworks) -> bool {
    same_weights(x.big_net, y.big_net) && same_weights(x.small_net, y.small_net)
}

/// Networks with the same parameters give the same `(psqt, positional)` pair on the same
/// accumulator values, in every stack.
pub proof fn lemma_alike_evaluation(a: Network, b: Network, size: int, us: Seq<i16>, them: Seq<i16>, psqt_us: int,
    psqt_them: int, bucket: int)
    requires
        a.wf(size),
        same_weights(a, b),
        0 <= bucket < LAYER_STACKS,
    ensures
        a.evaluation(us, them, psqt_us, psqt_them, bucket) == b.evaluation(us, them, psqt_us, psqt_them, bucket),
{
    reveal(Network::evaluation);
    reveal(Network::fc0_output);
    reveal(Network::fc2_output);
    let t = transformed_features(us, them, a.feature_transformer.half_dims as int);
    let (a0, b0) = (a.fc_0@[bucket], b.fc_0@[bucket]);
    let (a1, b1) = (a.fc_1@[bucket], b.fc_1@[bucket]);
    let (a2, b2) = (a.fc_2@[bucket], b.fc_2@[bucket]);
    assert(sparse_alike(a0, b0));
    assert(dense_alike(a1, b1));
    assert(dense_alike(a2, b2));
    assert(a0.propagated(t, zeros_i32(16)) =~= b0.propagated(t, zeros_i32(16)));
    let o0 = a.fc0_output(us, them, bucket);
    assert(o0 == b.fc0_output(us, them, bucket));
    let o1 = a1.propagated(fc1_input(o0), zeros_i32(32));
    assert(o1 =~= b1.propagated(fc1_input(o0), zeros_i32(32)));
    let i2 = a.ac_1.propagated(o1, zeros_u8(32));
    assert(a2.propagated(i2, zeros_i32(1)) =~= b2.propagated(i2, zeros_i32(1)));
    assert(a.fc2_output(us, them, bucket) == b.fc2_output(us, them, bucket));
}

/// Networks read from the same file bytes hold the same parameters.
pub proof fn lemma_loaded_alike(a: Network, b: Network, bytes: Seq<u8>, is_big: bool)
    requires
        loaded_from(a, bytes, is_big),
        loaded_from(b, bytes, is_big),
    ensures
        same_weights(a, b),
{
    assert(a.feature_transformer.biases@ =~= b.feature_transformer.biases@);
    assert(a.feature_transformer.weights@ =~= b.feature_transformer.weights@);
    assert(a.feature_transformer.psqt_weights@ =~= b.feature_transformer.psqt_weights@);
    let half: int = if is_big { 3072 } else { 128 };
    assert forall|k: int| 0 <= k < a.fc_0@.len() implies sparse_alike(#[trigger] a.fc_0@[k], b.fc_0@[k]) by {
        let (x, y) = (a.fc_0@[k], b.fc_0@[k]);
        assert(x.wf() && y.wf());
        let o = x.output_dims as int;
        let p = x.padded_input_dims as int;
        assert(o == 16 && y.output_dims == 16);
        assert(x.output_dims * x.padded_input_dims == 16 * p);
        assert(y.output_dims * y.padded_input_dims == 16 * y.padded_input_dims);
        assert(p == y.padded_input_dims);
        assert(x.biases@ =~= y.biases@);
        assert(p >= 4) by {
            assert(x.input_dims == half);
        }
        assert forall|i: int| 0 <= i < x.weights@.len() implies x.weights@[i] == y.weights@[i] by {
            let cell = lemma_scrambled_onto(i, p, o);
            assert(x.weights@[scrambled_index(cell.0 * p + cell.1, p, o)] as int == y.weights@[scrambled_index(cell.0 * p
                + cell.1, p, o)] as int);
        }
        assert(x.weights@ =~= y.weights@);
    }
    assert forall|k: int| 0 <= k < a.fc_1@.len() implies dense_alike(#[trigger] a.fc_1@[k], b.fc_1@[k]) by {
        let (x, y) = (a.fc_0@[k], b.fc_0@[k]);
        let (v, w) = (a.fc_1@[k], b.fc_1@[k]);
        assert(x.wf() && y.wf());
        assert(v.wf() && w.wf());
        assert(v.output_dims * v.padded_input_dims == 32 * v.padded_input_dims);
        assert(w.output_dims * w.padded_input_dims == 32 * w.padded_input_dims);
        assert(v.biases@ =~= w.biases@);
        assert(v.weights@ =~= w.weights@);
    }
    assert forall|k: int| 0 <= k < a.fc_2@.len() implies dense_alike(#[trigger] a.fc_2@[k], b.fc_2@[k]) by {
        let (x, y) = (a.fc_0@[k], b.fc_0@[k]);
        let (v, w) = (a.fc_2@[k], b.fc_2@[k]);
        assert(x.wf() && y.wf());
        assert(v.wf() && w.wf());
        assert(v.output_dims * v.padded_input_dims == 1 * v.padded_input_dims);
        assert(w.output_dims * w.padded_input_dims == 1 * w.padded_input_dims);
        assert(v.biases@ =~= w.biases@);
        assert(v.weights@ =~= w.weights@);
    }
}

/// Both networks read from the same two files hold the same parameters as another pair read
/// from them.
pub proof fn lemma_networks_loaded_alike(x: NnueNetworks, y: NnueNetworks, big_bytes: Seq<u8>, small_bytes: Seq<u8>)
    requires
        networks_loaded_from(x, big_bytes, small_bytes),
        networks_loaded_from(y, big_bytes, small_bytes),
    ensures
        nets_alike(x, y),
{
    lemma_loaded_alike(x.big_net, y.big_net, big_bytes, true);
    lemma_loaded_alike(x.small_net, y.small_net, small_bytes, false);
}

} // verus!
