//! Accumulators: per-perspective sums of the feature-transformer columns of active features.
use vstd::prelude::*;
use crate::aligned::AlignedBuffer;
use crate::feature_transformer::{FeatureTransformer, PSQT_BUCKETS};
use crate::features::{feature_index, FEATURE_DIMS};
use crate::loader::{wrap_i16, wrap_i32};
use crate::arith::{lemma_wrap_i16_add, lemma_wrap_i32_add};

pub mod updates;

verus! {

/// Holds the per-perspective accumulator data for one network size.
pub struct Accumulator<const SIZE: usize> {
    pub accumulation: [AlignedBuffer<i16>; 2],
    pub psqt_accumulation: [[i32; 8]; 2],
    pub computed: [bool; 2],
}

impl<const SIZE: usize> Accumulator<SIZE> {
    /// Both perspectives hold `SIZE` column values.
    pub open spec fn wf(&self) -> bool {
        &&& self.accumulation[0]@.len() == SIZE
        &&& self.accumulation[1]@.len() == SIZE
    }
}

/// `w` added when `add` holds, subtracted otherwise.
pub open spec fn signed(add: bool, w: int) -> int {
    if add { w } else { -w }
}

/// The list cut to its first three entries, the most a single-pass column update reads.
pub open spec fn leading<T>(s: Seq<T>) -> Seq<T> {
    if s.len() <= 3 { s } else { s.take(3) }
}

/// The feature transformer has the shape an accumulator of `size` columns reads.
pub open spec fn ft_ready(ft: &FeatureTransformer, size: int) -> bool {
    &&& ft.half_dims == size
    &&& ft.input_dims == FEATURE_DIMS
    &&& ft.biases@.len() == size
    &&& ft.weights@.len() == FEATURE_DIMS * size
    &&& ft.psqt_weights@.len() == FEATURE_DIMS * 8
}

/// Every listed piece has a square below 64 and a piece code below 16.
pub open spec fn valid_pieces(pieces: Seq<(usize, usize)>) -> bool {
    forall|i: int| 0 <= i < pieces.len() ==> (#[trigger] pieces[i]).0 < 64 && pieces[i].1 < 16
}

/// Feature of a listed `(square, piece code)` pair from perspective `p` with king on `ksq`.
pub open spec fn piece_feature(p: int, ksq: int, piece: (usize, usize)) -> int {
    feature_index(p, piece.0 as int, piece.1 as int, ksq)
}

/// Sum of `f` over the listed pieces, taken from the front.
pub open spec fn sum_over(pieces: Seq<(usize, usize)>, f: spec_fn((usize, usize)) -> int) -> int
    decreases pieces.len(),
{
    if pieces.len() == 0 {
        0
    } else {
        sum_over(pieces.drop_last(), f) + f(pieces.last())
    }
}

/// Weight in column `j` of the feature of a piece, from perspective `p` with king on `ksq`.
pub open spec fn column_weight(weights: Seq<i16>, size: int, p: int, ksq: int, j: int) -> spec_fn((usize, usize)) -> int {
    |piece: (usize, usize)| weights[piece_feature(p, ksq, piece) * size + j] as int
}

/// PSQT weight in bucket `b` of the feature of a piece, from perspective `p` with king on `ksq`.
pub open spec fn bucket_weight(psqt_weights: Seq<i32>, p: int, ksq: int, b: int) -> spec_fn((usize, usize)) -> int {
    |piece: (usize, usize)| psqt_weights[piece_feature(p, ksq, piece) * 8 + b] as int
}

/// Sum, over the listed pieces, of column `j` of the weights of their features.
pub open spec fn feature_sum(weights: Seq<i16>, size: int, p: int, ksq: int, pieces: Seq<(usize, usize)>, j: int) -> int {
    sum_over(pieces, column_weight(weights, size, p, ksq, j))
}

/// Sum, over the listed pieces, of PSQT bucket `b` of their features.
pub open spec fn psqt_sum(psqt_weights: Seq<i32>, p: int, ksq: int, pieces: Seq<(usize, usize)>, b: int) -> int {
    sum_over(pieces, bucket_weight(psqt_weights, p, ksq, b))
}

/// Accumulator values of perspective `p` that a full refresh over `pieces` gives.
pub open spec fn matches_pieces(acc: Seq<i16>, psqt: [i32; 8], ft: &FeatureTransformer, size: int, p: int, ksq: int,
    pieces: Seq<(usize, usize)>) -> bool
{
    &&& acc.len() == size
    &&& forall|j: int| 0 <= j < size ==> #[trigger] acc[j] as int == wrap_i16(ft.biases@[j] + feature_sum(ft.weights@, size, p, ksq, pieces, j))
    &&& forall|b: int| 0 <= b < 8 ==> #[trigger] psqt[b] as int == wrap_i32(psqt_sum(ft.psqt_weights@, p, ksq, pieces, b))
}

/// Column values of perspective `p` after starting from `prev` and taking the columns of
/// `removed` out and those of `added` in, wrapping around.
pub open spec fn columns_updated(acc: Seq<i16>, prev: Seq<i16>, ft: &FeatureTransformer, size: int, p: int, ksq: int,
    added: Seq<(usize, usize)>, removed: Seq<(usize, usize)>) -> bool
{
    &&& acc.len() == size
    &&& forall|j: int| 0 <= j < size ==> #[trigger] acc[j] as int == wrap_i16(prev[j] - feature_sum(ft.weights@, size, p, ksq, removed, j)
        + feature_sum(ft.weights@, size, p, ksq, added, j))
}

/// PSQT values of perspective `p` after starting from `prev` and taking the PSQT weights of
/// `removed` out and those of `added` in, wrapping around.
pub open spec fn psqt_updated(psqt: [i32; 8], prev: [i32; 8], ft: &FeatureTransformer, p: int, ksq: int,
    added: Seq<(usize, usize)>, removed: Seq<(usize, usize)>) -> bool
{
    forall|b: int| 0 <= b < 8 ==> #[trigger] psqt[b] as int == wrap_i32(prev[b] - psqt_sum(ft.psqt_weights@, p, ksq, removed, b)
        + psqt_sum(ft.psqt_weights@, p, ksq, added, b))
}

/// Both the columns and the PSQT values of perspective `p` follow from `prev` by the changes.
pub open spec fn updated_from(acc: Seq<i16>, psqt: [i32; 8], prev: Seq<i16>, prev_psqt: [i32; 8], ft: &FeatureTransformer,
    size: int, p: int, ksq: int, added: Seq<(usize, usize)>, removed: Seq<(usize, usize)>) -> bool
{
    &&& columns_updated(acc, prev, ft, size, p, ksq, added, removed)
    &&& psqt_updated(psqt, prev_psqt, ft, p, ksq, added, removed)
}

/// Extending a prefix by one entry adds that entry's value to the sum.
pub proof fn lemma_sum_over_step(s: Seq<(usize, usize)>, k: int, f: spec_fn((usize, usize)) -> int)
    requires
        0 <= k < s.len(),
    ensures
        sum_over(s.take(k + 1), f) == sum_over(s.take(k), f) + f(s[k]),
{
    assert(s.take(k + 1).drop_last() =~= s.take(k));
    assert(s.take(k + 1).last() == s[k]);
}

/// A sum over two lists joined is the sum of the two sums.
pub proof fn lemma_sum_over_concat(a: Seq<(usize, usize)>, b: Seq<(usize, usize)>, f: spec_fn((usize, usize)) -> int)
    ensures
        sum_over(a + b, f) == sum_over(a, f) + sum_over(b, f),
    decreases b.len(),
{
    if b.len() == 0 {
        assert(a + b =~= a);
    } else {
        lemma_sum_over_concat(a, b.drop_last(), f);
        assert((a + b).drop_last() =~= a + b.drop_last());
    }
}

/// Taking one entry out of a list takes its value out of the sum.
pub proof fn lemma_sum_over_remove(s: Seq<(usize, usize)>, i: int, f: spec_fn((usize, usize)) -> int)
    requires
        0 <= i < s.len(),
    ensures
        sum_over(s, f) == sum_over(s.remove(i), f) + f(s[i]),
{
    let front = s.subrange(0, i);
    let back = s.subrange(i + 1, s.len() as int);
    assert(s =~= front + (seq![s[i]] + back));
    assert(s.remove(i) =~= front + back);
    lemma_sum_over_concat(front, seq![s[i]] + back, f);
    lemma_sum_over_concat(seq![s[i]], back, f);
    lemma_sum_over_concat(front, back, f);
    assert(seq![s[i]].drop_last() =~= Seq::<(usize, usize)>::empty());
    assert(sum_over(Seq::<(usize, usize)>::empty(), f) == 0);
    assert(seq![s[i]].last() == s[i]);
    assert(sum_over(seq![s[i]], f) == f(s[i]));
    assert(sum_over(s, f) == sum_over(front + (seq![s[i]] + back), f));
}

/// A sum over a list depends only on which entries it holds, not on their order.
pub proof fn lemma_sum_over_permutation(s1: Seq<(usize, usize)>, s2: Seq<(usize, usize)>, f: spec_fn((usize, usize)) -> int)
    requires
        s1.to_multiset() == s2.to_multiset(),
    ensures
        sum_over(s1, f) == sum_over(s2, f),
    decreases s1.len(),
{
    broadcast use vstd::seq_lib::group_to_multiset_ensures;
    if s1.len() == 0 {
        assert(s1.to_multiset().len() == 0);
        assert(s2.to_multiset().len() == s2.len());
        assert(s2 =~= s1);
    } else {
        let x = s1.last();
        let rest = s1.drop_last();
        assert(s1 =~= rest.push(x));
        assert(s1.to_multiset() == rest.to_multiset().insert(x));
        assert(s2.to_multiset().count(x) > 0);
        assert(s2.contains(x));
        let i = choose|i: int| 0 <= i < s2.len() && s2[i] == x;
        assert(s2.remove(i).to_multiset() == s2.to_multiset().remove(x));
        assert(rest.to_multiset() =~= s2.remove(i).to_multiset());
        lemma_sum_over_permutation(rest, s2.remove(i), f);
        lemma_sum_over_remove(s2, i, f);
    }
}

/// When `old + added` and `new + removed` hold the same pieces, the sum over `new` is the sum
/// over `old` with `removed` taken out and `added` put in.
pub proof fn lemma_sum_over_exchange(old_pieces: Seq<(usize, usize)>, new_pieces: Seq<(usize, usize)>,
    added: Seq<(usize, usize)>, removed: Seq<(usize, usize)>, f: spec_fn((usize, usize)) -> int)
    requires
        (old_pieces + added).to_multiset() == (new_pieces + removed).to_multiset(),
    ensures
        sum_over(new_pieces, f) == sum_over(old_pieces, f) - sum_over(removed, f) + sum_over(added, f),
{
    lemma_sum_over_permutation(old_pieces + added, new_pieces + removed, f);
    lemma_sum_over_concat(old_pieces, added, f);
    lemma_sum_over_concat(new_pieces, removed, f);
}

/// Incremental updates agree with refreshes: an accumulator that a refresh over `old_pieces`
/// would give, updated by `removed` and `added`, is what a refresh over `new_pieces` gives,
/// whenever `old_pieces` with `added` and `new_pieces` with `removed` hold the same pieces.
pub proof fn lemma_incremental_matches_refresh(ft: &FeatureTransformer, size: int, p: int, ksq: int,
    old_pieces: Seq<(usize, usize)>, new_pieces: Seq<(usize, usize)>, added: Seq<(usize, usize)>, removed: Seq<(usize, usize)>,
    prev: Seq<i16>, prev_psqt: [i32; 8], acc: Seq<i16>, psqt: [i32; 8])
    requires
        matches_pieces(prev, prev_psqt, ft, size, p, ksq, old_pieces),
        updated_from(acc, psqt, prev, prev_psqt, ft, size, p, ksq, added, removed),
        (old_pieces + added).to_multiset() == (new_pieces + removed).to_multiset(),
    ensures
        matches_pieces(acc, psqt, ft, size, p, ksq, new_pieces),
{
    assert forall|j: int| 0 <= j < size implies #[trigger] acc[j] as int
        == wrap_i16(ft.biases@[j] + feature_sum(ft.weights@, size, p, ksq, new_pieces, j)) by {
        let f = column_weight(ft.weights@, size, p, ksq, j);
        lemma_sum_over_exchange(old_pieces, new_pieces, added, removed, f);
        let s_old = ft.biases@[j] + feature_sum(ft.weights@, size, p, ksq, old_pieces, j);
        let d = feature_sum(ft.weights@, size, p, ksq, added, j) - feature_sum(ft.weights@, size, p, ksq, removed, j);
        assert(prev[j] as int == wrap_i16(s_old));
        lemma_wrap_i16_add(s_old, d);
    }
    assert forall|b: int| 0 <= b < 8 implies #[trigger] psqt[b] as int
        == wrap_i32(psqt_sum(ft.psqt_weights@, p, ksq, new_pieces, b)) by {
        let f = bucket_weight(ft.psqt_weights@, p, ksq, b);
        lemma_sum_over_exchange(old_pieces, new_pieces, added, removed, f);
        let s_old = psqt_sum(ft.psqt_weights@, p, ksq, old_pieces, b);
        let d = psqt_sum(ft.psqt_weights@, p, ksq, added, b) - psqt_sum(ft.psqt_weights@, p, ksq, removed, b);
        assert(prev_psqt[b] as int == wrap_i32(s_old));
        lemma_wrap_i32_add(s_old, d);
    }
}

/// Feature indices are below the number of features.
pub proof fn lemma_piece_feature_range(p: int, ksq: int, piece: (usize, usize))
    requires
        0 <= p < 2,
        0 <= ksq < 64,
        piece.0 < 64,
        piece.1 < 16,
    ensures
        0 <= piece_feature(p, ksq, piece) < FEATURE_DIMS,
{
    let s = piece.0 as int;
    let pc = piece.1 as int;
    assert(0 <= s / 8 < 8 && 0 <= s % 8 < 8);
    assert(0 <= ksq / 8 < 8 && 0 <= ksq % 8 < 8);
}

/// A column index of a feature's weights stays inside the weight table.
pub proof fn lemma_column_index(f: int, size: int, j: int)
    requires
        0 <= f < FEATURE_DIMS,
        0 <= j < size,
    ensures
        0 <= f * size + j < FEATURE_DIMS * size,
{
    assert(0 <= f * size + j < FEATURE_DIMS * size) by (nonlinear_arith)
        requires
            0 <= f < FEATURE_DIMS,
            0 <= j < size,
    ;
}

} // verus!
